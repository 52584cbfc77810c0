# carry_talk

The verified core of CarryTalk, a desktop app that captures microphone and
system audio, streams it to a real-time transcription and translation
service, and keeps the transcript of each session on disk.

`src/` is a Verus library: every function carries a contract that Verus
proves. It holds the decisions of the app:

- `session_core`: the session state machine, the audio queues between the
  capture pipeline and the service (pending, in flight, acknowledged), the
  pause/resume/stop transitions and what is persisted at each.
- `audio_egress`, `audio_combine`, `audio_pipeline`: chunking 16 kHz PCM16
  audio for the socket, silence detection, mixing microphone and system
  audio, pairing their frames.
- `soniox_runtime`, `transcript_buffer`, `ws_protocol`: turning service
  updates into transcript segments (late translations included), the
  bounded transcript, and the meaning of each socket frame.
- `storage_model`: manifests and part files of a session, rotation,
  sealing and crash recovery.
- `secret_codec`, `secret_store`: the encrypted local secrets.
- `capabilities`, `capture_plan`, `device_settings`, `device_identity`,
  `system_devices`: devices, their ids, which sources to open and in which
  order, and the messages shown when capture falls back.
- `text`, `numeric`, `types`, `clock`: shared pieces.

Outside crates are reached only through a few trusted wrappers (base64,
AES-GCM, UTF-8 decoding, randomness, the clock, UUIDs), each stating what
it is trusted to do.

`app/` is the Tauri application around the library: commands, files,
sockets, audio devices and resampling (floating point), written as
ordinary Rust.

`tests/` exercises the library on concrete values.
