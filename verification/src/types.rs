//! Plain data shared by the modules: audio sources, transcript segments,
//! session state, settings sections and device descriptions.
//!
//! Points in time are nanoseconds since the Unix epoch (`i128`).
use vstd::prelude::*;

verus! {

// ── Transcript Segment ──────────────────────────────────────────────────────
/// One transcript segment; `created_at` is in nanoseconds since the epoch.
#[derive(Debug, Clone)]
pub struct TranscriptSegment {
    pub id: String,
    pub start_ms: u64,
    pub end_ms: u64,
    pub speaker: Option<String>,
    pub original_text: String,
    pub translated_text: String,
    pub is_final: bool,
    pub created_at: i128,
}

pub fn clone_opt_string(s: &Option<String>) -> (r: Option<String>)
    ensures
        r == *s,
{
    match s {
        Some(v) => Some(v.clone()),
        None => None,
    }
}

impl TranscriptSegment {
    /// A fresh, non-final segment with no translation and no speaker,
    /// created now, with the id `seg_` and a new UUID in simple form.
    pub fn new(start_ms: u64, end_ms: u64, original_text: String) -> (seg: Self)
        ensures
            seg.id@.len() == 36,
            seg.id@.take(4) == seq!['s', 'e', 'g', '_'],
            forall|i: int| 4 <= i < 36 ==> crate::clock::is_lower_hex(#[trigger] seg.id@[i]),
            seg.start_ms == start_ms,
            seg.end_ms == end_ms,
            seg.speaker is None,
            seg.original_text == original_text,
            seg.translated_text@.len() == 0,
            !seg.is_final,
    {
        let suffix = crate::clock::new_uuid_simple();
        let created_at = crate::clock::utc_now_nanos();
        let seg = TranscriptSegment::with_identity(suffix.as_str(), created_at, start_ms, end_ms, original_text);
        assert(seg.id@.take(4) =~= seq!['s', 'e', 'g', '_']);
        assert forall|i: int| 4 <= i < 36 implies crate::clock::is_lower_hex(#[trigger] seg.id@[i]) by {
            assert(seg.id@[i] == suffix@[i - 4]);
        }
        seg
    }

    /// A non-final segment with no translation and no speaker, with the id
    /// `seg_` followed by `unique_suffix`, created at `created_at`.
    pub fn with_identity(
        unique_suffix: &str,
        created_at: i128,
        start_ms: u64,
        end_ms: u64,
        original_text: String,
    ) -> (seg: Self)
        ensures
            seg.id@ == seq!['s', 'e', 'g', '_'] + unique_suffix@,
            seg.start_ms == start_ms,
            seg.end_ms == end_ms,
            seg.speaker is None,
            seg.original_text == original_text,
            seg.translated_text@.len() == 0,
            !seg.is_final,
            seg.created_at == created_at,
    {
        let mut id = String::new();
        crate::text::push_char(&mut id, 's');
        crate::text::push_char(&mut id, 'e');
        crate::text::push_char(&mut id, 'g');
        crate::text::push_char(&mut id, '_');
        id.append(unique_suffix);
        TranscriptSegment {
            id,
            start_ms,
            end_ms,
            speaker: None,
            original_text,
            translated_text: String::new(),
            is_final: false,
            created_at,
        }
    }

    /// A field-by-field copy.
    pub fn duplicate(&self) -> (r: Self)
        ensures
            r == *self,
    {
        TranscriptSegment {
            id: self.id.clone(),
            start_ms: self.start_ms,
            end_ms: self.end_ms,
            speaker: clone_opt_string(&self.speaker),
            original_text: self.original_text.clone(),
            translated_text: self.translated_text.clone(),
            is_final: self.is_final,
            created_at: self.created_at,
        }
    }
}

// ── Audio Metadata / Runtime State ─────────────────────────────────────────
#[derive(Debug, Clone, Copy, PartialEq, Eq, Hash, Structural)]
pub enum AudioSource {
    Mic,
    System,
    Mixed,
}

#[derive(Debug, Clone, Copy, PartialEq, Eq, Structural)]
pub enum PhysicalAudioSource {
    Microphone,
    SystemOutput,
}

#[derive(Debug, Clone, Copy, PartialEq, Eq, Structural)]
pub enum AudioBackendKind {
    Cpal,
    WindowsSystem,
    MacosSystem,
    LinuxSystem,
}

#[derive(Debug, Clone, Copy, PartialEq, Eq, Structural)]
pub struct SourceActivity {
    pub mic_active: bool,
    pub system_active: bool,
}

impl SourceActivity {
    /// The activity of a frame from `source`: the flag of that source is
    /// `active`, a mixed frame sets both, the other source's flag is false.
    pub fn from_source(source: AudioSource, active: bool) -> (r: Self)
        ensures
            r.mic_active == (active && (source == AudioSource::Mic || source == AudioSource::Mixed)),
            r.system_active == (active && (source == AudioSource::System || source
                == AudioSource::Mixed)),
    {
        match source {
            AudioSource::Mic => Self { mic_active: active, system_active: false },
            AudioSource::System => Self { mic_active: false, system_active: active },
            AudioSource::Mixed => Self { mic_active: active, system_active: active },
        }
    }
}

/// A chunk of 16 kHz mono PCM16 audio queued for the transcription service.
#[derive(Debug, Clone)]
pub struct AudioChunk {
    pub sequence: u64,
    pub captured_at: i128,
    pub duration_ms: u32,
    pub source: AudioSource,
    pub session_generation: u32,
    pub pcm_bytes: Vec<u8>,
}

impl AudioChunk {
    pub fn duplicate(&self) -> (r: Self)
        ensures
            r.sequence == self.sequence,
            r.captured_at == self.captured_at,
            r.duration_ms == self.duration_ms,
            r.source == self.source,
            r.session_generation == self.session_generation,
            r.pcm_bytes@ == self.pcm_bytes@,
    {
        AudioChunk {
            sequence: self.sequence,
            captured_at: self.captured_at,
            duration_ms: self.duration_ms,
            source: self.source,
            session_generation: self.session_generation,
            pcm_bytes: self.pcm_bytes.clone(),
        }
    }
}

/// A resampled 16 kHz mono PCM16 frame from one source (or mixed).
#[derive(Debug, Clone)]
pub struct ResampledAudioFrame {
    pub captured_at: i128,
    pub duration_ms: u32,
    pub source: AudioSource,
    pub pcm_bytes: Vec<u8>,
    pub activity: SourceActivity,
}

/// The same shape as `ResampledAudioFrame`, used while pairing sources.
#[derive(Debug, Clone)]
pub struct NormalizedAudioFrame {
    pub captured_at: i128,
    pub duration_ms: u32,
    pub source: AudioSource,
    pub pcm_bytes: Vec<u8>,
    pub activity: SourceActivity,
}

// ── Session State ───────────────────────────────────────────────────────────
#[derive(Debug, Clone)]
pub enum SessionState {
    Idle,
    Connecting,
    Buffering { session_id: String, started_at: i128, backlog_ms: u32, session_generation: u32 },
    Recording { session_id: String, started_at: i128 },
    Paused { session_id: String, started_at: i128 },
    Reconnecting { session_id: String, started_at: i128, backlog_ms: u32, session_generation: u32 },
    Draining { session_id: String, started_at: i128, backlog_ms: u32 },
    Error { message: String, recoverable: bool },
}

impl Default for SessionState {
    fn default() -> (r: Self)
        ensures
            r is Idle,
    {
        SessionState::Idle
    }
}

impl SessionState {
    pub fn duplicate(&self) -> (r: Self)
        ensures
            r == *self,
    {
        match self {
            SessionState::Idle => SessionState::Idle,
            SessionState::Connecting => SessionState::Connecting,
            SessionState::Buffering { session_id, started_at, backlog_ms, session_generation } =>
                SessionState::Buffering {
                session_id: session_id.clone(),
                started_at: *started_at,
                backlog_ms: *backlog_ms,
                session_generation: *session_generation,
            },
            SessionState::Recording { session_id, started_at } => SessionState::Recording {
                session_id: session_id.clone(),
                started_at: *started_at,
            },
            SessionState::Paused { session_id, started_at } => SessionState::Paused {
                session_id: session_id.clone(),
                started_at: *started_at,
            },
            SessionState::Reconnecting {
                session_id,
                started_at,
                backlog_ms,
                session_generation,
            } => SessionState::Reconnecting {
                session_id: session_id.clone(),
                started_at: *started_at,
                backlog_ms: *backlog_ms,
                session_generation: *session_generation,
            },
            SessionState::Draining { session_id, started_at, backlog_ms } =>
                SessionState::Draining {
                session_id: session_id.clone(),
                started_at: *started_at,
                backlog_ms: *backlog_ms,
            },
            SessionState::Error { message, recoverable } => SessionState::Error {
                message: message.clone(),
                recoverable: *recoverable,
            },
        }
    }
}

// ── App Settings sections ───────────────────────────────────────────────────
#[derive(Debug, Clone)]
pub struct GeneralSettings {
    pub language: String,
    pub theme: String,
}

#[derive(Debug, Clone, Copy, PartialEq, Eq, Structural)]
pub enum AudioCaptureMode {
    Mic,
    System,
    Mixed,
}

#[derive(Debug, Clone)]
pub struct ProviderSettings {
    pub name: String,
    pub source_language: String,
    pub translation_enabled: bool,
    pub translation_target_language: String,
}

#[derive(Debug, Clone, Copy)]
pub struct SessionSettings {
    pub auto_save: bool,
    pub flush_interval_segments: u32,
    pub max_segments_in_memory: u32,
    pub archive_after_days: u32,
    pub max_total_sessions_mb: u32,
}

// ── Audio Device Info ───────────────────────────────────────────────────────
#[derive(Debug, Clone)]
pub struct AudioDevice {
    pub name: String,
    pub is_default: bool,
}

#[derive(Debug, Clone)]
pub struct AudioSourceDevice {
    pub id: String,
    pub label: String,
    pub source: PhysicalAudioSource,
    pub backend: AudioBackendKind,
    pub is_default: bool,
    pub usable: bool,
}

#[derive(Debug, Clone)]
pub struct AudioCapabilityReason {
    pub code: String,
    pub detail: Option<String>,
}

#[derive(Debug, Clone)]
pub struct AudioSourceCapability {
    pub source: PhysicalAudioSource,
    pub backend: AudioBackendKind,
    pub supported: bool,
    pub usable: bool,
    pub reason: Option<AudioCapabilityReason>,
    pub devices: Vec<AudioSourceDevice>,
}

#[derive(Debug, Clone)]
pub struct AudioRuntimeCapabilities {
    pub microphone: AudioSourceCapability,
    pub system_output: AudioSourceCapability,
    pub mixed_supported: bool,
    pub mixed_reason: Option<AudioCapabilityReason>,
}

// ── Session Summary / Manifest ──────────────────────────────────────────────
#[derive(Debug, Clone)]
pub struct SessionSummary {
    pub session_id: String,
    pub file_path: String,
    pub started_at: Option<i128>,
    pub segment_count: u32,
    pub is_complete: bool,
}

#[derive(Debug, Clone, Copy, PartialEq, Eq, Structural)]
pub enum SessionStatus {
    Active,
    Completed,
    Recovered,
    Error,
}

#[derive(Debug, Clone)]
pub struct SessionManifest {
    pub session_id: String,
    pub status: SessionStatus,
    pub started_at: i128,
    pub provider: String,
    pub source_language: String,
    pub target_language: String,
    pub parts: Vec<SessionPartMeta>,
}

#[derive(Debug, Clone)]
pub struct SessionPartMeta {
    pub file: String,
    pub status: SessionStatus,
    pub segments: u32,
}

// ── Default values ──────────────────────────────────────────────────────────
pub fn default_language() -> (s: String)
    ensures
        s@ == seq!['e', 'n'],
{
    let s = String::from_str("en");
    proof {
        reveal_strlit("en");
    }
    s
}

pub fn default_theme() -> (s: String)
    ensures
        s@ == seq!['l', 'i', 'g', 'h', 't'],
{
    let s = String::from_str("light");
    proof {
        reveal_strlit("light");
    }
    s
}

pub fn default_capture_mode() -> (m: AudioCaptureMode)
    ensures
        m == AudioCaptureMode::Mixed,
{
    AudioCaptureMode::Mixed
}

pub fn default_input_device() -> (s: String)
    ensures
        s@ == seq!['d', 'e', 'f', 'a', 'u', 'l', 't'],
{
    let s = String::from_str("default");
    proof {
        reveal_strlit("default");
    }
    s
}

pub fn default_sample_rate() -> (r: u32)
    ensures
        r == 16000,
{
    16000
}

pub fn default_chunk_duration_ms() -> (r: u32)
    ensures
        r == 100,
{
    100
}

pub fn default_mic_silence_threshold() -> (r: i16)
    ensures
        r == 800,
{
    800
}

pub fn default_system_silence_threshold() -> (r: i16)
    ensures
        r == 800,
{
    800
}

pub fn default_provider_name() -> (s: String)
    ensures
        s@ == seq!['s', 'o', 'n', 'i', 'o', 'x'],
{
    let s = String::from_str("soniox");
    proof {
        reveal_strlit("soniox");
    }
    s
}

pub fn default_source_language() -> (s: String)
    ensures
        s@ == seq!['a', 'u', 't', 'o'],
{
    let s = String::from_str("auto");
    proof {
        reveal_strlit("auto");
    }
    s
}

pub fn default_target_language() -> (s: String)
    ensures
        s@ == seq!['e', 'n'],
{
    let s = String::from_str("en");
    proof {
        reveal_strlit("en");
    }
    s
}

pub fn default_true() -> (b: bool)
    ensures
        b,
{
    true
}

pub fn default_flush_interval() -> (r: u32)
    ensures
        r == 10,
{
    10
}

pub fn default_max_segments() -> (r: u32)
    ensures
        r == 500,
{
    500
}

pub fn default_archive_days() -> (r: u32)
    ensures
        r == 30,
{
    30
}

pub fn default_max_storage_mb() -> (r: u32)
    ensures
        r == 1000,
{
    1000
}

pub fn default_general() -> (g: GeneralSettings)
    ensures
        g.language@ == seq!['e', 'n'],
        g.theme@ == seq!['l', 'i', 'g', 'h', 't'],
{
    GeneralSettings { language: default_language(), theme: default_theme() }
}

pub fn default_provider() -> (p: ProviderSettings)
    ensures
        p.name@ == seq!['s', 'o', 'n', 'i', 'o', 'x'],
        p.source_language@ == seq!['a', 'u', 't', 'o'],
        p.translation_enabled,
        p.translation_target_language@ == seq!['e', 'n'],
{
    ProviderSettings {
        name: default_provider_name(),
        source_language: default_source_language(),
        translation_enabled: true,
        translation_target_language: default_target_language(),
    }
}

pub fn default_session() -> (s: SessionSettings)
    ensures
        s.auto_save,
        s.flush_interval_segments == 10,
        s.max_segments_in_memory == 500,
        s.archive_after_days == 30,
        s.max_total_sessions_mb == 1000,
{
    SessionSettings {
        auto_save: true,
        flush_interval_segments: default_flush_interval(),
        max_segments_in_memory: default_max_segments(),
        archive_after_days: default_archive_days(),
        max_total_sessions_mb: default_max_storage_mb(),
    }
}

} // verus!
