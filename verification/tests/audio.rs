use carry_talk::audio_combine::{
    combine_mixed_tick, frame_duration_ms, mix_pcm16_le, mixed_is_active, pcm_has_signal, silence_threshold_for,
};
use carry_talk::audio_egress::{AudioCollector, AudioEgressPolicy, FlushReason, SilenceConfig};
use carry_talk::audio_pipeline::{build_frame, MixPairing, SilenceThresholds};
use carry_talk::types::{AudioSource, NormalizedAudioFrame, ResampledAudioFrame, SourceActivity};

fn pcm(samples: &[i16]) -> Vec<u8> {
    samples.iter().flat_map(|s| s.to_le_bytes()).collect()
}

fn nframe(source: AudioSource, at: i128, dur: u32, samples: &[i16], active: bool) -> NormalizedAudioFrame {
    NormalizedAudioFrame {
        captured_at: at,
        duration_ms: dur,
        source,
        pcm_bytes: pcm(samples),
        activity: SourceActivity::from_source(source, active),
    }
}

fn rframe(source: AudioSource, at: i128, dur: u32, samples: &[i16], active: bool) -> ResampledAudioFrame {
    ResampledAudioFrame {
        captured_at: at,
        duration_ms: dur,
        source,
        pcm_bytes: pcm(samples),
        activity: SourceActivity::from_source(source, active),
    }
}

#[test]
fn mixing_averages_toward_zero_and_pads_with_silence() {
    let left = pcm(&[16, 32767, -3]);
    let right = pcm(&[32]);
    let out = mix_pcm16_le(Some(&left), Some(&right));
    assert_eq!(out, pcm(&[24, 16383, -1]));
    assert_eq!(mix_pcm16_le(None, None), Vec::<u8>::new());
    assert_eq!(mix_pcm16_le(Some(&[1, 0, 7]), None), pcm(&[0]));
    assert_eq!(mix_pcm16_le(Some(&pcm(&[-32768])), Some(&pcm(&[-32768]))), pcm(&[-32768]));
}

#[test]
fn mixing_is_symmetric_on_an_example() {
    let a = pcm(&[100, -200, 300]);
    let b = pcm(&[7, 9]);
    assert_eq!(mix_pcm16_le(Some(&a), Some(&b)), mix_pcm16_le(Some(&b), Some(&a)));
}

#[test]
fn signal_detection_uses_magnitude() {
    assert!(pcm_has_signal(&pcm(&[0, -900]), 800));
    assert!(!pcm_has_signal(&pcm(&[0, 799, -799]), 800));
    assert!(pcm_has_signal(&[0x00, 0x40, 0x01], 800));
    assert!(!pcm_has_signal(&[], 0));
}

#[test]
fn mixed_activity_and_thresholds() {
    let a = SourceActivity::from_source(AudioSource::Mixed, true);
    assert!(a.mic_active && a.system_active);
    let b = SourceActivity::from_source(AudioSource::System, true);
    assert!(!b.mic_active && b.system_active);
    assert!(mixed_is_active(&b));
    assert!(!mixed_is_active(&SourceActivity::from_source(AudioSource::Mic, false)));
    assert_eq!(silence_threshold_for(AudioSource::Mixed, 500, 300), 300);
    assert_eq!(silence_threshold_for(AudioSource::Mic, 500, 300), 500);
    assert_eq!(silence_threshold_for(AudioSource::System, 500, 300), 300);
}

#[test]
fn frame_durations_at_16khz() {
    assert_eq!(frame_duration_ms(16000), 1000);
    assert_eq!(frame_duration_ms(1600), 100);
    assert_eq!(frame_duration_ms(15), 0);
}

#[test]
fn combined_tick_takes_earliest_start_and_longest_duration() {
    let mic = nframe(AudioSource::Mic, 5, 20, &[100, 200], true);
    let sys = nframe(AudioSource::System, 3, 30, &[300], false);
    let c = combine_mixed_tick(Some(mic), Some(sys)).unwrap();
    assert_eq!(c.captured_at, 3);
    assert_eq!(c.duration_ms, 30);
    assert_eq!(c.source, AudioSource::Mixed);
    assert_eq!(c.pcm_bytes, pcm(&[200, 100]));
    assert!(c.activity.mic_active && !c.activity.system_active);
    assert!(combine_mixed_tick(None, None).is_none());
    let only = combine_mixed_tick(None, Some(nframe(AudioSource::System, 9, 10, &[4], true))).unwrap();
    assert_eq!((only.captured_at, only.duration_ms), (9, 10));
    assert!(only.activity.system_active && !only.activity.mic_active);
    assert_eq!(only.pcm_bytes, pcm(&[2]));
}

#[test]
fn built_frames_carry_duration_and_activity() {
    let t = SilenceThresholds { mic_silence_threshold: 800, system_silence_threshold: 100 };
    let f = build_frame(t, 42, AudioSource::System, pcm(&vec![150; 1600]));
    assert_eq!(f.duration_ms, 100);
    assert!(f.activity.system_active && !f.activity.mic_active);
    let g = build_frame(t, 42, AudioSource::Mic, pcm(&vec![150; 16]));
    assert_eq!(g.duration_ms, 1);
    assert!(!g.activity.mic_active);
}

#[test]
fn pairing_combines_oldest_counterparts() {
    let mut p = MixPairing::new();
    assert_eq!(p.emit_frame(rframe(AudioSource::Mic, 1, 20, &[10], true), true).len(), 0);
    assert_eq!(p.emit_frame(rframe(AudioSource::Mic, 2, 20, &[20], true), true).len(), 0);
    let out = p.emit_frame(rframe(AudioSource::System, 3, 20, &[30], true), true);
    assert_eq!(out.len(), 1);
    assert_eq!(out[0].source, AudioSource::Mixed);
    assert_eq!(out[0].pcm_bytes, pcm(&[20]));
    assert_eq!(out[0].captured_at, 1);
    let rest = p.drain(true);
    assert_eq!(rest.len(), 1);
    assert_eq!(rest[0].source, AudioSource::Mic);
    assert_eq!(rest[0].captured_at, 2);
    let passthrough = p.emit_frame(rframe(AudioSource::Mic, 7, 20, &[1], true), false);
    assert_eq!(passthrough.len(), 1);
    assert_eq!(passthrough[0].source, AudioSource::Mic);
}

#[test]
fn egress_policy_from_chunk_duration() {
    let p = AudioEgressPolicy::from_chunk_duration_ms(10);
    assert_eq!((p.target_chunk_ms, p.max_chunk_bytes, p.silence_flush_ms, p.max_inflight_ms), (60, 1920, 250, 800));
    let p = AudioEgressPolicy::from_chunk_duration_ms(500);
    assert_eq!((p.target_chunk_ms, p.max_chunk_bytes, p.silence_flush_ms, p.max_inflight_ms), (400, 12800, 400, 3200));
    let p = AudioEgressPolicy::from_chunk_duration_ms(100);
    assert_eq!((p.target_chunk_ms, p.max_chunk_bytes, p.silence_flush_ms, p.max_inflight_ms), (100, 3200, 250, 800));
    let i = AudioEgressPolicy::initial();
    assert_eq!((i.target_chunk_ms, i.max_chunk_bytes, i.silence_flush_ms, i.max_inflight_ms), (100, 3200, 250, 800));
}

#[test]
fn flush_reasons_have_names() {
    assert_eq!(FlushReason::TargetDuration.as_str(), "target_duration");
    assert_eq!(FlushReason::MaxBytes.as_str(), "max_bytes");
    assert_eq!(FlushReason::Silence.as_str(), "silence");
    assert_eq!(FlushReason::Tail.as_str(), "tail");
}

#[test]
fn collector_flushes_at_target_duration() {
    let mut c = AudioCollector::new();
    assert!(c.push(rframe(AudioSource::Mic, 10, 60, &[1000; 960], true)).is_none());
    assert_eq!(c.buffered_duration_ms(), 60);
    let seed = c.push(rframe(AudioSource::Mic, 70, 60, &[2000; 960], true)).unwrap();
    assert_eq!(seed.flush_reason, FlushReason::TargetDuration);
    assert_eq!(seed.duration_ms, 120);
    assert_eq!(seed.captured_at, 10);
    assert_eq!(seed.pcm_bytes.len(), 3840);
    assert_eq!(&seed.pcm_bytes[0..2], &1000i16.to_le_bytes());
    assert_eq!(&seed.pcm_bytes[1920..1922], &2000i16.to_le_bytes());
    assert_eq!(c.buffered_duration_ms(), 0);
    assert!(c.flush_tail().is_none());
}

#[test]
fn collector_ignores_empty_frames_and_flushes_by_bytes_and_silence() {
    let mut c = AudioCollector::new();
    assert!(c.push(rframe(AudioSource::Mic, 1, 0, &[5; 10], true)).is_none());
    assert!(c.push(rframe(AudioSource::Mic, 1, 20, &[], true)).is_none());
    assert_eq!(c.buffered_duration_ms(), 0);
    c.configure(
        SilenceConfig { mic_threshold: 800, system_threshold: 800 },
        AudioEgressPolicy { target_chunk_ms: 1000, max_chunk_bytes: 1000, silence_flush_ms: 900, max_inflight_ms: 800 },
    );
    assert!(c.push(rframe(AudioSource::Mic, 1, 20, &[5000; 320], true)).is_none());
    let s = c.push(rframe(AudioSource::Mic, 2, 20, &[5000; 320], true)).unwrap();
    assert_eq!(s.flush_reason, FlushReason::MaxBytes);
    c.configure(
        SilenceConfig { mic_threshold: 800, system_threshold: 800 },
        AudioEgressPolicy { target_chunk_ms: 1000, max_chunk_bytes: 100000, silence_flush_ms: 40, max_inflight_ms: 800 },
    );
    assert!(c.push(rframe(AudioSource::Mic, 3, 20, &[10; 320], false)).is_none());
    let s = c.push(rframe(AudioSource::Mic, 4, 20, &[10; 320], false)).unwrap();
    assert_eq!(s.flush_reason, FlushReason::Silence);
    assert_eq!(s.duration_ms, 40);
    assert_eq!(c.max_inflight_ms(), 800);
}

#[test]
fn collector_tail_flush_takes_everything_left() {
    let mut c = AudioCollector::new();
    assert!(c.push(rframe(AudioSource::System, 8, 30, &[9; 480], true)).is_none());
    let t = c.flush_tail().unwrap();
    assert_eq!(t.flush_reason, FlushReason::Tail);
    assert_eq!(t.duration_ms, 30);
    assert_eq!(t.source, AudioSource::System);
    c.push(rframe(AudioSource::System, 8, 30, &[9; 480], true));
    c.clear();
    assert_eq!(c.buffered_duration_ms(), 0);
    assert!(c.flush_tail().is_none());
}

#[test]
fn collector_loses_no_audio() {
    let mut c = AudioCollector::new();
    let mut pushed: Vec<u8> = Vec::new();
    let mut emitted: Vec<u8> = Vec::new();
    for k in 0..17i16 {
        let samples: Vec<i16> = (0..(160 * (k as usize % 4 + 1))).map(|i| (i as i16).wrapping_mul(k + 1)).collect();
        let frame = rframe(AudioSource::Mic, k as i128, 10 * (k as u32 % 4 + 1), &samples, k % 3 == 0);
        pushed.extend_from_slice(&frame.pcm_bytes);
        if let Some(seed) = c.push(frame) {
            emitted.extend_from_slice(&seed.pcm_bytes);
        }
    }
    c.push(rframe(AudioSource::Mic, 99, 0, &[7; 16], true));
    if let Some(seed) = c.flush_tail() {
        emitted.extend_from_slice(&seed.pcm_bytes);
    }
    assert_eq!(emitted, pushed);
}
