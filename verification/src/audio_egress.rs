//! Collecting resampled frames into chunks for the transcription service:
//! the egress policy derived from the configured chunk duration, silence
//! detection, and the flush rules.
use vstd::prelude::*;
use crate::audio_combine::{sample, sample_count, wrapping_abs, decode_i16, FrameView};
use crate::audio_pipeline::frame_views_r;
use crate::types::{AudioSource, ResampledAudioFrame};

verus! {

/// Per-source silence thresholds.
#[derive(Debug, Clone, Copy)]
pub struct SilenceConfig {
    pub mic_threshold: i16,
    pub system_threshold: i16,
}

impl Default for SilenceConfig {
    fn default() -> (r: Self)
        ensures
            r.mic_threshold == 800,
            r.system_threshold == 800,
    {
        SilenceConfig { mic_threshold: 800, system_threshold: 800 }
    }
}

/// When a chunk is sent, and how much audio may be in flight.
#[derive(Debug, Clone, Copy)]
pub struct AudioEgressPolicy {
    pub target_chunk_ms: u32,
    pub max_chunk_bytes: usize,
    pub silence_flush_ms: u32,
    pub max_inflight_ms: u32,
}

/// The policy for a configured chunk duration: the duration clamped to
/// 60..=400 ms, the bytes of that much 16 kHz PCM16 audio, a silence flush
/// after at least 250 ms, and at most eight chunks (at least 800 ms) in
/// flight.
pub open spec fn policy_for(chunk_duration_ms: u32) -> AudioEgressPolicy {
    let t: u32 = if chunk_duration_ms < 60 {
        60
    } else if chunk_duration_ms > 400 {
        400
    } else {
        chunk_duration_ms
    };
    AudioEgressPolicy {
        target_chunk_ms: t,
        max_chunk_bytes: ((t * 16000) / 1000 * 2) as usize,
        silence_flush_ms: if t > 250 {
            t
        } else {
            250
        },
        max_inflight_ms: if t * 8 > 800 {
            (t * 8) as u32
        } else {
            800
        },
    }
}

impl AudioEgressPolicy {
    pub fn from_chunk_duration_ms(chunk_duration_ms: u32) -> (p: Self)
        ensures
            p == policy_for(chunk_duration_ms),
    {
        let target_chunk_ms = if chunk_duration_ms < 60 {
            60
        } else if chunk_duration_ms > 400 {
            400
        } else {
            chunk_duration_ms
        };
        let max_chunk_bytes = ((target_chunk_ms as usize * 16000) / 1000) * 2;
        let inflight = target_chunk_ms * 8;
        AudioEgressPolicy {
            target_chunk_ms,
            max_chunk_bytes,
            silence_flush_ms: if target_chunk_ms > 250 {
                target_chunk_ms
            } else {
                250
            },
            max_inflight_ms: if inflight > 800 {
                inflight
            } else {
                800
            },
        }
    }

    /// The policy used before a pipeline configures one (100 ms chunks).
    pub fn initial() -> (p: Self)
        ensures
            p.target_chunk_ms == 100,
            p.max_chunk_bytes == 3200,
            p.silence_flush_ms == 250,
            p.max_inflight_ms == 800,
    {
        AudioEgressPolicy {
            target_chunk_ms: 100,
            max_chunk_bytes: 3200,
            silence_flush_ms: 250,
            max_inflight_ms: 800,
        }
    }
}

#[derive(Debug, Clone, Copy, PartialEq, Eq, Structural)]
pub enum FlushReason {
    TargetDuration,
    MaxBytes,
    Silence,
    Tail,
}

impl FlushReason {
    pub fn as_str(self) -> (r: &'static str)
        ensures
            r@ == (match self {
                FlushReason::TargetDuration => "target_duration"@,
                FlushReason::MaxBytes => "max_bytes"@,
                FlushReason::Silence => "silence"@,
                FlushReason::Tail => "tail"@,
            }),
    {
        match self {
            FlushReason::TargetDuration => "target_duration",
            FlushReason::MaxBytes => "max_bytes",
            FlushReason::Silence => "silence",
            FlushReason::Tail => "tail",
        }
    }
}

/// Everything an audio chunk needs but its sequence number and generation.
#[derive(Debug)]
pub struct PendingChunkSeed {
    pub captured_at: i128,
    pub duration_ms: u32,
    pub source: AudioSource,
    pub pcm_bytes: Vec<u8>,
    pub flush_reason: FlushReason,
}

/// The bytes of the frames, one after the other.
pub open spec fn concat_pcm(frames: Seq<FrameView>) -> Seq<u8>
    decreases frames.len(),
{
    if frames.len() == 0 {
        seq![]
    } else {
        concat_pcm(frames.drop_last()) + frames.last().pcm
    }
}

/// A frame is silent when it holds less than one sample, when (mixed) none
/// of its sources was active, or when no sample is both positive in
/// magnitude and at least the source's threshold.
pub open spec fn frame_is_silent(f: FrameView, config: SilenceConfig) -> bool {
    if f.pcm.len() < 2 {
        true
    } else if f.source == AudioSource::Mixed {
        !(f.activity.mic_active || f.activity.system_active)
    } else {
        let threshold = if f.source == AudioSource::Mic {
            config.mic_threshold
        } else {
            config.system_threshold
        };
        !exists|k: int|
            0 <= k < sample_count(f.pcm) && wrapping_abs(#[trigger] sample(f.pcm, k)) > 0
                && wrapping_abs(sample(f.pcm, k)) >= threshold
    }
}

pub open spec fn sat_add_u32(a: u32, b: u32) -> u32 {
    if a + b > u32::MAX {
        u32::MAX
    } else {
        (a + b) as u32
    }
}

pub open spec fn sat_add_usize(a: usize, b: nat) -> usize {
    if a + b > usize::MAX {
        usize::MAX
    } else {
        (a + b) as usize
    }
}

/// Frames buffered toward the next chunk.
#[derive(Debug)]
pub struct AudioCollector {
    frames: Vec<ResampledAudioFrame>,
    buffered_duration_ms: u32,
    buffered_bytes: usize,
    trailing_silence_ms: u32,
    silence_config: SilenceConfig,
    policy: AudioEgressPolicy,
}

pub struct SeedView {
    pub captured_at: i128,
    pub duration_ms: u32,
    pub source: AudioSource,
    pub pcm: Seq<u8>,
    pub flush_reason: FlushReason,
}

impl View for PendingChunkSeed {
    type V = SeedView;

    open spec fn view(&self) -> SeedView {
        SeedView {
            captured_at: self.captured_at,
            duration_ms: self.duration_ms,
            source: self.source,
            pcm: self.pcm_bytes@,
            flush_reason: self.flush_reason,
        }
    }
}

pub open spec fn seed_opt(s: Option<PendingChunkSeed>) -> Option<SeedView> {
    match s {
        Some(x) => Some(x@),
        None => None,
    }
}

/// The chunk made of all buffered frames: it starts where the first frame
/// starts, is tagged with its source, and lasts the buffered duration.
pub open spec fn flushed(frames: Seq<FrameView>, duration: u32, reason: FlushReason) -> Option<SeedView> {
    if frames.len() == 0 {
        None
    } else {
        Some(
            SeedView {
                captured_at: frames[0].captured_at,
                duration_ms: duration,
                source: frames[0].source,
                pcm: concat_pcm(frames),
                flush_reason: reason,
            },
        )
    }
}

/// The buffered frames, duration, bytes and trailing silence.
pub open spec fn collector_state(c: AudioCollector) -> (Seq<FrameView>, u32, usize, u32) {
    (c.frames_view(), c.buffered_ms(), c.buffered_byte_count(), c.trailing_silence())
}

/// A frame that a push ignores: empty, or of zero duration.
pub open spec fn ignored_frame(f: FrameView) -> bool {
    f.pcm.len() == 0 || f.duration_ms == 0
}

/// The buffered duration, bytes and trailing silence once `f` is added.
pub open spec fn added(c: AudioCollector, f: FrameView) -> (u32, usize, u32) {
    (
        sat_add_u32(c.buffered_ms(), f.duration_ms),
        sat_add_usize(c.buffered_byte_count(), f.pcm.len()),
        if frame_is_silent(f, c.config()) {
            sat_add_u32(c.trailing_silence(), f.duration_ms)
        } else {
            0
        },
    )
}

/// Why adding `f` flushes, checked in order: the target duration is
/// reached, the byte limit is reached, the silence limit is reached.
pub open spec fn push_reason(c: AudioCollector, f: FrameView) -> Option<FlushReason> {
    let (dur, bytes, silence) = added(c, f);
    let p = c.egress_policy();
    if dur >= p.target_chunk_ms {
        Some(FlushReason::TargetDuration)
    } else if bytes >= p.max_chunk_bytes {
        Some(FlushReason::MaxBytes)
    } else if silence >= p.silence_flush_ms {
        Some(FlushReason::Silence)
    } else {
        None
    }
}

/// The chunk that adding `f` gives, if any.
pub open spec fn push_result(c: AudioCollector, f: FrameView) -> Option<SeedView> {
    if ignored_frame(f) {
        None
    } else {
        match push_reason(c, f) {
            Some(reason) => flushed(c.frames_view().push(f), added(c, f).0, reason),
            None => None,
        }
    }
}

/// The collector's buffer once `f` is added.
pub open spec fn pushed_state(c: AudioCollector, f: FrameView) -> (Seq<FrameView>, u32, usize, u32) {
    if ignored_frame(f) {
        collector_state(c)
    } else if push_reason(c, f) is Some {
        (Seq::empty(), 0, 0, 0)
    } else {
        let (dur, bytes, silence) = added(c, f);
        (c.frames_view().push(f), dur, bytes, silence)
    }
}

impl AudioCollector {
    pub closed spec fn frames_view(&self) -> Seq<FrameView> {
        frame_views_r(self.frames@)
    }

    pub closed spec fn buffered_ms(&self) -> u32 {
        self.buffered_duration_ms
    }

    pub closed spec fn buffered_byte_count(&self) -> usize {
        self.buffered_bytes
    }

    pub closed spec fn trailing_silence(&self) -> u32 {
        self.trailing_silence_ms
    }

    pub closed spec fn config(&self) -> SilenceConfig {
        self.silence_config
    }

    pub closed spec fn egress_policy(&self) -> AudioEgressPolicy {
        self.policy
    }

    pub fn new() -> (c: Self)
        ensures
            c.frames_view().len() == 0,
            c.buffered_ms() == 0,
            c.buffered_byte_count() == 0,
            c.trailing_silence() == 0,
            c.config().mic_threshold == 800,
            c.config().system_threshold == 800,
            c.egress_policy().target_chunk_ms == 100,
            c.egress_policy().max_chunk_bytes == 3200,
            c.egress_policy().silence_flush_ms == 250,
            c.egress_policy().max_inflight_ms == 800,
    {
        AudioCollector {
            frames: Vec::new(),
            buffered_duration_ms: 0,
            buffered_bytes: 0,
            trailing_silence_ms: 0,
            silence_config: SilenceConfig::default(),
            policy: AudioEgressPolicy::initial(),
        }
    }

    pub fn configure(&mut self, silence_config: SilenceConfig, policy: AudioEgressPolicy)
        ensures
            final(self).config() == silence_config,
            final(self).egress_policy() == policy,
            final(self).frames_view() == old(self).frames_view(),
            final(self).buffered_ms() == old(self).buffered_ms(),
            final(self).buffered_byte_count() == old(self).buffered_byte_count(),
            final(self).trailing_silence() == old(self).trailing_silence(),
    {
        self.silence_config = silence_config;
        self.policy = policy;
    }

    fn is_silent(&self, frame: &ResampledAudioFrame) -> (r: bool)
        ensures
            r == frame_is_silent(frame@, self.silence_config),
    {
        let len = frame.pcm_bytes.len();
        if len < 2 {
            return true;
        }
        if frame.source == AudioSource::Mixed {
            return !(frame.activity.mic_active || frame.activity.system_active);
        }
        let threshold: i16 = if frame.source == AudioSource::Mic {
            self.silence_config.mic_threshold
        } else {
            self.silence_config.system_threshold
        };
        let n = len / 2;
        let mut k: usize = 0;
        while k < n
            invariant
                len == frame.pcm_bytes@.len(),
                len >= 2,
                frame.source != AudioSource::Mixed,
                threshold == (if frame.source == AudioSource::Mic {
                    self.silence_config.mic_threshold
                } else {
                    self.silence_config.system_threshold
                }),
                n == sample_count(frame.pcm_bytes@),
                k <= n,
                forall|j: int|
                    0 <= j < k ==> !(wrapping_abs(#[trigger] sample(frame.pcm_bytes@, j)) > 0
                        && wrapping_abs(sample(frame.pcm_bytes@, j)) >= threshold),
            decreases n - k,
        {
            let v = decode_i16(frame.pcm_bytes[2 * k], frame.pcm_bytes[2 * k + 1]);
            let mag: i32 = if v == -32768 {
                -32768
            } else if v < 0 {
                -(v as i32)
            } else {
                v as i32
            };
            assert(v as int == sample(frame.pcm_bytes@, k as int));
            assert(mag as int == wrapping_abs(v as int));
            if mag > 0 && mag >= threshold as i32 {
                assert(0 <= k < sample_count(frame.pcm_bytes@) && wrapping_abs(sample(frame.pcm_bytes@, k as int)) > 0
                    && wrapping_abs(sample(frame.pcm_bytes@, k as int)) >= threshold);
                return false;
            }
            k += 1;
        }
        true
    }

    /// Adds a frame (an empty one or one of zero duration is ignored) and
    /// gives a chunk of everything buffered once the buffered duration
    /// reaches the target, or the buffered bytes reach the limit, or the
    /// trailing silence reaches the silence limit (checked in this order).
    pub fn push(&mut self, frame: ResampledAudioFrame) -> (r: Option<PendingChunkSeed>)
        ensures
            seed_opt(r) == push_result(*old(self), frame@),
            collector_state(*final(self)) == pushed_state(*old(self), frame@),
            final(self).config() == old(self).config(),
            final(self).egress_policy() == old(self).egress_policy(),
    {
        if frame.pcm_bytes.len() == 0 || frame.duration_ms == 0 {
            return None;
        }
        if self.is_silent(&frame) {
            self.trailing_silence_ms = self.trailing_silence_ms.saturating_add(frame.duration_ms);
        } else {
            self.trailing_silence_ms = 0;
        }
        self.buffered_duration_ms = self.buffered_duration_ms.saturating_add(frame.duration_ms);
        self.buffered_bytes = self.buffered_bytes.saturating_add(frame.pcm_bytes.len());
        let ghost f0 = self.frames_view();
        let ghost fv = frame@;
        self.frames.push(frame);
        proof {
            assert(frame_views_r(self.frames@) =~= f0.push(fv));
        }
        if self.buffered_duration_ms >= self.policy.target_chunk_ms {
            self.flush(FlushReason::TargetDuration)
        } else if self.buffered_bytes >= self.policy.max_chunk_bytes {
            self.flush(FlushReason::MaxBytes)
        } else if self.trailing_silence_ms >= self.policy.silence_flush_ms {
            self.flush(FlushReason::Silence)
        } else {
            None
        }
    }

    /// The chunk of whatever is still buffered, at the end of the stream.
    pub fn flush_tail(&mut self) -> (r: Option<PendingChunkSeed>)
        ensures
            seed_opt(r) == flushed(old(self).frames_view(), old(self).buffered_ms(), FlushReason::Tail),
            old(self).frames_view().len() > 0 ==> final(self).frames_view().len() == 0
                && final(self).buffered_ms() == 0 && final(self).buffered_byte_count() == 0
                && final(self).trailing_silence() == 0,
            old(self).frames_view().len() == 0 ==> final(self).frames_view() == old(self).frames_view()
                && final(self).buffered_ms() == old(self).buffered_ms() && final(self).buffered_byte_count()
                == old(self).buffered_byte_count() && final(self).trailing_silence() == old(self).trailing_silence(),
            final(self).config() == old(self).config(),
            final(self).egress_policy() == old(self).egress_policy(),
    {
        self.flush(FlushReason::Tail)
    }

    fn flush(&mut self, flush_reason: FlushReason) -> (r: Option<PendingChunkSeed>)
        ensures
            seed_opt(r) == flushed(old(self).frames_view(), old(self).buffered_ms(), flush_reason),
            old(self).frames_view().len() > 0 ==> final(self).frames_view().len() == 0
                && final(self).buffered_ms() == 0 && final(self).buffered_byte_count() == 0
                && final(self).trailing_silence() == 0,
            old(self).frames_view().len() == 0 ==> final(self).frames_view() == old(self).frames_view()
                && final(self).buffered_ms() == old(self).buffered_ms() && final(self).buffered_byte_count()
                == old(self).buffered_byte_count() && final(self).trailing_silence() == old(self).trailing_silence(),
            final(self).config() == old(self).config(),
            final(self).egress_policy() == old(self).egress_policy(),
    {
        if self.frames.len() == 0 {
            return None;
        }
        let captured_at = self.frames[0].captured_at;
        let source = self.frames[0].source;
        let duration_ms = self.buffered_duration_ms;
        let ghost fs = self.frames_view();
        let mut pcm_bytes: Vec<u8> = Vec::new();
        let n = self.frames.len();
        for i in 0..n
            invariant
                n == self.frames@.len(),
                fs == frame_views_r(self.frames@),
                pcm_bytes@ == concat_pcm(fs.take(i as int)),
        {
            let ghost p0 = pcm_bytes@;
            pcm_bytes.extend_from_slice(self.frames[i].pcm_bytes.as_slice());
            proof {
                assert(fs.take(i + 1).drop_last() =~= fs.take(i as int));
                assert(fs.take(i + 1).last() == fs[i as int]);
                assert(fs[i as int].pcm == self.frames@[i as int].pcm_bytes@);
            }
        }
        proof {
            assert(fs.take(n as int) =~= fs);
            assert(fs[0].captured_at == captured_at);
        }
        self.frames.clear();
        self.buffered_duration_ms = 0;
        self.buffered_bytes = 0;
        self.trailing_silence_ms = 0;
        assert(frame_views_r(self.frames@) =~= Seq::<FrameView>::empty());
        Some(PendingChunkSeed { captured_at, duration_ms, source, pcm_bytes, flush_reason })
    }

    pub fn clear(&mut self)
        ensures
            final(self).frames_view().len() == 0,
            final(self).buffered_ms() == 0,
            final(self).buffered_byte_count() == 0,
            final(self).trailing_silence() == 0,
            final(self).config() == old(self).config(),
            final(self).egress_policy() == old(self).egress_policy(),
    {
        self.frames.clear();
        self.buffered_duration_ms = 0;
        self.buffered_bytes = 0;
        self.trailing_silence_ms = 0;
    }

    pub fn max_inflight_ms(&self) -> (r: u32)
        ensures
            r == self.egress_policy().max_inflight_ms,
    {
        self.policy.max_inflight_ms
    }

    pub fn buffered_duration_ms(&self) -> (r: u32)
        ensures
            r == self.buffered_ms(),
    {
        self.buffered_duration_ms
    }
}


/// The audio of an emitted chunk, if any.
pub open spec fn seed_pcm(s: Option<SeedView>) -> Seq<u8> {
    match s {
        Some(seed) => seed.pcm,
        None => Seq::empty(),
    }
}

/// Pushing a frame loses and reorders no audio: what a push emits followed
/// by what stays buffered is what was buffered followed by the frame (an
/// empty or zero-length frame is dropped, and holds no audio or no time).
pub proof fn law_push_keeps_audio(c: AudioCollector, f: FrameView)
    ensures
        !ignored_frame(f) ==> seed_pcm(push_result(c, f)) + concat_pcm(pushed_state(c, f).0) == concat_pcm(
            c.frames_view(),
        ) + f.pcm,
        ignored_frame(f) ==> push_result(c, f) is None && pushed_state(c, f) == collector_state(c),
{
    let frames = c.frames_view();
    assert(frames.push(f).drop_last() =~= frames);
    if !ignored_frame(f) {
        if push_reason(c, f) is Some {
            assert(concat_pcm(Seq::<FrameView>::empty()) =~= Seq::<u8>::empty());
            assert(concat_pcm(frames.push(f)) + Seq::<u8>::empty() =~= concat_pcm(frames) + f.pcm);
        } else {
            assert(Seq::<u8>::empty() + concat_pcm(frames.push(f)) =~= concat_pcm(frames) + f.pcm);
        }
    }
}

/// Flushing the tail emits all the buffered audio, in order, and leaves
/// nothing behind.
pub proof fn law_tail_flush_keeps_audio(frames: Seq<FrameView>, duration: u32)
    ensures
        seed_pcm(flushed(frames, duration, FlushReason::Tail)) == concat_pcm(frames),
{
    if frames.len() == 0 {
        assert(concat_pcm(frames) =~= Seq::<u8>::empty());
    }
}

} // verus!
