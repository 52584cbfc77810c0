//! 16-bit little-endian PCM helpers: decoding samples, mixing a microphone
//! frame with a system frame, signal detection, and pairing the two sources
//! in mixed capture.
use vstd::prelude::*;
use crate::types::{AudioSource, NormalizedAudioFrame, ResampledAudioFrame, SourceActivity};

verus! {

/// The value of a little-endian signed 16-bit sample.
pub open spec fn le_i16(lo: u8, hi: u8) -> int {
    let u = (hi as int) * 256 + (lo as int);
    if u >= 32768 {
        u - 65536
    } else {
        u
    }
}

/// Number of whole samples in a byte sequence.
pub open spec fn sample_count(bytes: Seq<u8>) -> nat {
    bytes.len() / 2
}

/// Sample `k` of a byte sequence.
pub open spec fn sample(bytes: Seq<u8>, k: int) -> int {
    le_i16(bytes[2 * k], bytes[2 * k + 1])
}

/// Sample `k` of an optional byte sequence; 0 past its end or when absent.
pub open spec fn sample_or_zero(bytes: Option<Seq<u8>>, k: int) -> int {
    match bytes {
        Some(b) => if 2 * k + 1 < b.len() {
            sample(b, k)
        } else {
            0
        },
        None => 0,
    }
}

/// `i16::abs` as it behaves in release builds: `i16::MIN` stays negative.
pub open spec fn wrapping_abs(v: int) -> int {
    if v == -32768 {
        -32768
    } else if v < 0 {
        -v
    } else {
        v
    }
}

/// Integer division by 2 rounding toward zero.
pub open spec fn half_toward_zero(v: int) -> int {
    if v >= 0 {
        v / 2
    } else {
        -((-v) / 2)
    }
}

pub fn decode_i16(lo: u8, hi: u8) -> (v: i16)
    ensures
        v as int == le_i16(lo, hi),
{
    let u: i32 = (hi as i32) * 256 + (lo as i32);
    if u >= 32768 {
        (u - 65536) as i16
    } else {
        u as i16
    }
}

pub fn encode_i16(v: i16) -> (r: (u8, u8))
    ensures
        le_i16(r.0, r.1) == v as int,
{
    let u: i32 = if v < 0 {
        (v as i32) + 65536
    } else {
        v as i32
    };
    let lo: u8 = (u % 256) as u8;
    let hi: u8 = (u / 256) as u8;
    (lo, hi)
}

fn wrapping_abs_i16(v: i16) -> (r: i32)
    ensures
        r as int == wrapping_abs(v as int),
{
    if v == -32768 {
        -32768
    } else if v < 0 {
        -(v as i32)
    } else {
        v as i32
    }
}

fn sample_at(bytes: Option<&[u8]>, offset: usize) -> (v: i16)
    requires
        offset % 2 == 0,
    ensures
        v as int == sample_or_zero(
            match bytes {
                Some(b) => Some(b@),
                None => None,
            },
            (offset / 2) as int,
        ),
{
    match bytes {
        None => 0,
        Some(b) => {
            if offset + 1 >= b.len() {
                0
            } else {
                decode_i16(b[offset], b[offset + 1])
            }
        },
    }
}

pub open spec fn opt_bytes(b: Option<&[u8]>) -> Option<Seq<u8>> {
    match b {
        Some(x) => Some(x@),
        None => None,
    }
}

pub open spec fn opt_len(b: Option<Seq<u8>>) -> nat {
    match b {
        Some(x) => x.len(),
        None => 0,
    }
}

/// The mixed sample `k`: the average of both, rounded toward zero.
pub open spec fn mixed_sample(left: Option<Seq<u8>>, right: Option<Seq<u8>>, k: int) -> int {
    half_toward_zero(sample_or_zero(left, k) + sample_or_zero(right, k))
}

/// Whether `out` holds, as PCM16, the mix of `left` and `right` over the
/// longer of the two.
pub open spec fn is_mix_of(out: Seq<u8>, left: Option<Seq<u8>>, right: Option<Seq<u8>>) -> bool {
    let n = (if opt_len(left) >= opt_len(right) {
        opt_len(left)
    } else {
        opt_len(right)
    }) / 2;
    &&& out.len() == 2 * n
    &&& forall|k: int| 0 <= k < n ==> #[trigger] sample(out, k) == mixed_sample(left, right, k)
}

/// Mixes two PCM16 streams sample by sample, averaging toward zero; the
/// shorter or missing stream counts as silence.
pub fn mix_pcm16_le(left: Option<&[u8]>, right: Option<&[u8]>) -> (out: Vec<u8>)
    ensures
        is_mix_of(out@, opt_bytes(left), opt_bytes(right)),
{
    let ll: usize = match left {
        Some(b) => b.len(),
        None => 0,
    };
    let rl: usize = match right {
        Some(b) => b.len(),
        None => 0,
    };
    let max_len = if ll >= rl {
        ll
    } else {
        rl
    };
    let count = max_len / 2;
    let mut out: Vec<u8> = Vec::new();
    let mut index: usize = 0;
    while index < count
        invariant
            count == max_len / 2,
            max_len == (if opt_len(opt_bytes(left)) >= opt_len(opt_bytes(right)) {
                opt_len(opt_bytes(left))
            } else {
                opt_len(opt_bytes(right))
            }),
            index <= count,
            out@.len() == 2 * index,
            forall|k: int|
                0 <= k < index ==> #[trigger] sample(out@, k) == mixed_sample(
                    opt_bytes(left),
                    opt_bytes(right),
                    k,
                ),
        decreases count - index,
    {
        let offset = index * 2;
        let l = sample_at(left, offset);
        let r = sample_at(right, offset);
        let s: i32 = (l as i32) + (r as i32);
        let m: i32 = if s >= 0 {
            s / 2
        } else {
            -((-s) / 2)
        };
        let mixed: i16 = m as i16;
        let (lo, hi) = encode_i16(mixed);
        let ghost before = out@;
        out.push(lo);
        out.push(hi);
        proof {
            assert forall|k: int| 0 <= k < index + 1 implies #[trigger] sample(out@, k) == mixed_sample(
                opt_bytes(left),
                opt_bytes(right),
                k,
            ) by {
                if k < index {
                    assert(out@[2 * k] == before[2 * k]);
                    assert(out@[2 * k + 1] == before[2 * k + 1]);
                    assert(sample(before, k) == sample(out@, k));
                } else {
                    assert(out@[2 * k] == lo);
                    assert(out@[2 * k + 1] == hi);
                }
            }
        }
        index += 1;
    }
    out
}

/// A mixed frame is active when either source was.
pub fn mixed_is_active(activity: &SourceActivity) -> (r: bool)
    ensures
        r == (activity.mic_active || activity.system_active),
{
    activity.mic_active || activity.system_active
}

/// Whether some sample reaches `threshold` in magnitude.
pub open spec fn has_signal(bytes: Seq<u8>, threshold: i16) -> bool {
    exists|k: int| 0 <= k < sample_count(bytes) && wrapping_abs(#[trigger] sample(bytes, k)) >= threshold
}

pub fn pcm_has_signal(bytes: &[u8], threshold: i16) -> (r: bool)
    ensures
        r == has_signal(bytes@, threshold),
{
    let len = bytes.len();
    let n = len / 2;
    let mut k: usize = 0;
    while k < n
        invariant
            len == bytes@.len(),
            n == sample_count(bytes@),
            k <= n,
            forall|j: int| 0 <= j < k ==> wrapping_abs(#[trigger] sample(bytes@, j)) < threshold,
        decreases n - k,
    {
        let v = decode_i16(bytes[2 * k], bytes[2 * k + 1]);
        if wrapping_abs_i16(v) >= threshold as i32 {
            assert(wrapping_abs(sample(bytes@, k as int)) >= threshold);
            return true;
        }
        k += 1;
    }
    false
}

/// The content of a frame, its bytes taken as a sequence.
pub struct FrameView {
    pub captured_at: i128,
    pub duration_ms: u32,
    pub source: AudioSource,
    pub pcm: Seq<u8>,
    pub activity: SourceActivity,
}

impl View for NormalizedAudioFrame {
    type V = FrameView;

    open spec fn view(&self) -> FrameView {
        FrameView {
            captured_at: self.captured_at,
            duration_ms: self.duration_ms,
            source: self.source,
            pcm: self.pcm_bytes@,
            activity: self.activity,
        }
    }
}

impl View for ResampledAudioFrame {
    type V = FrameView;

    open spec fn view(&self) -> FrameView {
        FrameView {
            captured_at: self.captured_at,
            duration_ms: self.duration_ms,
            source: self.source,
            pcm: self.pcm_bytes@,
            activity: self.activity,
        }
    }
}

pub open spec fn frame_opt(f: Option<FrameView>) -> Option<Seq<u8>> {
    match f {
        Some(x) => Some(x.pcm),
        None => None,
    }
}

/// The frame combining one tick of both sources: none when both are absent;
/// otherwise it starts at the earlier capture time, lasts as long as the
/// longer frame, mixes both, and keeps each source's own activity flag.
pub open spec fn combined_ok(mic: Option<FrameView>, system: Option<FrameView>, r: Option<FrameView>) -> bool {
    match (mic, system) {
        (None, None) => r is None,
        _ => r matches Some(f) && f.source == AudioSource::Mixed && f.activity.mic_active == (
        mic matches Some(m) && m.activity.mic_active) && f.activity.system_active == (
        system matches Some(s) && s.activity.system_active) && f.captured_at == (match (
            mic,
            system,
        ) {
            (Some(m), Some(s)) => if m.captured_at <= s.captured_at {
                m.captured_at
            } else {
                s.captured_at
            },
            (Some(m), None) => m.captured_at,
            (None, Some(s)) => s.captured_at,
            (None, None) => 0,
        }) && f.duration_ms == (match (mic, system) {
            (Some(m), Some(s)) => if m.duration_ms >= s.duration_ms {
                m.duration_ms
            } else {
                s.duration_ms
            },
            (Some(m), None) => m.duration_ms,
            (None, Some(s)) => s.duration_ms,
            (None, None) => 0,
        }) && is_mix_of(f.pcm, frame_opt(mic), frame_opt(system)),
    }
}

pub open spec fn nframe_opt_view(f: Option<NormalizedAudioFrame>) -> Option<FrameView> {
    match f {
        Some(x) => Some(x@),
        None => None,
    }
}

pub fn combine_mixed_tick(
    mic_frame: Option<NormalizedAudioFrame>,
    system_frame: Option<NormalizedAudioFrame>,
) -> (r: Option<NormalizedAudioFrame>)
    ensures
        combined_ok(nframe_opt_view(mic_frame), nframe_opt_view(system_frame), nframe_opt_view(r)),
{
    let activity = SourceActivity {
        mic_active: match &mic_frame {
            Some(f) => f.activity.mic_active,
            None => false,
        },
        system_active: match &system_frame {
            Some(f) => f.activity.system_active,
            None => false,
        },
    };
    let (captured_at, duration_ms) = match (&mic_frame, &system_frame) {
        (Some(m), Some(s)) => (
            if m.captured_at <= s.captured_at {
                m.captured_at
            } else {
                s.captured_at
            },
            if m.duration_ms >= s.duration_ms {
                m.duration_ms
            } else {
                s.duration_ms
            },
        ),
        (Some(m), None) => (m.captured_at, m.duration_ms),
        (None, Some(s)) => (s.captured_at, s.duration_ms),
        (None, None) => return None,
    };
    let mic_pcm: Option<&[u8]> = match &mic_frame {
        Some(f) => Some(f.pcm_bytes.as_slice()),
        None => None,
    };
    let system_pcm: Option<&[u8]> = match &system_frame {
        Some(f) => Some(f.pcm_bytes.as_slice()),
        None => None,
    };
    let mixed_pcm = mix_pcm16_le(mic_pcm, system_pcm);
    Some(
        NormalizedAudioFrame {
            captured_at,
            duration_ms,
            source: AudioSource::Mixed,
            pcm_bytes: mixed_pcm,
            activity,
        },
    )
}

/// Duration in milliseconds of `samples` samples at 16 kHz, rounded down.
pub open spec fn duration_ms_of(samples: nat) -> nat {
    samples * 1000 / 16000
}

/// `((samples as u64) * 1000 / 16000) as u32`.
pub fn frame_duration_ms(samples: usize) -> (r: u32)
    requires
        samples <= u32::MAX,
    ensures
        r == duration_ms_of(samples as nat),
{
    let s: u64 = samples as u64;
    (s * 1000 / 16000) as u32
}

/// The silence threshold of a source; a mixed frame uses the lower one.
pub open spec fn threshold_for(source: AudioSource, mic: i16, system: i16) -> i16 {
    match source {
        AudioSource::Mic => mic,
        AudioSource::System => system,
        AudioSource::Mixed => if mic <= system {
            mic
        } else {
            system
        },
    }
}

pub fn silence_threshold_for(source: AudioSource, mic: i16, system: i16) -> (r: i16)
    ensures
        r == threshold_for(source, mic, system),
{
    match source {
        AudioSource::Mic => mic,
        AudioSource::System => system,
        AudioSource::Mixed => if mic <= system {
            mic
        } else {
            system
        },
    }
}

// ---------------------------------------------------------------------------
// Laws
// ---------------------------------------------------------------------------
/// Mixing does not depend on which stream comes first.
pub proof fn law_mix_symmetric(out: Seq<u8>, left: Option<Seq<u8>>, right: Option<Seq<u8>>)
    ensures
        is_mix_of(out, left, right) == is_mix_of(out, right, left),
{
    assert(forall|k: int| #[trigger] mixed_sample(left, right, k) == mixed_sample(right, left, k));
}

/// A mixed frame is active exactly when the source it came from was
/// active.
pub proof fn law_activity_round_trip(source: AudioSource, active: bool)
    ensures
        ({
            let a = SourceActivity {
                mic_active: active && (source == AudioSource::Mic || source == AudioSource::Mixed),
                system_active: active && (source == AudioSource::System || source
                    == AudioSource::Mixed),
            };
            (a.mic_active || a.system_active) == active
        }),
{
}

} // verus!
