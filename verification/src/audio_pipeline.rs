//! The integer side of the resampling pipeline: frame metadata from PCM16
//! bytes, and pairing microphone and system frames in mixed capture.
use vstd::prelude::*;
use crate::audio_combine::{
    combine_mixed_tick, combined_ok, duration_ms_of, frame_duration_ms, has_signal,
    pcm_has_signal, silence_threshold_for, threshold_for, FrameView,
};
use crate::types::{
    AudioSource, NormalizedAudioFrame, PhysicalAudioSource, ResampledAudioFrame, SourceActivity,
};

verus! {

/// Thresholds that decide whether a resampled frame counts as active.
#[derive(Debug, Clone, Copy)]
pub struct SilenceThresholds {
    pub mic_silence_threshold: i16,
    pub system_silence_threshold: i16,
}

/// The stream that frames of a physical source are tagged with.
pub fn audio_source_of(source: PhysicalAudioSource) -> (r: AudioSource)
    ensures
        r == (match source {
            PhysicalAudioSource::Microphone => AudioSource::Mic,
            PhysicalAudioSource::SystemOutput => AudioSource::System,
        }),
{
    match source {
        PhysicalAudioSource::Microphone => AudioSource::Mic,
        PhysicalAudioSource::SystemOutput => AudioSource::System,
    }
}

/// A 16 kHz PCM16 frame with its duration and its activity: active when a
/// sample reaches the source's threshold.
pub fn build_frame(
    thresholds: SilenceThresholds,
    captured_at: i128,
    source: AudioSource,
    pcm_bytes: Vec<u8>,
) -> (f: ResampledAudioFrame)
    requires
        pcm_bytes@.len() / 2 <= u32::MAX,
    ensures
        f.captured_at == captured_at,
        f.source == source,
        f.pcm_bytes@ == pcm_bytes@,
        f.duration_ms == duration_ms_of(pcm_bytes@.len() / 2),
        ({
            let active = has_signal(
                pcm_bytes@,
                threshold_for(
                    source,
                    thresholds.mic_silence_threshold,
                    thresholds.system_silence_threshold,
                ),
            );
            f.activity.mic_active == (active && (source == AudioSource::Mic || source
                == AudioSource::Mixed)) && f.activity.system_active == (active && (source
                == AudioSource::System || source == AudioSource::Mixed))
        }),
{
    let duration_ms = frame_duration_ms(pcm_bytes.len() / 2);
    let threshold = silence_threshold_for(
        source,
        thresholds.mic_silence_threshold,
        thresholds.system_silence_threshold,
    );
    let active = pcm_has_signal(pcm_bytes.as_slice(), threshold);
    ResampledAudioFrame {
        captured_at,
        duration_ms,
        source,
        pcm_bytes,
        activity: SourceActivity::from_source(source, active),
    }
}

pub fn normalized_from_resampled(frame: ResampledAudioFrame) -> (r: NormalizedAudioFrame)
    ensures
        r@ == frame@,
{
    NormalizedAudioFrame {
        captured_at: frame.captured_at,
        duration_ms: frame.duration_ms,
        source: frame.source,
        pcm_bytes: frame.pcm_bytes,
        activity: frame.activity,
    }
}

pub fn resampled_from_normalized(frame: NormalizedAudioFrame) -> (r: ResampledAudioFrame)
    ensures
        r@ == frame@,
{
    ResampledAudioFrame {
        captured_at: frame.captured_at,
        duration_ms: frame.duration_ms,
        source: frame.source,
        pcm_bytes: frame.pcm_bytes,
        activity: frame.activity,
    }
}

pub open spec fn frame_views_n(s: Seq<NormalizedAudioFrame>) -> Seq<FrameView> {
    s.map_values(|f: NormalizedAudioFrame| f@)
}

pub open spec fn frame_views_r(s: Seq<ResampledAudioFrame>) -> Seq<FrameView> {
    s.map_values(|f: ResampledAudioFrame| f@)
}

/// Microphone and system frames waiting for their counterpart in mixed
/// capture. At most one of the two queues holds frames.
pub struct MixPairing {
    pending_mic: Vec<NormalizedAudioFrame>,
    pending_system: Vec<NormalizedAudioFrame>,
}

impl MixPairing {
    pub closed spec fn mic_view(&self) -> Seq<FrameView> {
        frame_views_n(self.pending_mic@)
    }

    pub closed spec fn system_view(&self) -> Seq<FrameView> {
        frame_views_n(self.pending_system@)
    }

    /// At most one source has frames waiting.
    pub open spec fn wf(&self) -> bool {
        self.mic_view().len() == 0 || self.system_view().len() == 0
    }

    pub fn new() -> (r: Self)
        ensures
            r.mic_view() == Seq::<FrameView>::empty(),
            r.system_view() == Seq::<FrameView>::empty(),
            r.wf(),
    {
        let r = MixPairing { pending_mic: Vec::new(), pending_system: Vec::new() };
        assert(frame_views_n(r.pending_mic@) =~= Seq::<FrameView>::empty());
        assert(frame_views_n(r.pending_system@) =~= Seq::<FrameView>::empty());
        r
    }

    /// Takes one resampled frame and gives the frames to send now. Without
    /// mixing, and for an already mixed frame, that is the frame itself. A
    /// microphone (system) frame is combined with the oldest waiting system
    /// (microphone) frame if there is one, and otherwise waits.
    pub fn emit_frame(&mut self, frame: ResampledAudioFrame, mixed: bool) -> (out: Vec<
        ResampledAudioFrame,
    >)
        requires
            old(self).wf(),
        ensures
            final(self).wf(),
            !mixed || frame.source == AudioSource::Mixed ==> frame_views_r(out@) == seq![frame@]
                && final(self).mic_view() == old(self).mic_view() && final(self).system_view()
                == old(self).system_view(),
            mixed && frame.source == AudioSource::Mic && old(self).system_view().len() == 0
                ==> out@.len() == 0 && final(self).mic_view() == old(self).mic_view().push(frame@)
                && final(self).system_view() == old(self).system_view(),
            mixed && frame.source == AudioSource::Mic && old(self).system_view().len() > 0
                ==> out@.len() == 1 && combined_ok(
                Some(frame@),
                Some(old(self).system_view()[0]),
                Some(out@[0]@),
            ) && final(self).mic_view() == old(self).mic_view() && final(self).system_view()
                == old(self).system_view().drop_first(),
            mixed && frame.source == AudioSource::System && old(self).mic_view().len() == 0
                ==> out@.len() == 0 && final(self).system_view() == old(self).system_view().push(
                frame@,
            ) && final(self).mic_view() == old(self).mic_view(),
            mixed && frame.source == AudioSource::System && old(self).mic_view().len() > 0
                ==> out@.len() == 1 && combined_ok(
                Some(old(self).mic_view()[0]),
                Some(frame@),
                Some(out@[0]@),
            ) && final(self).system_view() == old(self).system_view() && final(self).mic_view()
                == old(self).mic_view().drop_first(),
    {
        let mut out: Vec<ResampledAudioFrame> = Vec::new();
        if !mixed || frame.source == AudioSource::Mixed {
            let ghost fv = frame@;
            out.push(frame);
            assert(frame_views_r(out@) =~= seq![fv]);
            return out;
        }
        let normalized = normalized_from_resampled(frame);
        let ghost nv = normalized@;
        let ghost m0 = self.mic_view();
        let ghost s0 = self.system_view();
        if normalized.source == AudioSource::Mic {
            if self.pending_system.len() > 0 {
                let sys = self.pending_system.remove(0);
                proof {
                    assert(frame_views_n(self.pending_system@) =~= s0.drop_first());
                }
                let combined = combine_mixed_tick(Some(normalized), Some(sys));
                match combined {
                    Some(c) => {
                        out.push(resampled_from_normalized(c));
                    },
                    None => {},
                }
            } else {
                self.pending_mic.push(normalized);
                proof {
                    assert(frame_views_n(self.pending_mic@) =~= m0.push(nv));
                }
            }
        } else {
            if self.pending_mic.len() > 0 {
                let mic = self.pending_mic.remove(0);
                proof {
                    assert(frame_views_n(self.pending_mic@) =~= m0.drop_first());
                }
                let combined = combine_mixed_tick(Some(mic), Some(normalized));
                match combined {
                    Some(c) => {
                        out.push(resampled_from_normalized(c));
                    },
                    None => {},
                }
            } else {
                self.pending_system.push(normalized);
                proof {
                    assert(frame_views_n(self.pending_system@) =~= s0.push(nv));
                }
            }
        }
        out
    }

    /// At the end of the stream: the frames still waiting, oldest first.
    pub fn drain(&mut self, mixed: bool) -> (out: Vec<ResampledAudioFrame>)
        requires
            old(self).wf(),
        ensures
            final(self).wf(),
            mixed ==> frame_views_r(out@) == old(self).mic_view() + old(self).system_view()
                && final(self).mic_view().len() == 0 && final(self).system_view().len() == 0,
            !mixed ==> out@.len() == 0 && final(self).mic_view() == old(self).mic_view()
                && final(self).system_view() == old(self).system_view(),
    {
        let mut out: Vec<ResampledAudioFrame> = Vec::new();
        if !mixed {
            return out;
        }
        let ghost m0 = self.mic_view();
        let ghost s0 = self.system_view();
        let mut mic: Vec<NormalizedAudioFrame> = Vec::new();
        let mut sys: Vec<NormalizedAudioFrame> = Vec::new();
        std::mem::swap(&mut mic, &mut self.pending_mic);
        std::mem::swap(&mut sys, &mut self.pending_system);
        proof {
            assert(frame_views_n(self.pending_mic@) =~= Seq::<FrameView>::empty());
            assert(frame_views_n(self.pending_system@) =~= Seq::<FrameView>::empty());
        }
        let ghost all = m0 + s0;
        mic.append(&mut sys);
        assert(frame_views_n(mic@) =~= all);
        let n = mic.len();
        for i in 0..n
            invariant
                n == mic@.len(),
                frame_views_n(mic@) == all,
                frame_views_r(out@) == all.take(i as int),
                self.mic_view().len() == 0,
                self.system_view().len() == 0,
        {
            let f = NormalizedAudioFrame {
                captured_at: mic[i].captured_at,
                duration_ms: mic[i].duration_ms,
                source: mic[i].source,
                pcm_bytes: mic[i].pcm_bytes.clone(),
                activity: mic[i].activity,
            };
            proof {
                assert(f@ == all[i as int]);
            }
            let ghost o0 = out@;
            out.push(resampled_from_normalized(f));
            proof {
                assert(frame_views_r(out@) =~= frame_views_r(o0).push(all[i as int]));
                assert(all.take(i + 1) =~= all.take(i as int).push(all[i as int]));
            }
        }
        assert(all.take(n as int) =~= all);
        out
    }
}

} // verus!
