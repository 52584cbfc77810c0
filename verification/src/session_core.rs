//! The recording session state machine: lifecycle states, the outgoing
//! audio queues (pending and in flight), and the transcript buffer.
//!
//! Every method here decides; sending audio, cancelling tasks, emitting
//! events and writing files are left to the caller, which performs them
//! between the calls as the returned values direct.
use vstd::prelude::*;
use std::collections::VecDeque;
use crate::audio_egress::{
    collector_state, flushed, policy_for, push_result, pushed_state, sat_add_u32,
    AudioCollector, AudioEgressPolicy, FlushReason, PendingChunkSeed, SeedView, SilenceConfig,
};
use crate::audio_combine::FrameView;
use crate::transcript_buffer::{views_of, SegmentView, TranscriptBuffer, upserted};
use crate::storage_model::{
    add_active_part, appended, close_active_part, complete_active_part, next_part, part_added, part_completed,
    record_appended, sealed,
};
use crate::text::str_eq;
use crate::types::{
    AudioChunk, AudioSource, ResampledAudioFrame, SessionManifest, SessionState, TranscriptSegment,
};

verus! {

/// One input of a pipeline's streaming loop.
#[derive(Debug, Clone, Copy, PartialEq, Eq, Structural)]
pub enum LoopInput {
    /// A resampled audio frame arrived.
    ResampledFrame,
    /// The resampler ended; what it held is flushed.
    ResamplerEnded,
    /// The service acknowledged a sent chunk.
    ChunkSent,
    /// The service sent an update; `has_segment` tells whether it made a
    /// transcript segment (an update without tokens makes none).
    Update { has_segment: bool },
    /// The service finished.
    Finished,
    /// The service reported a fatal error.
    ServiceError,
    /// The service's event channel closed.
    EventsClosed,
}

/// What the streaming loop does with an input.
#[derive(Debug, Clone, Copy, PartialEq, Eq, Structural)]
pub enum LoopAction {
    /// Leave the loop.
    Stop,
    /// Go on to the next input.
    Skip,
    /// Apply the input to the session.
    Apply,
    /// Report the error on the session, then leave the loop.
    ReportThenStop,
}

/// The loop stops when the service finished or its events ended; an
/// update without a segment is skipped; anything else is applied while the
/// pipeline is active (a fatal error is reported), and stops the loop once
/// it is not.
pub open spec fn loop_step(active: bool, input: LoopInput) -> LoopAction {
    match input {
        LoopInput::EventsClosed | LoopInput::Finished => LoopAction::Stop,
        LoopInput::Update { has_segment } => if !has_segment {
            LoopAction::Skip
        } else if active {
            LoopAction::Apply
        } else {
            LoopAction::Stop
        },
        LoopInput::ServiceError => if active {
            LoopAction::ReportThenStop
        } else {
            LoopAction::Stop
        },
        _ => if active {
            LoopAction::Apply
        } else {
            LoopAction::Stop
        },
    }
}

/// Why a session operation was refused.
#[derive(Debug, Clone, Copy, PartialEq, Eq, Structural)]
pub enum SessionError {
    NotIdle,
    NotPaused,
    NotRecording,
    NoActiveSession,
    MissingResumeManifest,
    MissingResumeFolder,
    StartSuperseded,
    MissingFolderAndManifest,
    MissingFolder,
    MissingManifest,
    NoActivePart,
    MissingActivePartOnStop,
    InconsistentStopState,
    SenderClosed,
}

pub open spec fn error_message(e: SessionError) -> Seq<char> {
    match e {
        SessionError::NotIdle => "Cannot start: session is not idle"@,
        SessionError::NotPaused => "Cannot resume: session is not paused"@,
        SessionError::NotRecording => "Cannot pause: session is not recording"@,
        SessionError::NoActiveSession => "Cannot stop: no active session"@,
        SessionError::MissingResumeManifest => "Missing session manifest for resume"@,
        SessionError::MissingResumeFolder => "Missing session folder for resume pipeline start"@,
        SessionError::StartSuperseded => "Session start was superseded before completion"@,
        SessionError::MissingFolderAndManifest => "Missing session folder path and manifest while persisting pending segments"@,
        SessionError::MissingFolder => "Missing session folder path while persisting pending segments"@,
        SessionError::MissingManifest => "Missing session manifest while persisting pending segments"@,
        SessionError::NoActivePart => "No active part found"@,
        SessionError::MissingActivePartOnStop => "Missing active part in manifest"@,
        SessionError::InconsistentStopState => "Session persistence state is inconsistent during stop"@,
        SessionError::SenderClosed => "WebSocket sender closed while dispatching audio backlog"@,
    }
}

impl SessionError {
    /// The text of the error.
    pub fn message(&self) -> (r: String)
        ensures
            r@ == error_message(*self),
    {
        let s = match self {
            SessionError::NotIdle => "Cannot start: session is not idle",
            SessionError::NotPaused => "Cannot resume: session is not paused",
            SessionError::NotRecording => "Cannot pause: session is not recording",
            SessionError::NoActiveSession => "Cannot stop: no active session",
            SessionError::MissingResumeManifest => "Missing session manifest for resume",
            SessionError::MissingResumeFolder => "Missing session folder for resume pipeline start",
            SessionError::StartSuperseded => "Session start was superseded before completion",
            SessionError::MissingFolderAndManifest => "Missing session folder path and manifest while persisting pending segments",
            SessionError::MissingFolder => "Missing session folder path while persisting pending segments",
            SessionError::MissingManifest => "Missing session manifest while persisting pending segments",
            SessionError::NoActivePart => "No active part found",
            SessionError::MissingActivePartOnStop => "Missing active part in manifest",
            SessionError::InconsistentStopState => "Session persistence state is inconsistent during stop",
            SessionError::SenderClosed => "WebSocket sender closed while dispatching audio backlog",
        };
        String::from_str(s)
    }
}

/// The content of a queued audio chunk.
pub struct ChunkView {
    pub sequence: u64,
    pub captured_at: i128,
    pub duration_ms: u32,
    pub source: AudioSource,
    pub session_generation: u32,
    pub pcm: Seq<u8>,
}

impl View for AudioChunk {
    type V = ChunkView;

    open spec fn view(&self) -> ChunkView {
        ChunkView {
            sequence: self.sequence,
            captured_at: self.captured_at,
            duration_ms: self.duration_ms,
            source: self.source,
            session_generation: self.session_generation,
            pcm: self.pcm_bytes@,
        }
    }
}

pub open spec fn chunk_views(s: Seq<AudioChunk>) -> Seq<ChunkView> {
    s.map_values(|c: AudioChunk| c@)
}

/// Total duration of the chunks.
pub open spec fn total_ms(cs: Seq<ChunkView>) -> nat
    decreases cs.len(),
{
    if cs.len() == 0 {
        0
    } else {
        total_ms(cs.drop_last()) + cs.last().duration_ms as nat
    }
}

pub open spec fn clamp_u32(n: int) -> u32 {
    if n > u32::MAX {
        u32::MAX
    } else if n < 0 {
        0
    } else {
        n as u32
    }
}

/// The started-at time of a session state that has one.
pub open spec fn started_at_of(s: SessionState) -> Option<i128> {
    match s {
        SessionState::Recording { started_at, .. } => Some(started_at),
        SessionState::Buffering { started_at, .. } => Some(started_at),
        SessionState::Reconnecting { started_at, .. } => Some(started_at),
        SessionState::Draining { started_at, .. } => Some(started_at),
        SessionState::Paused { started_at, .. } => Some(started_at),
        _ => None,
    }
}

/// The state as it reflects the current audio backlog: recording turns into
/// buffering while audio is waiting and back once none is; paused,
/// draining and reconnecting keep their kind with the new backlog.
pub open spec fn with_backlog(s: SessionState, id: Option<String>, backlog: u32, generation: u32) -> SessionState {
    match (id, started_at_of(s)) {
        (Some(session_id), Some(started_at)) => match s {
            SessionState::Paused { .. } => SessionState::Paused { session_id, started_at },
            SessionState::Draining { .. } => SessionState::Draining { session_id, started_at, backlog_ms: backlog },
            SessionState::Reconnecting { .. } => SessionState::Reconnecting {
                session_id,
                started_at,
                backlog_ms: backlog,
                session_generation: generation,
            },
            _ => if backlog > 0 {
                SessionState::Buffering {
                    session_id,
                    started_at,
                    backlog_ms: backlog,
                    session_generation: generation,
                }
            } else {
                SessionState::Recording { session_id, started_at }
            },
        },
        _ => s,
    }
}

/// The backlog in milliseconds: pending (capped at `u32::MAX`), in flight
/// and buffered audio, added with saturation.
pub open spec fn backlog_of(pending: Seq<ChunkView>, inflight_ms: u32, buffered_ms: u32) -> u32 {
    sat_add_u32(sat_add_u32(clamp_u32(total_ms(pending) as int), inflight_ms), buffered_ms)
}

/// Every chunk lasts a positive time.
pub open spec fn all_positive(s: Seq<ChunkView>) -> bool {
    forall|i: int| 0 <= i < s.len() ==> #[trigger] s[i].duration_ms > 0
}

/// Removes the durations of `removed` from `ms`, stopping at zero.
pub open spec fn sub_ms(ms: u32, removed: Seq<ChunkView>) -> u32 {
    if ms >= total_ms(removed) {
        (ms - total_ms(removed)) as u32
    } else {
        0
    }
}

/// How many chunks from the front belong to an older generation.
pub open spec fn first_current(s: Seq<ChunkView>, generation: u32) -> nat
    decreases s.len(),
{
    if s.len() == 0 || s[0].session_generation == generation {
        0
    } else {
        1 + first_current(s.drop_first(), generation)
    }
}

/// How many chunks from the front an acknowledgement of `sequence`
/// settles: those with a smaller sequence number, and then the chunk with
/// that number if it comes next.
pub open spec fn acked_count(s: Seq<ChunkView>, sequence: u64) -> nat
    decreases s.len(),
{
    if s.len() == 0 {
        0
    } else if s[0].sequence < sequence {
        1 + acked_count(s.drop_first(), sequence)
    } else if s[0].sequence == sequence {
        1
    } else {
        0
    }
}

/// The first position of the chunk with the given sequence number.
pub open spec fn position_of_sequence(s: Seq<ChunkView>, sequence: u64) -> Option<int>
    decreases s.len(),
{
    if s.len() == 0 {
        None
    } else if s[0].sequence == sequence {
        Some(0)
    } else {
        match position_of_sequence(s.drop_first(), sequence) {
            Some(i) => Some(i + 1),
            None => None,
        }
    }
}

/// The chunk made of a flushed seed, numbered `sequence`.
pub open spec fn chunk_of(seed: SeedView, sequence: u64, generation: u32) -> ChunkView {
    ChunkView {
        sequence,
        captured_at: seed.captured_at,
        duration_ms: seed.duration_ms,
        source: seed.source,
        session_generation: generation,
        pcm: seed.pcm,
    }
}

/// A seed that is queued: it has audio and lasts a positive time.
pub open spec fn queues(seed: Option<SeedView>) -> bool {
    seed matches Some(s) && s.pcm.len() > 0 && s.duration_ms > 0
}

/// The buffered frames, duration, bytes and silence after a tail flush.
pub open spec fn after_tail(c: AudioCollector) -> (Seq<FrameView>, u32, usize, u32) {
    if c.frames_view().len() > 0 {
        (Seq::empty(), 0, 0, 0)
    } else {
        collector_state(c)
    }
}

/// What the session manager holds, as the contracts see it (the frame
/// collector is described by `SessionManager::collector`).
pub struct SessionView {
    pub state: SessionState,
    pub session_id: Option<String>,
    pub folder: Option<String>,
    pub manifest: Option<SessionManifest>,
    pub active_pipeline: Option<u64>,
    pub next_pipeline: u64,
    pub flushed_total: u32,
    pub generation: u32,
    pub next_sequence: u64,
    pub pending: Seq<ChunkView>,
    pub inflight: Seq<ChunkView>,
    pub inflight_ms: u32,
    pub segments: Seq<SegmentView>,
    pub pending_segments: Seq<SegmentView>,
    pub capacity: nat,
}

/// `v` with its state brought in line with the audio backlog.
pub open spec fn settled(v: SessionView, buffered_ms: u32) -> SessionView {
    SessionView {
        state: with_backlog(v.state, v.session_id, backlog_of(v.pending, v.inflight_ms, buffered_ms), v.generation),
        ..v
    }
}

/// `v` with a seed queued as the next chunk of `generation`.
pub open spec fn with_seed(v: SessionView, seed: Option<SeedView>, generation: u32) -> SessionView {
    if queues(seed) {
        SessionView {
            pending: v.pending.push(chunk_of(seed->0, v.next_sequence, generation)),
            next_sequence: if v.next_sequence == u64::MAX {
                v.next_sequence
            } else {
                (v.next_sequence + 1) as u64
            },
            ..v
        }
    } else {
        v
    }
}

/// `v` once the audio in flight is put back at the front of the queue.
pub open spec fn restored(v: SessionView, buffered_ms: u32) -> SessionView {
    settled(
        SessionView {
            pending: v.inflight + v.pending,
            inflight: Seq::empty(),
            inflight_ms: sub_ms(v.inflight_ms, v.inflight),
            ..v
        },
        buffered_ms,
    )
}

/// `v` once the collector `c` has flushed its tail as a chunk of `generation`.
pub open spec fn tail_flushed(v: SessionView, c: AudioCollector, generation: u32) -> SessionView {
    settled(
        with_seed(v, flushed(c.frames_view(), c.buffered_ms(), FlushReason::Tail), generation),
        after_tail(c).1,
    )
}

/// `v` once its pipeline is halted: the tail is flushed, no pipeline is
/// active any more, and the audio in flight goes back to the queue.
pub open spec fn halted(v: SessionView, c: AudioCollector) -> SessionView {
    restored(SessionView { active_pipeline: None, ..tail_flushed(v, c, v.generation) }, after_tail(c).1)
}

/// The session a state belongs to, falling back, while connecting, on the
/// current session id and the manifest's start (or `now` without one).
pub open spec fn session_identity(v: SessionView, now: i128) -> Option<(String, i128)> {
    let fallback = match v.manifest {
        Some(m) => m.started_at,
        None => now,
    };
    match v.state {
        SessionState::Connecting => match v.session_id {
            Some(id) => Some((id, fallback)),
            None => None,
        },
        SessionState::Buffering { session_id, started_at, .. } => Some((session_id, started_at)),
        SessionState::Recording { session_id, started_at } => Some((session_id, started_at)),
        SessionState::Paused { session_id, started_at } => Some((session_id, started_at)),
        SessionState::Reconnecting { session_id, started_at, .. } => Some((session_id, started_at)),
        SessionState::Draining { session_id, started_at, .. } => Some((session_id, started_at)),
        _ => None,
    }
}

/// The session of a state that can be paused: recording, buffering or
/// reconnecting.
pub open spec fn running_identity(s: SessionState) -> Option<(String, i128)> {
    match s {
        SessionState::Recording { session_id, started_at } => Some((session_id, started_at)),
        SessionState::Buffering { session_id, started_at, .. } => Some((session_id, started_at)),
        SessionState::Reconnecting { session_id, started_at, .. } => Some((session_id, started_at)),
        _ => None,
    }
}

/// The states that a stop applies to: all but idle and error.
pub open spec fn is_stoppable(s: SessionState) -> bool {
    !(s is Idle) && !(s is Error)
}

/// The generation after the current one (it stays at `u32::MAX`).
pub open spec fn next_generation(g: u32) -> u32 {
    if g == u32::MAX {
        g
    } else {
        (g + 1) as u32
    }
}

/// `v` once a new pipeline takes over: it gets the next pipeline id and
/// generation, and the audio in flight goes back to the queue.
pub open spec fn with_pipeline(v: SessionView, buffered_ms: u32) -> SessionView {
    restored(
        SessionView {
            next_pipeline: (v.next_pipeline + 1) as u64,
            generation: next_generation(v.generation),
            active_pipeline: Some(v.next_pipeline),
            ..v
        },
        buffered_ms,
    )
}

/// `v` with no session: idle, counters reset, queues and transcript empty.
pub open spec fn reset(v: SessionView) -> SessionView {
    SessionView {
        state: SessionState::Idle,
        session_id: None,
        folder: None,
        manifest: None,
        active_pipeline: None,
        flushed_total: 0,
        generation: 0,
        next_sequence: 1,
        pending: Seq::empty(),
        inflight: Seq::empty(),
        inflight_ms: 0,
        segments: Seq::empty(),
        pending_segments: Seq::empty(),
        ..v
    }
}

/// `v` as a stop leaves it while the audio drains: draining with the
/// current backlog, where the state belongs to a session.
pub open spec fn draining(v: SessionView, now: i128, buffered_ms: u32) -> SessionView {
    match session_identity(v, now) {
        Some((id, started)) => SessionView {
            state: SessionState::Draining {
                session_id: id,
                started_at: started,
                backlog_ms: backlog_of(v.pending, v.inflight_ms, buffered_ms),
            },
            ..v
        },
        None => v,
    }
}

/// Whether a start can complete: the state is connecting, or paused in the
/// same session, and the current session is the one starting.
pub open spec fn can_finalize(v: SessionView, session_id: Seq<char>) -> bool {
    &&& (v.state is Connecting || (v.state is Paused && v.state->Paused_session_id@ == session_id))
    &&& v.session_id is Some
    &&& v.session_id->0@ == session_id
}

/// The transcript and its pending segments after upserting each incoming
/// segment in order.
pub open spec fn upserted_all(
    segs: Seq<SegmentView>,
    pending: Seq<SegmentView>,
    capacity: nat,
    incoming: Seq<SegmentView>,
) -> (Seq<SegmentView>, Seq<SegmentView>)
    decreases incoming.len(),
{
    if incoming.len() == 0 {
        (segs, pending)
    } else {
        let (s1, p1) = upserted_all(segs, pending, capacity, incoming.drop_last());
        upserted(s1, p1, capacity, incoming.last())
    }
}

/// The collector's buffer is empty; its configuration is unchanged.
pub open spec fn cleared_collector(a: AudioCollector, b: AudioCollector) -> bool {
    &&& collector_state(b) == (Seq::<FrameView>::empty(), 0u32, 0usize, 0u32)
    &&& b.config() == a.config()
    &&& b.egress_policy() == a.egress_policy()
}

/// The collector has flushed its tail; its configuration is unchanged.
pub open spec fn tail_collector(a: AudioCollector, b: AudioCollector) -> bool {
    &&& collector_state(b) == after_tail(a)
    &&& b.config() == a.config()
    &&& b.egress_policy() == a.egress_policy()
}

/// Orchestrates the recording lifecycle.
pub struct SessionManager {
    state: SessionState,
    buffer: TranscriptBuffer,
    current_session_id: Option<String>,
    current_folder_path: Option<String>,
    manifest: Option<SessionManifest>,
    active_pipeline_id: Option<u64>,
    next_pipeline_id: u64,
    total_flushed: u32,
    session_generation: u32,
    next_audio_sequence: u64,
    pending_audio: VecDeque<AudioChunk>,
    inflight_audio: VecDeque<AudioChunk>,
    inflight_audio_ms: u32,
    audio_collector: AudioCollector,
}

impl View for SessionManager {
    type V = SessionView;

    closed spec fn view(&self) -> SessionView {
        SessionView {
            state: self.state,
            session_id: self.current_session_id,
            folder: self.current_folder_path,
            manifest: self.manifest,
            active_pipeline: self.active_pipeline_id,
            next_pipeline: self.next_pipeline_id,
            flushed_total: self.total_flushed,
            generation: self.session_generation,
            next_sequence: self.next_audio_sequence,
            pending: chunk_views(self.pending_audio@),
            inflight: chunk_views(self.inflight_audio@),
            inflight_ms: self.inflight_audio_ms,
            segments: self.buffer.segments_view(),
            pending_segments: self.buffer.pending_view(),
            capacity: self.buffer.capacity(),
        }
    }
}

/// Where a session starts: its id, folder and start time.
pub struct StartSessionContext {
    pub session_id: String,
    pub folder_path: String,
    pub started_at: i128,
}

/// What a stopped session leaves to persist.
pub struct StoppedSession {
    pub session_id: Option<String>,
    pub folder_path: Option<String>,
    pub manifest: Option<SessionManifest>,
    pub remaining: Vec<TranscriptSegment>,
}

proof fn lemma_views_subrange(s: Seq<AudioChunk>, a: int, b: int)
    requires
        0 <= a <= b <= s.len(),
    ensures
        chunk_views(s.subrange(a, b)) == chunk_views(s).subrange(a, b),
{
    assert(chunk_views(s.subrange(a, b)) =~= chunk_views(s).subrange(a, b));
}

proof fn lemma_total_concat(a: Seq<ChunkView>, b: Seq<ChunkView>)
    ensures
        total_ms(a + b) == total_ms(a) + total_ms(b),
    decreases b.len(),
{
    if b.len() == 0 {
        assert(a + b =~= a);
    } else {
        lemma_total_concat(a, b.drop_last());
        assert((a + b).drop_last() =~= a + b.drop_last());
    }
}

proof fn lemma_total_front(s: Seq<ChunkView>)
    requires
        s.len() > 0,
    ensures
        total_ms(s) == s[0].duration_ms + total_ms(s.drop_first()),
{
    let one = seq![s[0]];
    lemma_total_concat(one, s.drop_first());
    assert(one + s.drop_first() =~= s);
    assert(one.drop_last() =~= Seq::<ChunkView>::empty());
    assert(total_ms(one) == total_ms(one.drop_last()) + one.last().duration_ms);
}

proof fn lemma_total_take(s: Seq<ChunkView>, k: int)
    requires
        0 <= k < s.len(),
    ensures
        total_ms(s.take(k + 1)) == total_ms(s.take(k)) + s[k].duration_ms,
{
    assert(s.take(k + 1).drop_last() =~= s.take(k));
}

proof fn lemma_total_positive(s: Seq<ChunkView>)
    requires
        all_positive(s),
        s.len() > 0,
    ensures
        total_ms(s) > 0,
{
    assert(s.last().duration_ms > 0);
}

proof fn lemma_first_current(s: Seq<ChunkView>, generation: u32, k: int)
    requires
        0 <= k <= s.len(),
        forall|j: int| 0 <= j < k ==> #[trigger] s[j].session_generation != generation,
        k == s.len() || s[k].session_generation == generation,
    ensures
        first_current(s, generation) == k,
    decreases k,
{
    if k > 0 {
        assert(s[0].session_generation != generation);
        let t = s.drop_first();
        assert forall|j: int| 0 <= j < k - 1 implies #[trigger] t[j].session_generation != generation by {
            assert(t[j] == s[j + 1]);
        }
        lemma_first_current(t, generation, k - 1);
    }
}

proof fn lemma_acked(s: Seq<ChunkView>, sequence: u64, k: int)
    requires
        0 <= k <= s.len(),
        forall|j: int| 0 <= j < k ==> #[trigger] s[j].sequence < sequence,
        k == s.len() || s[k].sequence >= sequence,
    ensures
        acked_count(s, sequence) == k + if k < s.len() && s[k].sequence == sequence {
            1int
        } else {
            0int
        },
    decreases k,
{
    if k > 0 {
        assert(s[0].sequence < sequence);
        let t = s.drop_first();
        assert forall|j: int| 0 <= j < k - 1 implies #[trigger] t[j].sequence < sequence by {
            assert(t[j] == s[j + 1]);
        }
        lemma_acked(t, sequence, k - 1);
    }
}

proof fn lemma_position(s: Seq<ChunkView>, sequence: u64, k: int)
    requires
        0 <= k <= s.len(),
        forall|j: int| 0 <= j < k ==> #[trigger] s[j].sequence != sequence,
        k == s.len() || s[k].sequence == sequence,
    ensures
        position_of_sequence(s, sequence) == if k < s.len() {
            Some(k)
        } else {
            None::<int>
        },
    decreases k,
{
    if k > 0 {
        assert(s[0].sequence != sequence);
        let t = s.drop_first();
        assert forall|j: int| 0 <= j < k - 1 implies #[trigger] t[j].sequence != sequence by {
            assert(t[j] == s[j + 1]);
        }
        lemma_position(t, sequence, k - 1);
    }
}

impl SessionManager {
    pub closed spec fn collector(&self) -> AudioCollector {
        self.audio_collector
    }

    /// The accounted in-flight duration never exceeds the durations of the
    /// chunks in flight, and every queued chunk lasts a positive time.
    pub open spec fn wf(&self) -> bool {
        &&& self@.inflight_ms <= total_ms(self@.inflight)
        &&& all_positive(self@.pending)
        &&& all_positive(self@.inflight)
    }

    pub open spec fn backlog(&self) -> u32 {
        backlog_of(self@.pending, self@.inflight_ms, self.collector().buffered_ms())
    }

    pub fn new() -> (m: Self)
        ensures
            m@.state is Idle,
            m@.session_id is None,
            m@.folder is None,
            m@.manifest is None,
            m@.active_pipeline is None,
            m@.next_pipeline == 1,
            m@.flushed_total == 0,
            m@.generation == 0,
            m@.next_sequence == 1,
            m@.pending.len() == 0,
            m@.inflight.len() == 0,
            m@.inflight_ms == 0,
            m@.segments.len() == 0,
            m@.pending_segments.len() == 0,
            m@.capacity == 500,
            collector_state(m.collector()) == (Seq::<FrameView>::empty(), 0u32, 0usize, 0u32),
            m.collector().egress_policy() == (AudioEgressPolicy {
                target_chunk_ms: 100,
                max_chunk_bytes: 3200,
                silence_flush_ms: 250,
                max_inflight_ms: 800,
            }),
            m.collector().config() == (SilenceConfig { mic_threshold: 800, system_threshold: 800 }),
            m.wf(),
    {
        let m = SessionManager {
            state: SessionState::Idle,
            buffer: TranscriptBuffer::new(500),
            current_session_id: None,
            current_folder_path: None,
            manifest: None,
            active_pipeline_id: None,
            next_pipeline_id: 1,
            total_flushed: 0,
            session_generation: 0,
            next_audio_sequence: 1,
            pending_audio: VecDeque::new(),
            inflight_audio: VecDeque::new(),
            inflight_audio_ms: 0,
            audio_collector: AudioCollector::new(),
        };
        assert(chunk_views(m.pending_audio@) =~= Seq::<ChunkView>::empty());
        assert(chunk_views(m.inflight_audio@) =~= Seq::<ChunkView>::empty());
        assert(m.audio_collector.frames_view() =~= Seq::<FrameView>::empty());
        m
    }

    pub fn state(&self) -> (r: &SessionState)
        ensures
            *r == self@.state,
    {
        &self.state
    }

    /// Provider, source and target language of the paused session.
    pub fn resume_context(&self) -> (r: Result<(String, String, String), SessionError>)
        ensures
            !(self@.state is Paused) ==> r == Err::<(String, String, String), SessionError>(SessionError::NotPaused),
            self@.state is Paused && self@.manifest is None ==> r == Err::<(String, String, String), SessionError>(SessionError::MissingResumeManifest),
            self@.state is Paused && self@.manifest is Some ==> (r matches Ok((p, s, t))
                && p == self@.manifest->0.provider && s == self@.manifest->0.source_language
                && t == self@.manifest->0.target_language),
    {
        match &self.state {
            SessionState::Paused { .. } => {},
            _ => {
                return Err(SessionError::NotPaused);
            },
        }
        match &self.manifest {
            Some(m) => Ok((m.provider.clone(), m.source_language.clone(), m.target_language.clone())),
            None => Err(SessionError::MissingResumeManifest),
        }
    }

    /// The queued audio's duration, capped at `u32::MAX`.
    pub fn pending_audio_duration_ms(&self) -> (r: u32)
        ensures
            r == clamp_u32(total_ms(self@.pending) as int),
    {
        let ghost cv = chunk_views(self.pending_audio@);
        let mut sum: u32 = 0;
        let n = self.pending_audio.len();
        for i in 0..n
            invariant
                n == self.pending_audio@.len(),
                cv == chunk_views(self.pending_audio@),
                sum == clamp_u32(total_ms(cv.take(i as int)) as int),
        {
            proof {
                lemma_total_take(cv, i as int);
            }
            let d = self.pending_audio[i].duration_ms;
            sum = sum.saturating_add(d);
        }
        assert(cv.take(n as int) =~= cv);
        sum
    }

    pub fn pending_backlog_ms(&self) -> (r: u32)
        ensures
            r == self.backlog(),
    {
        self.pending_audio_duration_ms().saturating_add(self.inflight_audio_ms).saturating_add(
            self.audio_collector.buffered_duration_ms(),
        )
    }

    /// Whether all audio has been sent and acknowledged.
    pub fn is_drain_complete(&self) -> (r: bool)
        ensures
            r == (self@.pending.len() == 0 && self@.inflight_ms == 0 && self.collector().buffered_ms() == 0),
    {
        self.pending_audio.len() == 0 && self.inflight_audio_ms == 0
            && self.audio_collector.buffered_duration_ms() == 0
    }

    /// Brings the state in line with the audio backlog (see `with_backlog`).
    pub fn update_active_audio_state(&mut self)
        ensures
            final(self)@ == settled(old(self)@, old(self).collector().buffered_ms()),
            final(self).collector() == old(self).collector(),
    {
        let session_id = match &self.current_session_id {
            Some(id) => id.clone(),
            None => {
                return;
            },
        };
        let started_at: i128 = match &self.state {
            SessionState::Recording { started_at, .. } => *started_at,
            SessionState::Buffering { started_at, .. } => *started_at,
            SessionState::Reconnecting { started_at, .. } => *started_at,
            SessionState::Draining { started_at, .. } => *started_at,
            SessionState::Paused { started_at, .. } => *started_at,
            _ => {
                return;
            },
        };
        let backlog_ms = self.pending_backlog_ms();
        let session_generation = self.session_generation;
        let next = match &self.state {
            SessionState::Paused { .. } => SessionState::Paused { session_id, started_at },
            SessionState::Draining { .. } => SessionState::Draining { session_id, started_at, backlog_ms },
            SessionState::Reconnecting { .. } => SessionState::Reconnecting {
                session_id,
                started_at,
                backlog_ms,
                session_generation,
            },
            _ => if backlog_ms > 0 {
                SessionState::Buffering { session_id, started_at, backlog_ms, session_generation }
            } else {
                SessionState::Recording { session_id, started_at }
            },
        };
        self.state = next;
    }
}

impl SessionManager {
    /// Empties the queues and the collector's buffer.
    pub fn clear_audio_runtime_state(&mut self)
        ensures
            final(self)@ == (SessionView {
                pending: Seq::empty(),
                inflight: Seq::empty(),
                inflight_ms: 0,
                ..old(self)@
            }),
            collector_state(final(self).collector()) == (Seq::<FrameView>::empty(), 0u32, 0usize, 0u32),
            final(self).collector().config() == old(self).collector().config(),
            final(self).collector().egress_policy() == old(self).collector().egress_policy(),
            final(self).wf(),
    {
        self.pending_audio.clear();
        self.inflight_audio.clear();
        self.inflight_audio_ms = 0;
        self.audio_collector.clear();
        assert(chunk_views(self.pending_audio@) =~= Seq::<ChunkView>::empty());
        assert(chunk_views(self.inflight_audio@) =~= Seq::<ChunkView>::empty());
        assert(self.audio_collector.frames_view() =~= Seq::<FrameView>::empty());
    }

    /// Queues a flushed seed as the next chunk of `session_generation`; a
    /// seed without audio or of zero duration is dropped.
    pub fn push_pending_audio(&mut self, seed: PendingChunkSeed, session_generation: u32)
        ensures
            final(self)@ == with_seed(old(self)@, Some(seed@), session_generation),
            final(self).collector() == old(self).collector(),
            old(self).wf() ==> final(self).wf(),
    {
        if seed.pcm_bytes.len() == 0 || seed.duration_ms == 0 {
            return;
        }
        let ghost p0 = self.pending_audio@;
        let chunk = AudioChunk {
            sequence: self.next_audio_sequence,
            captured_at: seed.captured_at,
            duration_ms: seed.duration_ms,
            source: seed.source,
            session_generation,
            pcm_bytes: seed.pcm_bytes,
        };
        self.next_audio_sequence = self.next_audio_sequence.saturating_add(1);
        self.pending_audio.push_back(chunk);
        assert(chunk_views(self.pending_audio@) =~= chunk_views(p0).push(chunk@));
    }

    /// Adds a resampled frame to the collector, queues the chunk it
    /// completes, if any, and brings the state in line with the backlog.
    pub fn enqueue_resampled_audio(&mut self, frame: ResampledAudioFrame, session_generation: u32)
        ensures
            final(self)@ == settled(
                with_seed(old(self)@, push_result(old(self).collector(), frame@), session_generation),
                pushed_state(old(self).collector(), frame@).1,
            ),
            collector_state(final(self).collector()) == pushed_state(old(self).collector(), frame@),
            final(self).collector().config() == old(self).collector().config(),
            final(self).collector().egress_policy() == old(self).collector().egress_policy(),
            old(self).wf() ==> final(self).wf(),
    {
        let ghost fv = frame@;
        let r = self.audio_collector.push(frame);
        match r {
            Some(seed) => {
                self.push_pending_audio(seed, session_generation);
            },
            None => {},
        }
        self.update_active_audio_state();
    }

    /// Queues whatever the collector still buffers, at the end of the
    /// stream, and brings the state in line with the backlog.
    pub fn flush_audio_tail(&mut self, session_generation: u32)
        ensures
            final(self)@ == tail_flushed(old(self)@, old(self).collector(), session_generation),
            collector_state(final(self).collector()) == after_tail(old(self).collector()),
            final(self).collector().config() == old(self).collector().config(),
            final(self).collector().egress_policy() == old(self).collector().egress_policy(),
            old(self).wf() ==> final(self).wf(),
    {
        let r = self.audio_collector.flush_tail();
        match r {
            Some(seed) => {
                self.push_pending_audio(seed, session_generation);
            },
            None => {},
        }
        self.update_active_audio_state();
    }
}

impl SessionManager {
    /// Puts the audio in flight back at the front of the queue, in order.
    pub fn restore_inflight_to_pending(&mut self)
        ensures
            final(self)@ == restored(old(self)@, old(self).collector().buffered_ms()),
            final(self).collector() == old(self).collector(),
            old(self).wf() ==> final(self).wf() && final(self)@.inflight_ms == 0,
    {
        let ghost v0 = self@;
        let ghost i0 = self@.inflight;
        let ghost p0 = self@.pending;
        let ghost ms0 = self.inflight_audio_ms;
        let ghost n0 = i0.len();
        assert(i0.skip(n0 as int) =~= Seq::<ChunkView>::empty());
        assert(i0.take(n0 as int) =~= i0);
        assert(Seq::<ChunkView>::empty() + p0 =~= p0);
        while self.inflight_audio.len() > 0
            invariant
                self.inflight_audio@.len() <= n0,
                chunk_views(self.inflight_audio@) == i0.take(self.inflight_audio@.len() as int),
                chunk_views(self.pending_audio@) == i0.skip(self.inflight_audio@.len() as int) + p0,
                self.inflight_audio_ms == sub_ms(ms0, i0.skip(self.inflight_audio@.len() as int)),
                n0 == i0.len(),
                self@ == (SessionView {
                    pending: self@.pending,
                    inflight: self@.inflight,
                    inflight_ms: self@.inflight_ms,
                    ..v0
                }),
                self.audio_collector == old(self).audio_collector,
            decreases self.inflight_audio@.len(),
        {
            let ghost m = self.inflight_audio@.len() as int;
            let ghost pend = self.pending_audio@;
            let chunk = self.inflight_audio.pop_back().unwrap();
            proof {
                assert(i0.take(m)[m - 1] == chunk@);
                assert(i0[m - 1] == chunk@);
                let sfx = i0.skip(m - 1);
                assert(sfx.drop_first() =~= i0.skip(m));
                assert(sfx[0] == chunk@);
                lemma_total_front(sfx);
                assert(chunk_views(self.inflight_audio@) =~= i0.take(m - 1));
            }
            self.inflight_audio_ms = self.inflight_audio_ms.saturating_sub(chunk.duration_ms);
            self.pending_audio.push_front(chunk);
            proof {
                assert(chunk_views(self.pending_audio@) =~= seq![chunk@] + chunk_views(pend));
                assert(seq![chunk@] + (i0.skip(m) + p0) =~= i0.skip(m - 1) + p0);
            }
        }
        proof {
            assert(chunk_views(self.inflight_audio@) =~= Seq::<ChunkView>::empty());
            assert(i0.skip(0) =~= i0);
            if v0.inflight_ms <= total_ms(v0.inflight) && all_positive(v0.pending) && all_positive(v0.inflight) {
                assert forall|j: int| 0 <= j < self@.pending.len() implies #[trigger] self@.pending[j].duration_ms > 0 by {
                    if j < i0.len() {
                        assert(self@.pending[j] == i0[j]);
                    } else {
                        assert(self@.pending[j] == p0[j - i0.len()]);
                    }
                }
            }
        }
        self.update_active_audio_state();
    }

    /// The next chunk to send on `pipeline_id`, moved from the queue to the
    /// audio in flight. Nothing is sent for another pipeline or while the
    /// audio in flight reaches the limit; queued chunks of an older
    /// generation at the front are dropped on the way.
    pub fn take_next_dispatchable_chunk(&mut self, pipeline_id: u64) -> (r: Option<AudioChunk>)
        ensures
            ({
                let v = old(self)@;
                let k = first_current(v.pending, v.generation);
                if v.active_pipeline != Some(pipeline_id) || v.inflight_ms
                    >= old(self).collector().egress_policy().max_inflight_ms {
                    r is None && final(self)@ == v
                } else if k == v.pending.len() {
                    r is None && final(self)@ == (SessionView { pending: Seq::empty(), ..v })
                } else {
                    &&& r is Some
                    &&& r->0@ == v.pending[k as int]
                    &&& final(self)@ == settled(
                        SessionView {
                            pending: v.pending.skip(k as int + 1),
                            inflight: v.inflight.push(v.pending[k as int]),
                            inflight_ms: sat_add_u32(v.inflight_ms, v.pending[k as int].duration_ms),
                            ..v
                        },
                        old(self).collector().buffered_ms(),
                    )
                }
            }),
            r matches Some(c) ==> c.session_generation == old(self)@.generation,
            final(self).collector() == old(self).collector(),
            old(self).wf() ==> final(self).wf(),
    {
        match self.active_pipeline_id {
            Some(id) => {
                if id != pipeline_id {
                    return None;
                }
            },
            None => {
                return None;
            },
        }
        let max_inflight_ms = self.audio_collector.max_inflight_ms();
        if self.inflight_audio_ms >= max_inflight_ms {
            return None;
        }
        let ghost v0 = self@;
        let ghost p0 = self@.pending;
        let ghost mut k: int = 0;
        assert(p0.skip(0) =~= p0);
        while self.pending_audio.len() > 0
            invariant
                0 <= k <= p0.len(),
                p0 == v0.pending,
                chunk_views(self.pending_audio@) == p0.skip(k),
                forall|j: int| 0 <= j < k ==> #[trigger] p0[j].session_generation != v0.generation,
                self@ == (SessionView { pending: self@.pending, ..v0 }),
                self.audio_collector == old(self).audio_collector,
                self.inflight_audio_ms < max_inflight_ms,
                max_inflight_ms == self.audio_collector.egress_policy().max_inflight_ms,
                v0 == old(self)@,
                v0.active_pipeline == Some(pipeline_id),
            decreases p0.len() - k,
        {
            let ghost pend = self.pending_audio@;
            proof {
                assert(chunk_views(pend).len() == pend.len());
                assert(chunk_views(pend)[0] == pend[0]@);
                assert(k < p0.len());
                assert(p0.skip(k)[0] == p0[k]);
            }
            let chunk = self.pending_audio.pop_front().unwrap();
            proof {
                assert(chunk@ == p0[k]);
                lemma_views_subrange(pend, 1, pend.len() as int);
                assert(p0.skip(k).subrange(1, p0.len() - k) =~= p0.skip(k + 1));
            }
            if chunk.session_generation != self.session_generation {
                proof {
                    k = k + 1;
                }
                continue;
            }
            proof {
                lemma_first_current(p0, v0.generation, k);
            }
            let ghost inf = self.inflight_audio@;
            self.inflight_audio_ms = self.inflight_audio_ms.saturating_add(chunk.duration_ms);
            let copy = chunk.duplicate();
            self.inflight_audio.push_back(chunk);
            proof {
                assert(chunk_views(self.inflight_audio@) =~= chunk_views(inf).push(copy@));
                if old(self).wf() {
                    assert(chunk_views(inf).push(copy@).drop_last() =~= chunk_views(inf));
                    assert forall|j: int| 0 <= j < self@.pending.len() implies #[trigger] self@.pending[j].duration_ms > 0 by {
                        assert(self@.pending[j] == p0[j + k + 1]);
                    }
                }
            }
            self.update_active_audio_state();
            return Some(copy);
        }
        proof {
            lemma_first_current(p0, v0.generation, k);
            assert(chunk_views(self.pending_audio@) =~= Seq::<ChunkView>::empty());
        }
        None
    }

    /// Puts a chunk whose sending failed back at the front of the queue.
    pub fn requeue_failed_dispatch(&mut self, chunk: AudioChunk)
        ensures
            ({
                let v = old(self)@;
                match position_of_sequence(v.inflight, chunk.sequence) {
                    Some(i) => final(self)@ == settled(
                        SessionView {
                            inflight: v.inflight.remove(i),
                            inflight_ms: if v.inflight_ms >= v.inflight[i].duration_ms {
                                (v.inflight_ms - v.inflight[i].duration_ms) as u32
                            } else {
                                0
                            },
                            pending: seq![v.inflight[i]] + v.pending,
                            ..v
                        },
                        old(self).collector().buffered_ms(),
                    ),
                    None => final(self)@ == settled(v, old(self).collector().buffered_ms()),
                }
            }),
            final(self).collector() == old(self).collector(),
            old(self).wf() ==> final(self).wf(),
    {
        let ghost v0 = self@;
        let ghost i0 = self@.inflight;
        let n = self.inflight_audio.len();
        let mut i: usize = 0;
        while i < n && self.inflight_audio[i].sequence != chunk.sequence
            invariant
                n == self.inflight_audio@.len(),
                i0 == chunk_views(self.inflight_audio@),
                self@ == v0,
                i <= n,
                forall|j: int| 0 <= j < i ==> #[trigger] i0[j].sequence != chunk.sequence,
            decreases n - i,
        {
            proof {
                assert(i0[i as int] == self.inflight_audio@[i as int]@);
            }
            i += 1;
        }
        proof {
            if i < n {
                assert(i0[i as int] == self.inflight_audio@[i as int]@);
            }
        }
        proof {
            lemma_position(i0, chunk.sequence, i as int);
        }
        if i < n {
            let ghost inf = self.inflight_audio@;
            let ghost pend = self.pending_audio@;
            let removed = self.inflight_audio.remove(i).unwrap();
            self.inflight_audio_ms = self.inflight_audio_ms.saturating_sub(removed.duration_ms);
            self.pending_audio.push_front(removed);
            proof {
                assert(chunk_views(self.inflight_audio@) =~= i0.remove(i as int));
                assert(chunk_views(self.pending_audio@) =~= seq![i0[i as int]] + chunk_views(pend));
                if old(self).wf() {
                    let a = i0.take(i as int);
                    let b = i0.skip(i as int + 1);
                    assert(i0 =~= a + (seq![i0[i as int]] + b));
                    assert(i0.remove(i as int) =~= a + b);
                    lemma_total_concat(a, seq![i0[i as int]] + b);
                    lemma_total_concat(seq![i0[i as int]], b);
                    lemma_total_concat(a, b);
                    lemma_total_front(seq![i0[i as int]] + b);
                    assert((seq![i0[i as int]] + b).drop_first() =~= b);
                    assert forall|j: int| 0 <= j < self@.pending.len() implies #[trigger] self@.pending[j].duration_ms > 0 by {
                        if j > 0 {
                            assert(self@.pending[j] == v0.pending[j - 1]);
                        }
                    }
                    assert forall|j: int| 0 <= j < self@.inflight.len() implies #[trigger] self@.inflight[j].duration_ms > 0 by {
                        if j < i {
                            assert(self@.inflight[j] == i0[j]);
                        } else {
                            assert(self@.inflight[j] == i0[j + 1]);
                        }
                    }
                }
            }
        }
        self.update_active_audio_state();
    }

    /// Settles the audio in flight up to an acknowledged sequence number
    /// (see `acked_count`).
    pub fn mark_audio_sent(&mut self, sequence: u64)
        ensures
            ({
                let v = old(self)@;
                let n = acked_count(v.inflight, sequence);
                final(self)@ == settled(
                    SessionView {
                        inflight: v.inflight.skip(n as int),
                        inflight_ms: sub_ms(v.inflight_ms, v.inflight.take(n as int)),
                        ..v
                    },
                    old(self).collector().buffered_ms(),
                )
            }),
            acked_count(old(self)@.inflight, sequence) <= old(self)@.inflight.len(),
            final(self).collector() == old(self).collector(),
            old(self).wf() ==> final(self).wf(),
    {
        let ghost v0 = self@;
        let ghost i0 = self@.inflight;
        let ghost ms0 = self.inflight_audio_ms;
        let ghost mut k: int = 0;
        assert(i0.skip(0) =~= i0);
        assert(i0.take(0) =~= Seq::<ChunkView>::empty());
        while self.inflight_audio.len() > 0 && self.inflight_audio[0].sequence < sequence
            invariant
                0 <= k <= i0.len(),
                i0 == v0.inflight,
                chunk_views(self.inflight_audio@) == i0.skip(k),
                forall|j: int| 0 <= j < k ==> #[trigger] i0[j].sequence < sequence,
                self.inflight_audio_ms == sub_ms(ms0, i0.take(k)),
                ms0 == v0.inflight_ms,
                self@ == (SessionView { inflight: self@.inflight, inflight_ms: self@.inflight_ms, ..v0 }),
                self.audio_collector == old(self).audio_collector,
                v0 == old(self)@,
            decreases i0.len() - k,
        {
            let ghost inf = self.inflight_audio@;
            proof {
                assert(chunk_views(inf).len() == inf.len());
                assert(chunk_views(inf)[0] == inf[0]@);
                assert(k < i0.len());
                assert(i0.skip(k)[0] == i0[k]);
            }
            let removed = self.inflight_audio.pop_front().unwrap();
            proof {
                assert(removed@ == i0[k]);
                lemma_total_take(i0, k);
                lemma_views_subrange(inf, 1, inf.len() as int);
                assert(i0.skip(k).subrange(1, i0.len() - k) =~= i0.skip(k + 1));
            }
            self.inflight_audio_ms = self.inflight_audio_ms.saturating_sub(removed.duration_ms);
            proof {
                k = k + 1;
            }
        }
        if self.inflight_audio.len() > 0 && self.inflight_audio[0].sequence == sequence {
            let ghost inf = self.inflight_audio@;
            proof {
                assert(chunk_views(inf).len() == inf.len());
                assert(chunk_views(inf)[0] == inf[0]@);
                assert(k < i0.len());
                assert(i0.skip(k)[0] == i0[k]);
            }
            let removed = self.inflight_audio.pop_front().unwrap();
            proof {
                assert(removed@ == i0[k]);
                lemma_total_take(i0, k);
                lemma_views_subrange(inf, 1, inf.len() as int);
                assert(i0.skip(k).subrange(1, i0.len() - k) =~= i0.skip(k + 1));
            }
            self.inflight_audio_ms = self.inflight_audio_ms.saturating_sub(removed.duration_ms);
            proof {
                lemma_acked(i0, sequence, k);
                k = k + 1;
            }
        } else {
            proof {
                if k < i0.len() {
                    assert(i0.skip(k)[0] == i0[k]);
                }
                lemma_acked(i0, sequence, k);
            }
        }
        proof {
            if old(self).wf() {
                assert(i0 =~= i0.take(k) + i0.skip(k));
                lemma_total_concat(i0.take(k), i0.skip(k));
                assert forall|j: int| 0 <= j < self@.inflight.len() implies #[trigger] self@.inflight[j].duration_ms > 0 by {
                    assert(self@.inflight[j] == i0[j + k]);
                }
            }
        }
        self.update_active_audio_state();
    }
}

/// The state after a runtime error is settled: paused in the session the
/// state belonged to (see `session_identity`), or unchanged without one.
pub open spec fn settled_error(v: SessionView, now: i128, after: SessionView) -> bool {
    match session_identity(v, now) {
        Some((id, started)) => after == (SessionView {
            state: SessionState::Paused { session_id: id, started_at: started },
            ..v
        }),
        None => after == v,
    }
}

/// A new session's state: connecting, with its id, folder and manifest,
/// counters reset and queues and transcript emptied.
pub open spec fn started(v: SessionView, session_id: String, folder: String, manifest: SessionManifest) -> SessionView {
    SessionView {
        state: SessionState::Connecting,
        session_id: Some(session_id),
        folder: Some(folder),
        manifest: Some(manifest),
        flushed_total: 0,
        generation: 0,
        next_sequence: 1,
        pending: Seq::empty(),
        inflight: Seq::empty(),
        segments: Seq::empty(),
        pending_segments: Seq::empty(),
        ..v
    }
}

impl SessionManager {
    /// Starts a session now (see `prepare_start_at`).
    pub fn prepare_start(&mut self, session_id: String, folder_path: String, manifest: SessionManifest) -> (r: Result<
        StartSessionContext,
        SessionError,
    >)
        ensures
            !(old(self)@.state is Idle) ==> r is Err && r->Err_0 == SessionError::NotIdle && final(self)@ == old(self)@
                && final(self).collector() == old(self).collector(),
            old(self)@.state is Idle ==> ({
                &&& r is Ok
                &&& r->Ok_0.session_id == session_id
                &&& r->Ok_0.folder_path == folder_path
                &&& final(self)@ == started(old(self)@, session_id, folder_path, manifest)
                &&& cleared_collector(old(self).collector(), final(self).collector())
                &&& final(self).wf() == (old(self)@.inflight_ms == 0)
            }),
    {
        let started_at = crate::clock::utc_now_nanos();
        self.prepare_start_at(session_id, folder_path, manifest, started_at)
    }

    /// Starts a session in `folder_path` when idle: connecting, with the
    /// new session's id, folder and manifest, counters reset and queues,
    /// collector and transcript emptied; the session counts as started at
    /// `started_at`.
    pub fn prepare_start_at(
        &mut self,
        session_id: String,
        folder_path: String,
        manifest: SessionManifest,
        started_at: i128,
    ) -> (r: Result<StartSessionContext, SessionError>)
        ensures
            !(old(self)@.state is Idle) ==> r is Err && r->Err_0 == SessionError::NotIdle && final(self)@ == old(self)@
                && final(self).collector() == old(self).collector(),
            old(self)@.state is Idle ==> ({
                &&& r is Ok
                &&& r->Ok_0.session_id == session_id
                &&& r->Ok_0.folder_path == folder_path
                &&& r->Ok_0.started_at == started_at
                &&& final(self)@ == started(old(self)@, session_id, folder_path, manifest)
                &&& cleared_collector(old(self).collector(), final(self).collector())
                &&& final(self).wf() == (old(self)@.inflight_ms == 0)
            }),
    {
        match &self.state {
            SessionState::Idle => {},
            _ => {
                return Err(SessionError::NotIdle);
            },
        }
        self.state = SessionState::Connecting;
        self.current_session_id = Some(session_id.clone());
        self.current_folder_path = Some(folder_path.clone());
        self.manifest = Some(manifest);
        self.total_flushed = 0;
        self.session_generation = 0;
        self.next_audio_sequence = 1;
        self.pending_audio.clear();
        self.inflight_audio.clear();
        self.audio_collector.clear();
        self.buffer.clear();
        assert(chunk_views(self.pending_audio@) =~= Seq::<ChunkView>::empty());
        assert(chunk_views(self.inflight_audio@) =~= Seq::<ChunkView>::empty());
        assert(self.audio_collector.frames_view() =~= Seq::<FrameView>::empty());
        Ok(StartSessionContext { session_id, folder_path, started_at })
    }

    /// Takes over for a new pipeline: the next pipeline id and generation,
    /// the audio in flight back in the queue, and the collector configured
    /// with the silence thresholds and the policy for the chunk duration.
    pub fn prepare_streaming_pipeline(
        &mut self,
        mic_silence_threshold: i16,
        system_silence_threshold: i16,
        chunk_duration_ms: u32,
    ) -> (r: (u64, u32))
        requires
            old(self)@.next_pipeline < u64::MAX,
        ensures
            r == (old(self)@.next_pipeline, next_generation(old(self)@.generation)),
            final(self)@ == with_pipeline(old(self)@, old(self).collector().buffered_ms()),
            collector_state(final(self).collector()) == collector_state(old(self).collector()),
            final(self).collector().config() == (SilenceConfig {
                mic_threshold: mic_silence_threshold,
                system_threshold: system_silence_threshold,
            }),
            final(self).collector().egress_policy() == policy_for(chunk_duration_ms),
            old(self).wf() ==> final(self).wf(),
    {
        let pipeline_id = self.next_pipeline_id;
        self.next_pipeline_id = self.next_pipeline_id + 1;
        self.session_generation = self.session_generation.saturating_add(1);
        let session_generation = self.session_generation;
        self.active_pipeline_id = Some(pipeline_id);
        self.restore_inflight_to_pending();
        self.audio_collector.configure(
            SilenceConfig { mic_threshold: mic_silence_threshold, system_threshold: system_silence_threshold },
            AudioEgressPolicy::from_chunk_duration_ms(chunk_duration_ms),
        );
        (pipeline_id, session_generation)
    }

    /// Resumes a paused session in its folder with a new pipeline.
    pub fn prepare_resume(
        &mut self,
        mic_silence_threshold: i16,
        system_silence_threshold: i16,
        chunk_duration_ms: u32,
    ) -> (r: Result<(StartSessionContext, u64, u32), SessionError>)
        requires
            old(self)@.next_pipeline < u64::MAX,
        ensures
            !(old(self)@.state is Paused) ==> r is Err && r->Err_0 == SessionError::NotPaused
                && final(self)@ == old(self)@ && final(self).collector() == old(self).collector(),
            old(self)@.state is Paused && old(self)@.folder is None ==> r is Err && r->Err_0
                == SessionError::MissingResumeFolder && final(self)@ == old(self)@ && final(self).collector()
                == old(self).collector(),
            old(self)@.state is Paused && old(self)@.folder is Some ==> ({
                &&& r is Ok
                &&& r->Ok_0.0.session_id == old(self)@.state->Paused_session_id
                &&& r->Ok_0.0.started_at == old(self)@.state->Paused_started_at
                &&& r->Ok_0.0.folder_path == old(self)@.folder->0
                &&& r->Ok_0.1 == old(self)@.next_pipeline
                &&& r->Ok_0.2 == next_generation(old(self)@.generation)
                &&& final(self)@ == with_pipeline(old(self)@, old(self).collector().buffered_ms())
                &&& collector_state(final(self).collector()) == collector_state(old(self).collector())
                &&& final(self).collector().config() == (SilenceConfig {
                    mic_threshold: mic_silence_threshold,
                    system_threshold: system_silence_threshold,
                })
                &&& final(self).collector().egress_policy() == policy_for(chunk_duration_ms)
            }),
            old(self).wf() ==> final(self).wf(),
    {
        let (session_id, started_at) = match &self.state {
            SessionState::Paused { session_id, started_at } => (session_id.clone(), *started_at),
            _ => {
                return Err(SessionError::NotPaused);
            },
        };
        let folder_path = match &self.current_folder_path {
            Some(f) => f.clone(),
            None => {
                return Err(SessionError::MissingResumeFolder);
            },
        };
        let context = StartSessionContext { session_id, folder_path, started_at };
        let (pipeline_id, session_generation) = self.prepare_streaming_pipeline(
            mic_silence_threshold,
            system_silence_threshold,
            chunk_duration_ms,
        );
        Ok((context, pipeline_id, session_generation))
    }

    /// Completes a start: recording in the started session, unless another
    /// start or a stop superseded it.
    pub fn finalize_start(&mut self, context: &StartSessionContext) -> (r: Result<String, SessionError>)
        ensures
            !can_finalize(old(self)@, context.session_id@) ==> r is Err && r->Err_0 == SessionError::StartSuperseded
                && final(self)@ == old(self)@,
            can_finalize(old(self)@, context.session_id@) ==> r is Ok && r->Ok_0 == context.session_id
                && final(self)@ == (SessionView {
                state: SessionState::Recording {
                    session_id: context.session_id,
                    started_at: context.started_at,
                },
                ..old(self)@
            }),
            final(self).collector() == old(self).collector(),
            old(self).wf() ==> final(self).wf(),
    {
        let same_session = match &self.current_session_id {
            Some(id) => str_eq(id.as_str(), context.session_id.as_str()),
            None => false,
        };
        let can = match &self.state {
            SessionState::Connecting => true,
            SessionState::Paused { session_id, .. } => str_eq(session_id.as_str(), context.session_id.as_str()),
            _ => false,
        };
        if !can || !same_session {
            return Err(SessionError::StartSuperseded);
        }
        self.state = SessionState::Recording {
            session_id: context.session_id.clone(),
            started_at: context.started_at,
        };
        Ok(context.session_id.clone())
    }

    /// Abandons a failed start: no session, counters reset, queues,
    /// collector and transcript emptied, idle.
    pub fn rollback_failed_start(&mut self)
        ensures
            final(self)@ == reset(old(self)@),
            cleared_collector(old(self).collector(), final(self).collector()),
            final(self).wf(),
    {
        self.active_pipeline_id = None;
        self.current_session_id = None;
        self.current_folder_path = None;
        self.manifest = None;
        self.total_flushed = 0;
        self.session_generation = 0;
        self.next_audio_sequence = 1;
        self.clear_audio_runtime_state();
        self.buffer.clear();
        self.state = SessionState::Idle;
    }

    /// Abandons the start of `context` if it is still the current session;
    /// tells whether it did.
    pub fn rollback_prepared_start(&mut self, context: &StartSessionContext) -> (r: bool)
        ensures
            r == (old(self)@.session_id is Some && old(self)@.session_id->0@ == context.session_id@),
            r ==> final(self)@ == reset(old(self)@) && cleared_collector(old(self).collector(), final(self).collector()),
            !r ==> final(self)@ == old(self)@ && final(self).collector() == old(self).collector(),
            old(self).wf() ==> final(self).wf(),
    {
        let same_session = match &self.current_session_id {
            Some(id) => str_eq(id.as_str(), context.session_id.as_str()),
            None => false,
        };
        if !same_session {
            return false;
        }
        self.rollback_failed_start();
        true
    }

    /// Halts the pipeline to pause: the tail is flushed, no pipeline is
    /// active, and the audio in flight goes back to the queue. Gives the
    /// session to pause; refused unless recording, buffering or
    /// reconnecting.
    pub fn begin_pause(&mut self) -> (r: Result<(String, i128), SessionError>)
        ensures
            running_identity(old(self)@.state) is None ==> r is Err && r->Err_0 == SessionError::NotRecording
                && final(self)@ == old(self)@ && final(self).collector() == old(self).collector(),
            running_identity(old(self)@.state) is Some ==> r is Ok && r->Ok_0 == running_identity(old(self)@.state)->0
                && final(self)@ == halted(old(self)@, old(self).collector())
                && tail_collector(old(self).collector(), final(self).collector()),
            old(self).wf() ==> final(self).wf(),
    {
        let identity = match &self.state {
            SessionState::Recording { session_id, started_at } => (session_id.clone(), *started_at),
            SessionState::Buffering { session_id, started_at, .. } => (session_id.clone(), *started_at),
            SessionState::Reconnecting { session_id, started_at, .. } => (session_id.clone(), *started_at),
            _ => {
                return Err(SessionError::NotRecording);
            },
        };
        self.halt_pipeline();
        Ok(identity)
    }

    fn halt_pipeline(&mut self)
        ensures
            final(self)@ == halted(old(self)@, old(self).collector()),
            tail_collector(old(self).collector(), final(self).collector()),
            old(self).wf() ==> final(self).wf(),
    {
        let session_generation = self.session_generation;
        self.flush_audio_tail(session_generation);
        self.active_pipeline_id = None;
        self.restore_inflight_to_pending();
    }

    /// Completes a pause once the pending segments are persisted.
    pub fn finish_pause(&mut self, session_id: String, started_at: i128)
        ensures
            final(self)@ == (SessionView { state: SessionState::Paused { session_id, started_at }, ..old(self)@ }),
            final(self).collector() == old(self).collector(),
            old(self).wf() ==> final(self).wf(),
    {
        self.state = SessionState::Paused { session_id, started_at };
    }

    /// The finalized segments waiting to be written, which leave the buffer.
    pub fn take_pending_segments(&mut self) -> (r: Vec<TranscriptSegment>)
        ensures
            views_of(r@) == old(self)@.pending_segments,
            final(self)@ == (SessionView { pending_segments: Seq::empty(), ..old(self)@ }),
            final(self).collector() == old(self).collector(),
            old(self).wf() ==> final(self).wf(),
    {
        self.buffer.take_pending()
    }

    /// Puts back segments whose writing failed, ahead of those queued since.
    pub fn restore_pending_segments(&mut self, segments: Vec<TranscriptSegment>)
        ensures
            final(self)@ == (SessionView {
                pending_segments: views_of(segments@) + old(self)@.pending_segments,
                ..old(self)@
            }),
            final(self).collector() == old(self).collector(),
            old(self).wf() ==> final(self).wf(),
    {
        self.buffer.restore_pending(segments);
    }

    /// Where pending segments go: the session folder and the file of the
    /// active (last) part, or why they cannot be written.
    pub fn persistence_target(&self) -> (r: Result<(String, String), SessionError>)
        ensures
            match (self@.folder, self@.manifest) {
                (Some(f), Some(m)) => if m.parts@.len() == 0 {
                    r == Err::<(String, String), SessionError>(SessionError::NoActivePart)
                } else {
                    r == Ok::<(String, String), SessionError>((f, m.parts@.last().file))
                },
                (None, None) => r == Err::<(String, String), SessionError>(SessionError::MissingFolderAndManifest),
                (None, Some(_)) => r == Err::<(String, String), SessionError>(SessionError::MissingFolder),
                (Some(_), None) => r == Err::<(String, String), SessionError>(SessionError::MissingManifest),
            },
    {
        match (&self.current_folder_path, &self.manifest) {
            (Some(f), Some(m)) => {
                let n = m.parts.len();
                if n == 0 {
                    Err(SessionError::NoActivePart)
                } else {
                    Ok((f.clone(), m.parts[n - 1].file.clone()))
                }
            },
            (None, None) => Err(SessionError::MissingFolderAndManifest),
            (None, Some(_)) => Err(SessionError::MissingFolder),
            (Some(_), None) => Err(SessionError::MissingManifest),
        }
    }

    /// Records `count` segments written to the active part (see
    /// `storage_model::appended`) and in the session's total; tells whether
    /// the part is now full.
    pub fn record_persisted(&mut self, count: u32) -> (full: bool)
        requires
            old(self)@.manifest is Some,
            old(self)@.manifest->0.parts@.len() > 0,
            old(self)@.manifest->0.parts@.last().segments + count <= u32::MAX,
            old(self)@.flushed_total + count <= u32::MAX,
        ensures
            final(self)@.manifest is Some,
            appended(old(self)@.manifest->0, final(self)@.manifest->0, count),
            full == (old(self)@.manifest->0.parts@.last().segments + count >= crate::storage_model::part_capacity()),
            final(self)@ == (SessionView {
                manifest: final(self)@.manifest,
                flushed_total: (old(self)@.flushed_total + count) as u32,
                ..old(self)@
            }),
            final(self).collector() == old(self).collector(),
            old(self).wf() ==> final(self).wf(),
    {
        let mut manifest = self.manifest.take().unwrap();
        let full = record_appended(&mut manifest, count);
        self.manifest = Some(manifest);
        self.total_flushed = self.total_flushed + count;
        full
    }

    /// Marks the active part completed once its file is sealed (see
    /// `storage_model::part_completed`); gives its file and segment count,
    /// or nothing without a manifest or a part.
    pub fn complete_active_part(&mut self) -> (r: Option<(String, u32)>)
        ensures
            match old(self)@.manifest {
                Some(m) => if m.parts@.len() > 0 {
                    &&& r == Some((m.parts@.last().file, m.parts@.last().segments))
                    &&& final(self)@.manifest is Some
                    &&& part_completed(m, final(self)@.manifest->0)
                    &&& final(self)@ == (SessionView { manifest: final(self)@.manifest, ..old(self)@ })
                } else {
                    r is None && final(self)@ == old(self)@
                },
                None => r is None && final(self)@ == old(self)@,
            },
            final(self).collector() == old(self).collector(),
            old(self).wf() ==> final(self).wf(),
    {
        match self.manifest.take() {
            Some(mut m) => {
                if m.parts.len() == 0 {
                    self.manifest = Some(m);
                    return None;
                }
                let r = complete_active_part(&mut m);
                self.manifest = Some(m);
                Some(r)
            },
            None => None,
        }
    }

    /// The index and file name of the part to start after the last one, or
    /// nothing without a manifest.
    pub fn next_part(&self) -> (r: Option<(usize, String)>)
        requires
            self@.manifest matches Some(m) ==> m.parts@.len() < usize::MAX,
        ensures
            match self@.manifest {
                Some(m) => r matches Some((i, f)) && i == m.parts@.len() + 1 && f@
                    == crate::storage_model::part_file_name_spec((m.parts@.len() + 1) as nat),
                None => r is None,
            },
    {
        match &self.manifest {
            Some(m) => Some(next_part(m)),
            None => None,
        }
    }

    /// Adds a new active part in `file` once the file is created (see
    /// `storage_model::part_added`); nothing happens without a manifest.
    pub fn add_active_part(&mut self, file: String)
        ensures
            match old(self)@.manifest {
                Some(m) => final(self)@.manifest is Some && part_added(m, final(self)@.manifest->0, file)
                    && final(self)@ == (SessionView { manifest: final(self)@.manifest, ..old(self)@ }),
                None => final(self)@ == old(self)@,
            },
            final(self).collector() == old(self).collector(),
            old(self).wf() ==> final(self).wf(),
    {
        match self.manifest.take() {
            Some(mut m) => {
                add_active_part(&mut m, file);
                self.manifest = Some(m);
            },
            None => {},
        }
    }

    /// Upserts the segments in order; tells whether any is final, in which
    /// case the pending segments are due to be written.
    pub fn on_transcript_update(&mut self, segments: Vec<TranscriptSegment>) -> (r: bool)
        ensures
            r == exists|i: int| 0 <= i < segments@.len() && #[trigger] segments@[i].is_final,
            (final(self)@.segments, final(self)@.pending_segments) == upserted_all(
                old(self)@.segments,
                old(self)@.pending_segments,
                old(self)@.capacity,
                views_of(segments@),
            ),
            final(self)@ == (SessionView {
                segments: final(self)@.segments,
                pending_segments: final(self)@.pending_segments,
                ..old(self)@
            }),
            final(self).collector() == old(self).collector(),
            old(self).wf() ==> final(self).wf(),
    {
        let ghost v0 = self@;
        let ghost incoming = views_of(segments@);
        let mut any_final = false;
        let n = segments.len();
        for i in 0..n
            invariant
                n == segments@.len(),
                incoming == views_of(segments@),
                any_final == exists|j: int| 0 <= j < i && #[trigger] segments@[j].is_final,
                (self@.segments, self@.pending_segments) == upserted_all(
                    v0.segments,
                    v0.pending_segments,
                    v0.capacity,
                    incoming.take(i as int),
                ),
                self@ == (SessionView {
                    segments: self@.segments,
                    pending_segments: self@.pending_segments,
                    ..v0
                }),
                self.audio_collector == old(self).audio_collector,
                v0 == old(self)@,
        {
            let seg = segments[i].duplicate();
            if seg.is_final {
                any_final = true;
            }
            proof {
                assert(incoming.take(i + 1).drop_last() =~= incoming.take(i as int));
                assert(incoming.take(i + 1).last() == seg@);
            }
            self.buffer.upsert(seg);
        }
        assert(incoming.take(n as int) =~= incoming);
        any_final
    }

    /// The transcript, oldest first.
    pub fn snapshot(&self) -> (r: Vec<TranscriptSegment>)
        ensures
            views_of(r@) == self@.segments,
    {
        self.buffer.snapshot()
    }

    /// What the streaming loop of pipeline `pipeline_id` does with its next
    /// input (see `loop_step`).
    pub fn streaming_step(&self, pipeline_id: u64, token_cancelled: bool, input: LoopInput) -> (r: LoopAction)
        ensures
            r == loop_step(!token_cancelled && self@.active_pipeline == Some(pipeline_id), input),
    {
        let active = self.is_pipeline_active(pipeline_id, token_cancelled);
        match input {
            LoopInput::EventsClosed | LoopInput::Finished => LoopAction::Stop,
            LoopInput::Update { has_segment } => {
                if !has_segment {
                    LoopAction::Skip
                } else if active {
                    LoopAction::Apply
                } else {
                    LoopAction::Stop
                }
            },
            LoopInput::ServiceError => {
                if active {
                    LoopAction::ReportThenStop
                } else {
                    LoopAction::Stop
                }
            },
            LoopInput::ResampledFrame | LoopInput::ResamplerEnded | LoopInput::ChunkSent => {
                if active {
                    LoopAction::Apply
                } else {
                    LoopAction::Stop
                }
            },
        }
    }

    /// Whether the streaming loop closes its audio sender now: once the
    /// resampler has ended and every queued chunk has been sent and
    /// acknowledged.
    pub fn should_close_sender(&self, resampler_closed: bool) -> (r: bool)
        ensures
            r == (resampler_closed && self@.pending.len() == 0 && self@.inflight_ms == 0
                && self.collector().buffered_ms() == 0),
    {
        resampler_closed && self.is_drain_complete()
    }

    /// Whether `pipeline_id` is the active pipeline and its token was not
    /// cancelled.
    pub fn is_pipeline_active(&self, pipeline_id: u64, token_cancelled: bool) -> (r: bool)
        ensures
            r == (!token_cancelled && self@.active_pipeline == Some(pipeline_id)),
    {
        !token_cancelled && self.owns_pipeline(pipeline_id)
    }

    /// The manifest of the current session, if any.
    pub fn manifest(&self) -> (r: Option<&SessionManifest>)
        ensures
            match r {
                Some(m) => self@.manifest == Some(*m),
                None => self@.manifest is None,
            },
    {
        match &self.manifest {
            Some(m) => Some(m),
            None => None,
        }
    }

    /// Whether another pipeline id can still be handed out.
    pub fn can_start_pipeline(&self) -> (r: bool)
        ensures
            r == (self@.next_pipeline < u64::MAX),
    {
        self.next_pipeline_id < u64::MAX
    }

    /// Whether `count` more written segments fit the counts of the active
    /// part and of the session (see `record_persisted`).
    pub fn can_record_persisted(&self, count: u32) -> (r: bool)
        ensures
            r == (self@.manifest is Some && self@.manifest->0.parts@.len() > 0
                && self@.manifest->0.parts@.last().segments + count <= u32::MAX && self@.flushed_total + count
                <= u32::MAX),
    {
        match &self.manifest {
            Some(m) => {
                let n = m.parts.len();
                n > 0 && count <= u32::MAX - m.parts[n - 1].segments && count <= u32::MAX - self.total_flushed
            },
            None => false,
        }
    }

    /// Whether `pipeline_id` is the active pipeline.
    pub fn owns_pipeline(&self, pipeline_id: u64) -> (r: bool)
        ensures
            r == (self@.active_pipeline == Some(pipeline_id)),
    {
        match self.active_pipeline_id {
            Some(id) => id == pipeline_id,
            None => false,
        }
    }

    /// The session the current state belongs to, read now (see
    /// `active_session_identity_at`).
    pub fn active_session_identity(&self) -> (r: Option<(String, i128)>)
        ensures
            exists|now: i128| r == session_identity(self@, now),
    {
        let now = crate::clock::utc_now_nanos();
        self.active_session_identity_at(now)
    }

    /// The session the current state belongs to (see `session_identity`),
    /// with `now` as its start when the manifest does not tell.
    pub fn active_session_identity_at(&self, now: i128) -> (r: Option<(String, i128)>)
        ensures
            r == session_identity(self@, now),
    {
        let fallback = match &self.manifest {
            Some(m) => m.started_at,
            None => now,
        };
        match &self.state {
            SessionState::Connecting => match &self.current_session_id {
                Some(id) => Some((id.clone(), fallback)),
                None => None,
            },
            SessionState::Buffering { session_id, started_at, .. } => Some((session_id.clone(), *started_at)),
            SessionState::Recording { session_id, started_at } => Some((session_id.clone(), *started_at)),
            SessionState::Paused { session_id, started_at } => Some((session_id.clone(), *started_at)),
            SessionState::Reconnecting { session_id, started_at, .. } => Some((session_id.clone(), *started_at)),
            SessionState::Draining { session_id, started_at, .. } => Some((session_id.clone(), *started_at)),
            _ => None,
        }
    }

    /// A runtime error on `pipeline_id`: when it is the active pipeline,
    /// it is halted (see `halted`); tells whether it was.
    pub fn begin_runtime_error(&mut self, pipeline_id: u64) -> (r: bool)
        ensures
            r == (old(self)@.active_pipeline == Some(pipeline_id)),
            r ==> final(self)@ == halted(old(self)@, old(self).collector()) && tail_collector(
                old(self).collector(),
                final(self).collector(),
            ),
            !r ==> final(self)@ == old(self)@ && final(self).collector() == old(self).collector(),
            old(self).wf() ==> final(self).wf(),
    {
        if !self.owns_pipeline(pipeline_id) {
            return false;
        }
        self.halt_pipeline();
        true
    }

    /// After a runtime error, the session (if any) is paused so that it
    /// can be resumed (see `settle_runtime_error_at`), read now.
    pub fn settle_runtime_error(&mut self)
        ensures
            exists|now: i128| #[trigger] settled_error(old(self)@, now, final(self)@),
            final(self).collector() == old(self).collector(),
            old(self).wf() ==> final(self).wf(),
    {
        let now = crate::clock::utc_now_nanos();
        self.settle_runtime_error_at(now);
    }

    /// After a runtime error, the session (if any) is paused so that it
    /// can be resumed; `now` stands for its start when the manifest does
    /// not tell.
    pub fn settle_runtime_error_at(&mut self, now: i128)
        ensures
            settled_error(old(self)@, now, final(self)@),
            final(self).collector() == old(self).collector(),
            old(self).wf() ==> final(self).wf(),
    {
        match self.active_session_identity_at(now) {
            Some((session_id, started_at)) => {
                self.state = SessionState::Paused { session_id, started_at };
            },
            None => {},
        }
    }

    /// Starts a stop now (see `begin_stop_at`).
    pub fn begin_stop(&mut self) -> (r: Result<(), SessionError>)
        ensures
            !is_stoppable(old(self)@.state) ==> r is Err && r->Err_0 == SessionError::NoActiveSession
                && final(self)@ == old(self)@ && final(self).collector() == old(self).collector(),
            is_stoppable(old(self)@.state) ==> r is Ok && (exists|now: i128| final(self)@ == tail_flushed(
                #[trigger] draining(old(self)@, now, old(self).collector().buffered_ms()),
                old(self).collector(),
                old(self)@.generation,
            )) && tail_collector(old(self).collector(), final(self).collector()),
            old(self).wf() ==> final(self).wf(),
    {
        let now = crate::clock::utc_now_nanos();
        self.begin_stop_at(now)
    }

    /// Starts a stop: draining with the current backlog and the tail
    /// flushed; refused when idle or in error. `now` stands for the
    /// session's start when the manifest does not tell.
    pub fn begin_stop_at(&mut self, now: i128) -> (r: Result<(), SessionError>)
        ensures
            !is_stoppable(old(self)@.state) ==> r is Err && r->Err_0 == SessionError::NoActiveSession
                && final(self)@ == old(self)@ && final(self).collector() == old(self).collector(),
            is_stoppable(old(self)@.state) ==> r is Ok && final(self)@ == tail_flushed(
                draining(old(self)@, now, old(self).collector().buffered_ms()),
                old(self).collector(),
                old(self)@.generation,
            ) && tail_collector(old(self).collector(), final(self).collector()),
            old(self).wf() ==> final(self).wf(),
    {
        match &self.state {
            SessionState::Idle => {
                return Err(SessionError::NoActiveSession);
            },
            SessionState::Error { .. } => {
                return Err(SessionError::NoActiveSession);
            },
            _ => {},
        }
        match self.active_session_identity_at(now) {
            Some((session_id, started_at)) => {
                let backlog_ms = self.pending_backlog_ms();
                self.state = SessionState::Draining { session_id, started_at, backlog_ms };
            },
            None => {},
        }
        let session_generation = self.session_generation;
        self.flush_audio_tail(session_generation);
        Ok(())
    }

    /// Completes a stop: everything of the session is handed out to be
    /// persisted, and the manager is reset (see `reset`).
    pub fn finish_stop(&mut self) -> (r: StoppedSession)
        ensures
            r.session_id == old(self)@.session_id,
            r.folder_path == old(self)@.folder,
            r.manifest == old(self)@.manifest,
            views_of(r.remaining@) == old(self)@.pending_segments,
            final(self)@ == reset(old(self)@),
            cleared_collector(old(self).collector(), final(self).collector()),
            final(self).wf(),
    {
        self.active_pipeline_id = None;
        self.restore_inflight_to_pending();
        let remaining = self.buffer.flush_all();
        let session_id = self.current_session_id.take();
        let folder_path = self.current_folder_path.take();
        let manifest = self.manifest.take();
        self.buffer.clear();
        self.total_flushed = 0;
        self.session_generation = 0;
        self.next_audio_sequence = 1;
        self.clear_audio_runtime_state();
        self.state = SessionState::Idle;
        StoppedSession { session_id, folder_path, manifest, remaining }
    }
}

impl StoppedSession {
    /// Seals the stopped session's manifest (see `storage_model::sealed`)
    /// and gives the folder, the active part's file and its final segment
    /// count; nothing to do without folder and manifest; an error when
    /// only one of them is known or the manifest has no part.
    pub fn close(&mut self) -> (r: Result<Option<(String, String, u32)>, SessionError>)
        requires
            old(self).manifest is Some && old(self).manifest->0.parts@.len() > 0 ==> old(self).manifest->0.parts@.last().segments
                + (old(self).remaining@.len() as u32) <= u32::MAX,
        ensures
            final(self).session_id == old(self).session_id,
            final(self).folder_path == old(self).folder_path,
            final(self).remaining == old(self).remaining,
            match (old(self).folder_path, old(self).manifest) {
                (Some(f), Some(m)) => if m.parts@.len() == 0 {
                    r is Err && r->Err_0 == SessionError::MissingActivePartOnStop && final(self).manifest == old(self).manifest
                } else {
                    &&& r is Ok
                    &&& r->Ok_0 == Some((f, m.parts@.last().file, (m.parts@.last().segments + (old(self).remaining@.len() as u32)) as u32))
                    &&& final(self).manifest is Some
                    &&& sealed(m, final(self).manifest->0, old(self).remaining@.len() as u32)
                },
                (None, None) => r is Ok && r->Ok_0 is None && final(self).manifest == old(self).manifest,
                _ => r is Err && r->Err_0 == SessionError::InconsistentStopState && final(self).manifest == old(self).manifest,
            },
    {
        let count = self.remaining.len() as u32;
        match (&self.folder_path, &self.manifest) {
            (Some(_), Some(_)) => {},
            (None, None) => {
                return Ok(None);
            },
            _ => {
                return Err(SessionError::InconsistentStopState);
            },
        }
        let folder = match &self.folder_path {
            Some(f) => f.clone(),
            None => {
                return Err(SessionError::InconsistentStopState);
            },
        };
        let mut manifest = self.manifest.take().unwrap();
        let closed = close_active_part(&mut manifest, count);
        self.manifest = Some(manifest);
        match closed {
            Ok((file, segments)) => Ok(Some((folder, file, segments))),
            Err(e) => Err(e),
        }
    }
}

// ---------------------------------------------------------------------------
// Laws
// ---------------------------------------------------------------------------

/// With every queued chunk lasting a positive time, the audio has fully
/// drained exactly when the backlog is zero.
pub proof fn law_drain_complete_iff_no_backlog(v: SessionView, buffered_ms: u32)
    requires
        all_positive(v.pending),
    ensures
        (v.pending.len() == 0 && v.inflight_ms == 0 && buffered_ms == 0) <==> backlog_of(
            v.pending,
            v.inflight_ms,
            buffered_ms,
        ) == 0,
{
    if v.pending.len() > 0 {
        lemma_total_positive(v.pending);
    }
}

/// Putting the audio in flight back loses and duplicates nothing: the
/// queue then holds the chunks in flight followed by those queued, no
/// audio is accounted in flight, and the queued duration is the sum.
pub proof fn law_restore_keeps_all_audio(v: SessionView, buffered_ms: u32)
    requires
        v.inflight_ms <= total_ms(v.inflight),
    ensures
        restored(v, buffered_ms).pending == v.inflight + v.pending,
        restored(v, buffered_ms).inflight.len() == 0,
        restored(v, buffered_ms).inflight_ms == 0,
        total_ms(restored(v, buffered_ms).pending) == total_ms(v.inflight) + total_ms(v.pending),
{
    lemma_total_concat(v.inflight, v.pending);
}

/// While a session is recording or buffering, it is buffering exactly when
/// audio is waiting, and the session and its start stay the same.
pub proof fn law_backlog_decides_buffering(
    s: SessionState,
    id: String,
    backlog: u32,
    generation: u32,
)
    requires
        s is Recording || s is Buffering,
    ensures
        with_backlog(s, Some(id), backlog, generation) is Buffering <==> backlog > 0,
        with_backlog(s, Some(id), backlog, generation) is Recording <==> backlog == 0,
        started_at_of(with_backlog(s, Some(id), backlog, generation)) == started_at_of(s),
{
}

/// Paused, draining and reconnecting states keep their kind whatever the
/// backlog.
pub proof fn law_backlog_keeps_other_states(
    s: SessionState,
    id: Option<String>,
    backlog: u32,
    generation: u32,
)
    requires
        s is Paused || s is Draining || s is Reconnecting,
    ensures
        s is Paused ==> with_backlog(s, id, backlog, generation) is Paused,
        s is Draining ==> with_backlog(s, id, backlog, generation) is Draining,
        s is Reconnecting ==> with_backlog(s, id, backlog, generation) is Reconnecting,
{
}

/// A stop, a failed start and a rollback all leave the manager idle with no
/// session and no audio, whatever came before.
pub proof fn law_reset_is_idle(v: SessionView)
    ensures
        reset(v).state is Idle,
        reset(v).session_id is None,
        reset(v).active_pipeline is None,
        reset(v).pending.len() == 0,
        reset(v).inflight.len() == 0,
        reset(v).inflight_ms == 0,
        backlog_of(reset(v).pending, reset(v).inflight_ms, 0) == 0,
{
}

/// A new pipeline always gets a fresh id, and a generation that differs
/// from the old one unless the generation counter is exhausted; chunks
/// queued under the old generation are then never dispatched.
pub proof fn law_new_pipeline_is_fresh(v: SessionView, buffered_ms: u32)
    requires
        v.next_pipeline < u64::MAX,
        v.generation < u32::MAX,
    ensures
        with_pipeline(v, buffered_ms).active_pipeline == Some(v.next_pipeline),
        with_pipeline(v, buffered_ms).next_pipeline > v.next_pipeline,
        with_pipeline(v, buffered_ms).generation != v.generation,
{
}

} // verus!
