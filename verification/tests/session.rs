use carry_talk::session_core::{LoopAction, LoopInput, SessionError, SessionManager, StoppedSession};
use carry_talk::storage_model::part_file_name;
use carry_talk::types::{
    AudioSource, ResampledAudioFrame, SessionManifest, SessionPartMeta, SessionState, SessionStatus, SourceActivity,
    TranscriptSegment,
};

fn manifest(id: &str, segments: u32) -> SessionManifest {
    SessionManifest {
        session_id: id.to_string(),
        status: SessionStatus::Active,
        started_at: 1_000,
        provider: "soniox".to_string(),
        source_language: "en".to_string(),
        target_language: "de".to_string(),
        parts: vec![SessionPartMeta { file: "part-0001.jsonl".to_string(), status: SessionStatus::Active, segments }],
    }
}

fn loud(at: i128, ms: u32) -> ResampledAudioFrame {
    let samples = (ms as usize) * 16;
    ResampledAudioFrame {
        captured_at: at,
        duration_ms: ms,
        source: AudioSource::Mic,
        pcm_bytes: std::iter::repeat([0xe8u8, 0x03u8]).take(samples).flatten().collect(),
        activity: SourceActivity::from_source(AudioSource::Mic, true),
    }
}

fn seg(id: &str, is_final: bool) -> TranscriptSegment {
    TranscriptSegment {
        id: id.to_string(),
        start_ms: 1,
        end_ms: 2,
        speaker: None,
        original_text: "text".to_string(),
        translated_text: String::new(),
        is_final,
        created_at: 0,
    }
}

fn started() -> SessionManager {
    let mut sm = SessionManager::new();
    let ctx = sm.prepare_start_at("s1".to_string(), "/data/s1".to_string(), manifest("s1", 0), 500).unwrap();
    let (pipeline, generation) = sm.prepare_streaming_pipeline(800, 800, 100);
    assert_eq!((pipeline, generation), (1, 1));
    assert_eq!(sm.finalize_start(&ctx).unwrap(), "s1");
    sm
}

#[test]
fn new_manager_is_idle() {
    let sm = SessionManager::new();
    assert!(matches!(sm.state(), SessionState::Idle));
    assert_eq!(sm.pending_backlog_ms(), 0);
    assert!(sm.is_drain_complete());
    assert_eq!(sm.resume_context().unwrap_err(), SessionError::NotPaused);
}

#[test]
fn start_is_refused_unless_idle() {
    let mut sm = SessionManager::new();
    let ctx = sm.prepare_start_at("s1".to_string(), "/d".to_string(), manifest("s1", 0), 5).unwrap();
    assert_eq!(ctx.session_id, "s1");
    assert_eq!(ctx.folder_path, "/d");
    assert_eq!(ctx.started_at, 5);
    assert!(matches!(sm.state(), SessionState::Connecting));
    let again = sm.prepare_start_at("s2".to_string(), "/e".to_string(), manifest("s2", 0), 6);
    assert_eq!(again.err().unwrap(), SessionError::NotIdle);
    assert_eq!(SessionError::NotIdle.message(), "Cannot start: session is not idle");
}

#[test]
fn finalize_start_is_refused_for_another_session() {
    let mut sm = SessionManager::new();
    let _ctx = sm.prepare_start_at("s1".to_string(), "/d".to_string(), manifest("s1", 0), 5).unwrap();
    let other = carry_talk::session_core::StartSessionContext {
        session_id: "other".to_string(),
        folder_path: "/x".to_string(),
        started_at: 1,
    };
    assert_eq!(sm.finalize_start(&other).unwrap_err(), SessionError::StartSuperseded);
    assert!(!sm.rollback_prepared_start(&other));
    assert!(matches!(sm.state(), SessionState::Connecting));
}

#[test]
fn rollback_returns_to_idle() {
    let mut sm = SessionManager::new();
    let ctx = sm.prepare_start_at("s1".to_string(), "/d".to_string(), manifest("s1", 0), 5).unwrap();
    sm.prepare_streaming_pipeline(800, 800, 100);
    assert!(sm.rollback_prepared_start(&ctx));
    assert!(matches!(sm.state(), SessionState::Idle));
    assert!(!sm.owns_pipeline(1));
    assert!(sm.prepare_start_at("s2".to_string(), "/e".to_string(), manifest("s2", 0), 6).is_ok());
}

#[test]
fn audio_flows_from_frames_to_acknowledged_chunks() {
    let mut sm = started();
    assert!(matches!(sm.state(), SessionState::Recording { .. }));
    sm.enqueue_resampled_audio(loud(10, 100), 1);
    assert_eq!(sm.pending_audio_duration_ms(), 100);
    match sm.state() {
        SessionState::Buffering { backlog_ms, session_generation, .. } => {
            assert_eq!(*backlog_ms, 100);
            assert_eq!(*session_generation, 1);
        }
        other => panic!("unexpected state {other:?}"),
    }
    assert!(sm.take_next_dispatchable_chunk(2).is_none());
    let chunk = sm.take_next_dispatchable_chunk(1).unwrap();
    assert_eq!(chunk.sequence, 1);
    assert_eq!(chunk.duration_ms, 100);
    assert_eq!(chunk.session_generation, 1);
    assert_eq!(chunk.captured_at, 10);
    assert_eq!(sm.pending_audio_duration_ms(), 0);
    assert_eq!(sm.pending_backlog_ms(), 100);
    assert!(!sm.is_drain_complete());
    sm.mark_audio_sent(1);
    assert!(sm.is_drain_complete());
    assert!(matches!(sm.state(), SessionState::Recording { .. }));
}

#[test]
fn failed_dispatch_goes_back_to_the_front() {
    let mut sm = started();
    sm.enqueue_resampled_audio(loud(10, 100), 1);
    sm.enqueue_resampled_audio(loud(20, 100), 1);
    let first = sm.take_next_dispatchable_chunk(1).unwrap();
    assert_eq!(first.sequence, 1);
    sm.requeue_failed_dispatch(first);
    let again = sm.take_next_dispatchable_chunk(1).unwrap();
    assert_eq!(again.sequence, 1);
    let second = sm.take_next_dispatchable_chunk(1).unwrap();
    assert_eq!(second.sequence, 2);
    sm.mark_audio_sent(2);
    assert!(sm.is_drain_complete());
}

#[test]
fn inflight_limit_holds_back_chunks() {
    let mut sm = started();
    for i in 0..9 {
        sm.enqueue_resampled_audio(loud(i, 100), 1);
    }
    let mut sent = 0;
    while sm.take_next_dispatchable_chunk(1).is_some() {
        sent += 1;
    }
    assert_eq!(sent, 8);
    assert_eq!(sm.pending_audio_duration_ms(), 100);
    sm.mark_audio_sent(3);
    assert_eq!(sm.take_next_dispatchable_chunk(1).unwrap().sequence, 9);
}

#[test]
fn pause_and_resume_use_a_new_generation() {
    let mut sm = started();
    sm.enqueue_resampled_audio(loud(10, 100), 1);
    let chunk = sm.take_next_dispatchable_chunk(1).unwrap();
    assert_eq!(chunk.sequence, 1);
    let (id, started_at) = sm.begin_pause().unwrap();
    assert_eq!((id.as_str(), started_at), ("s1", 500));
    assert!(!sm.owns_pipeline(1));
    sm.finish_pause(id, started_at);
    assert!(matches!(sm.state(), SessionState::Paused { .. }));
    assert_eq!(sm.begin_pause().unwrap_err(), SessionError::NotRecording);
    let (provider, source, target) = sm.resume_context().unwrap();
    assert_eq!((provider.as_str(), source.as_str(), target.as_str()), ("soniox", "en", "de"));
    let (ctx, pipeline, generation) = sm.prepare_resume(800, 800, 100).unwrap();
    assert_eq!((ctx.session_id.as_str(), ctx.folder_path.as_str(), ctx.started_at), ("s1", "/data/s1", 500));
    assert_eq!((pipeline, generation), (2, 2));
    assert!(sm.is_pipeline_active(2, false));
    assert!(!sm.is_pipeline_active(2, true));
    // the restored chunk of the old generation is dropped
    assert!(sm.take_next_dispatchable_chunk(2).is_none());
    assert_eq!(sm.finalize_start(&ctx).unwrap(), "s1");
}

#[test]
fn runtime_error_pauses_the_session() {
    let mut sm = started();
    assert!(!sm.begin_runtime_error(7));
    assert!(sm.begin_runtime_error(1));
    sm.settle_runtime_error_at(99);
    match sm.state() {
        SessionState::Paused { session_id, started_at } => {
            assert_eq!(session_id, "s1");
            assert_eq!(*started_at, 500);
        }
        other => panic!("unexpected state {other:?}"),
    }
}

#[test]
fn identity_while_connecting_uses_the_manifest_start() {
    let mut sm = SessionManager::new();
    assert!(sm.active_session_identity_at(42).is_none());
    sm.prepare_start_at("s9".to_string(), "/d".to_string(), manifest("s9", 0), 5).unwrap();
    assert_eq!(sm.active_session_identity_at(42), Some(("s9".to_string(), 1_000)));
}

#[test]
fn transcript_updates_report_final_segments() {
    let mut sm = started();
    assert!(!sm.on_transcript_update(vec![seg("a", false)]));
    assert!(sm.on_transcript_update(vec![seg("b", false), seg("a", true)]));
    assert_eq!(sm.snapshot().len(), 2);
    let pending = sm.take_pending_segments();
    assert_eq!(pending.len(), 1);
    assert_eq!(pending[0].id, "a");
    sm.restore_pending_segments(pending);
    assert_eq!(sm.take_pending_segments().len(), 1);
}

#[test]
fn persistence_target_and_rotation() {
    let mut sm = SessionManager::new();
    assert_eq!(sm.persistence_target().unwrap_err(), SessionError::MissingFolderAndManifest);
    sm.prepare_start_at("s1".to_string(), "/d".to_string(), manifest("s1", 1998), 5).unwrap();
    assert_eq!(sm.persistence_target().unwrap(), ("/d".to_string(), "part-0001.jsonl".to_string()));
    assert!(sm.can_record_persisted(1));
    assert!(!sm.record_persisted(1));
    assert!(sm.record_persisted(1));
    assert_eq!(sm.complete_active_part(), Some(("part-0001.jsonl".to_string(), 2000)));
    let (index, file) = sm.next_part().unwrap();
    assert_eq!(index, 2);
    assert_eq!(file, part_file_name(2));
    sm.add_active_part(file);
    assert_eq!(sm.persistence_target().unwrap().1, "part-0002.jsonl");
    assert_eq!(sm.manifest().unwrap().parts[0].status, SessionStatus::Completed);
    assert!(!sm.can_record_persisted(u32::MAX));
}

#[test]
fn stop_drains_and_resets() {
    let mut sm = started();
    assert!(sm.on_transcript_update(vec![seg("a", true)]));
    sm.enqueue_resampled_audio(loud(10, 50), 1);
    sm.begin_stop_at(77).unwrap();
    match sm.state() {
        SessionState::Draining { session_id, started_at, backlog_ms } => {
            assert_eq!(session_id, "s1");
            assert_eq!(*started_at, 500);
            assert_eq!(*backlog_ms, 50);
        }
        other => panic!("unexpected state {other:?}"),
    }
    assert_eq!(sm.pending_audio_duration_ms(), 50);
    let mut stopped: StoppedSession = sm.finish_stop();
    assert!(matches!(sm.state(), SessionState::Idle));
    assert!(sm.is_drain_complete());
    assert_eq!(sm.begin_stop_at(1).unwrap_err(), SessionError::NoActiveSession);
    assert_eq!(stopped.remaining.len(), 1);
    let closed = stopped.close().unwrap().unwrap();
    assert_eq!(closed, ("/data/s1".to_string(), "part-0001.jsonl".to_string(), 1));
    let m = stopped.manifest.unwrap();
    assert_eq!(m.status, SessionStatus::Completed);
    assert_eq!(m.parts[0].status, SessionStatus::Completed);
}

#[test]
fn closing_a_session_without_persistence() {
    let mut none = StoppedSession { session_id: None, folder_path: None, manifest: None, remaining: Vec::new() };
    assert_eq!(none.close().unwrap(), None);
    let mut half = StoppedSession { session_id: None, folder_path: Some("/d".to_string()), manifest: None, remaining: Vec::new() };
    assert_eq!(half.close().unwrap_err(), SessionError::InconsistentStopState);
    let mut empty = manifest("x", 0);
    empty.parts.clear();
    let mut no_part = StoppedSession { session_id: None, folder_path: Some("/d".to_string()), manifest: Some(empty), remaining: Vec::new() };
    assert_eq!(no_part.close().unwrap_err(), SessionError::MissingActivePartOnStop);
}

#[test]
fn start_and_stop_read_the_clock() {
    let mut sm = SessionManager::new();
    let ctx = sm.prepare_start("s7".to_string(), "/d7".to_string(), manifest("s7", 0)).unwrap();
    assert_eq!(ctx.session_id, "s7");
    assert!(ctx.started_at > 0);
    assert_eq!(sm.active_session_identity(), Some(("s7".to_string(), 1_000)));
    sm.begin_stop().unwrap();
    assert!(matches!(sm.state(), SessionState::Draining { started_at: 1_000, .. }));
    let stopped = sm.finish_stop();
    assert_eq!(stopped.session_id, Some("s7".to_string()));
    assert!(matches!(sm.state(), SessionState::Idle));
    assert_eq!(sm.begin_stop().unwrap_err(), SessionError::NoActiveSession);
    sm.settle_runtime_error();
    assert!(matches!(sm.state(), SessionState::Idle));
}

#[test]
fn streaming_loop_decisions() {
    let sm = started();
    assert_eq!(sm.streaming_step(1, false, LoopInput::ResampledFrame), LoopAction::Apply);
    assert_eq!(sm.streaming_step(2, false, LoopInput::ResampledFrame), LoopAction::Stop);
    assert_eq!(sm.streaming_step(1, true, LoopInput::ChunkSent), LoopAction::Stop);
    assert_eq!(sm.streaming_step(1, false, LoopInput::Update { has_segment: false }), LoopAction::Skip);
    assert_eq!(sm.streaming_step(2, false, LoopInput::Update { has_segment: false }), LoopAction::Skip);
    assert_eq!(sm.streaming_step(1, false, LoopInput::Update { has_segment: true }), LoopAction::Apply);
    assert_eq!(sm.streaming_step(1, false, LoopInput::ServiceError), LoopAction::ReportThenStop);
    assert_eq!(sm.streaming_step(1, true, LoopInput::ServiceError), LoopAction::Stop);
    assert_eq!(sm.streaming_step(1, false, LoopInput::Finished), LoopAction::Stop);
    assert_eq!(sm.streaming_step(1, false, LoopInput::EventsClosed), LoopAction::Stop);
    assert!(!sm.should_close_sender(false));
    assert!(sm.should_close_sender(true));
}
