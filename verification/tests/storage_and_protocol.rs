use carry_talk::capabilities::TargetOs;
use carry_talk::soniox_runtime::SonioxToken;
use carry_talk::storage_model::{
    active_part_index, add_active_part, close_active_part, complete_active_part, count_segment_lines, next_part, is_segment_line, needs_recovery, part_file_name,
    record_appended, repair_manifest, session_summary, sessions_dir, sort_summaries,
};
use carry_talk::types::{SessionManifest, SessionPartMeta, SessionStatus, SessionSummary};
use carry_talk::ws_protocol::{close_event, frame_outcome, next_send_deadline, start_request, FrameOutcome, SonioxResponse, WsEvent};

fn part(file: &str, status: SessionStatus, segments: u32) -> SessionPartMeta {
    SessionPartMeta { file: file.to_string(), status, segments }
}

fn manifest(parts: Vec<SessionPartMeta>, status: SessionStatus) -> SessionManifest {
    SessionManifest {
        session_id: "20240101_120000_abcdef".to_string(),
        status,
        started_at: 7,
        provider: "soniox".to_string(),
        source_language: "auto".to_string(),
        target_language: "".to_string(),
        parts,
    }
}

fn tok(text: &str) -> SonioxToken {
    SonioxToken { text: text.to_string(), start_ms: 1, end_ms: 2, speaker: None, is_final: true, translation_status: None }
}

#[test]
fn part_files_are_zero_padded() {
    assert_eq!(part_file_name(1), "part-0001.jsonl");
    assert_eq!(part_file_name(42), "part-0042.jsonl");
    assert_eq!(part_file_name(12345), "part-12345.jsonl");
}

#[test]
fn sessions_dir_joins_like_a_path() {
    assert_eq!(sessions_dir("/data/carrytalk-data", TargetOs::Linux), "/data/carrytalk-data/sessions");
    assert_eq!(sessions_dir("/data/", TargetOs::Macos), "/data/sessions");
    assert_eq!(sessions_dir("", TargetOs::Linux), "sessions");
    assert_eq!(sessions_dir("C:\\App\\carrytalk-data", TargetOs::Windows), "C:\\App\\carrytalk-data\\sessions");
    assert_eq!(sessions_dir("C:\\App\\", TargetOs::Windows), "C:\\App\\sessions");
    assert_eq!(sessions_dir("C:/App/", TargetOs::Windows), "C:/App/sessions");
    assert_eq!(sessions_dir("C:", TargetOs::Windows), "C:sessions");
    assert_eq!(sessions_dir("dir\\", TargetOs::Linux), "dir\\/sessions");
}

#[test]
fn appending_rotates_at_two_thousand() {
    let mut m = manifest(vec![part("part-0001.jsonl", SessionStatus::Active, 10)], SessionStatus::Active);
    assert!(!record_appended(&mut m, 5));
    assert_eq!(m.parts[0].segments, 15);
    assert!(record_appended(&mut m, 1985));
    assert_eq!(m.parts[0].segments, 2000);
    assert_eq!(m.parts[0].status, SessionStatus::Active);
    assert_eq!(complete_active_part(&mut m), ("part-0001.jsonl".to_string(), 2000));
    assert_eq!(m.parts[0].status, SessionStatus::Completed);
    let (index, file) = next_part(&m);
    assert_eq!(index, 2);
    assert_eq!(file, "part-0002.jsonl");
    add_active_part(&mut m, file);
    assert_eq!(m.parts.len(), 2);
    assert_eq!(m.parts[1].file, "part-0002.jsonl");
    assert_eq!(m.parts[1].status, SessionStatus::Active);
    assert_eq!(m.parts[1].segments, 0);
    assert_eq!(m.status, SessionStatus::Active);
}

#[test]
fn closing_the_active_part_completes_the_session() {
    let mut m = manifest(vec![part("part-0001.jsonl", SessionStatus::Completed, 2000), part("part-0002.jsonl", SessionStatus::Active, 3)], SessionStatus::Active);
    assert_eq!(close_active_part(&mut m, 2).unwrap(), ("part-0002.jsonl".to_string(), 5));
    assert_eq!(m.status, SessionStatus::Completed);
    assert_eq!(m.parts[1].status, SessionStatus::Completed);
    assert_eq!(m.parts[1].segments, 5);
    let mut empty = manifest(Vec::new(), SessionStatus::Active);
    assert!(close_active_part(&mut empty, 1).is_err());
}

#[test]
fn segment_lines_are_recognised_in_both_spellings() {
    assert!(is_segment_line(r#"{"type":"segment","id":"a"}"#));
    assert!(is_segment_line(r#"{"type": "segment"}"#));
    assert!(!is_segment_line(r#"{"type":"header"}"#));
    assert!(!is_segment_line(r#"{"type" : "segment"}"#));
    let lines: Vec<String> = vec![
        r#"{"type":"header"}"#.to_string(),
        r#"{"type":"segment"}"#.to_string(),
        r#"{"type": "segment"}"#.to_string(),
        "garbage".to_string(),
    ];
    assert_eq!(count_segment_lines(&lines), 2);
}

#[test]
fn interrupted_sessions_are_repaired() {
    let mut m = manifest(vec![part("part-0001.jsonl", SessionStatus::Completed, 2000), part("part-0002.jsonl", SessionStatus::Active, 1)], SessionStatus::Active);
    assert!(needs_recovery(&m));
    let idx = active_part_index(&m).unwrap();
    assert_eq!(idx, 1);
    repair_manifest(&mut m, Some((idx, 4)));
    assert_eq!(m.status, SessionStatus::Recovered);
    assert_eq!(m.parts[1].status, SessionStatus::Recovered);
    assert_eq!(m.parts[1].segments, 4);
    assert_eq!(m.parts[1].file, "part-0002.jsonl");
    assert!(!needs_recovery(&m));
    assert!(active_part_index(&m).is_none());
    let mut no_active = manifest(vec![part("p", SessionStatus::Completed, 1)], SessionStatus::Active);
    repair_manifest(&mut no_active, None);
    assert_eq!(no_active.status, SessionStatus::Recovered);
    assert_eq!(no_active.parts[0].status, SessionStatus::Completed);
}

#[test]
fn summaries_add_up_parts_and_sort_newest_first() {
    let m = manifest(vec![part("a", SessionStatus::Completed, 2000), part("b", SessionStatus::Active, 5)], SessionStatus::Active);
    let s = session_summary(&m, "/x/20240101".to_string()).unwrap();
    assert_eq!(s.segment_count, 2005);
    assert!(!s.is_complete);
    assert_eq!(s.started_at, Some(7));
    let big = manifest(vec![part("a", SessionStatus::Completed, u32::MAX), part("b", SessionStatus::Completed, 1)], SessionStatus::Completed);
    assert!(session_summary(&big, String::new()).is_none());
    let mk = |id: &str| SessionSummary { session_id: id.to_string(), file_path: String::new(), started_at: None, segment_count: 0, is_complete: true };
    let sorted = sort_summaries(vec![mk("20240101_a"), mk("20250101_b"), mk("20240601_c")]);
    let ids: Vec<&str> = sorted.iter().map(|s| s.session_id.as_str()).collect();
    assert_eq!(ids, vec!["20250101_b", "20240601_c", "20240101_a"]);
}

#[test]
fn start_request_trims_languages() {
    let r = start_request("KEY", "  en ", " de ");
    assert_eq!(r.api_key, "KEY");
    assert_eq!(r.model, "stt-rt-v4");
    assert_eq!(r.audio_format, "pcm_s16le");
    assert_eq!(r.sample_rate, 16000);
    assert_eq!(r.num_channels, 1);
    assert!(r.enable_endpoint_detection);
    assert_eq!(r.language_hints, Some(vec!["en".to_string()]));
    let t = r.translation.unwrap();
    assert_eq!(t.translation_type, "one_way");
    assert_eq!(t.target_language, "de");
    let auto = start_request("k", " auto ", "   ");
    assert!(auto.language_hints.is_none());
    assert!(auto.translation.is_none());
}

#[test]
fn responses_become_events() {
    let err = SonioxResponse { tokens: None, finished: None, error_code: Some(401), error_message: Some("bad key".to_string()) };
    match frame_outcome(err, false) {
        FrameOutcome::Report { event: WsEvent::Error(m), stop } => {
            assert_eq!(m, "Soniox error 401: bad key");
            assert!(stop);
        }
        _ => panic!("expected an error event"),
    }
    let err2 = SonioxResponse { tokens: None, finished: Some(true), error_code: None, error_message: Some("oops".to_string()) };
    assert!(matches!(frame_outcome(err2, true), FrameOutcome::Quiet { stop: true }));
    let fin = SonioxResponse { tokens: Some(vec![tok("x")]), finished: Some(true), error_code: None, error_message: None };
    assert!(matches!(frame_outcome(fin, false), FrameOutcome::Report { event: WsEvent::Finished, stop: true }));
    let toks = SonioxResponse { tokens: Some(vec![tok("  "), tok("hi"), tok("")]), finished: Some(false), error_code: None, error_message: None };
    match frame_outcome(toks, false) {
        FrameOutcome::Report { event: WsEvent::Update(ts), stop } => {
            assert!(!stop);
            assert_eq!(ts.len(), 1);
            assert_eq!(ts[0].text, "hi");
        }
        _ => panic!("expected an update"),
    }
    let blank = SonioxResponse { tokens: Some(vec![tok(" ")]), finished: None, error_code: None, error_message: None };
    assert!(matches!(frame_outcome(blank, false), FrameOutcome::Quiet { stop: false }));
    let nothing = SonioxResponse { tokens: None, finished: None, error_code: None, error_message: None };
    assert!(matches!(frame_outcome(nothing, false), FrameOutcome::Quiet { stop: false }));
}

#[test]
fn premature_close_is_an_error_unless_cancelled() {
    match close_event(Some((1006, "gone".to_string())), false) {
        Some(WsEvent::Error(m)) => assert_eq!(m, "WebSocket Closed prematurely (code=1006 reason=gone)"),
        _ => panic!("expected an error"),
    }
    match close_event(None, false) {
        Some(WsEvent::Error(m)) => assert_eq!(m, "WebSocket Closed prematurely (no close frame)"),
        _ => panic!("expected an error"),
    }
    assert!(close_event(None, true).is_none());
}

#[test]
fn audio_frames_are_paced_by_duration() {
    assert_eq!(next_send_deadline(1000, 900, 100), 1100);
    assert_eq!(next_send_deadline(1000, 1500, 100), 1600);
}

#[test]
fn new_session_is_named_by_time_and_uuid() {
    let (id, now) = carry_talk::storage_model::new_session_id();
    assert_eq!(id.len(), 22);
    assert_eq!(&id[8..9], "_");
    assert_eq!(&id[15..16], "_");
    assert!(id[16..].chars().all(|c| c.is_ascii_digit() || ('a'..='f').contains(&c)));
    assert!(id[..8].chars().all(|c| c.is_ascii_digit()));
    assert!(now > 0);
    let m = carry_talk::storage_model::new_session_manifest(id.clone(), now, "soniox", "auto", "en");
    assert_eq!(m.session_id, id);
    assert_eq!(m.status, SessionStatus::Active);
    assert_eq!(m.started_at, now);
    assert_eq!(m.provider, "soniox");
    assert_eq!(m.source_language, "auto");
    assert_eq!(m.target_language, "en");
    assert_eq!(m.parts.len(), 1);
    assert_eq!(m.parts[0].file, "part-0001.jsonl");
    assert_eq!(m.parts[0].status, SessionStatus::Active);
    assert_eq!(m.parts[0].segments, 0);
}

#[test]
fn session_id_joins_stamp_and_uuid_prefix() {
    let id = carry_talk::storage_model::session_id_from("20240102_030405", "0123456789abcdef0123456789abcdef");
    assert_eq!(id, "20240102_030405_012345");
    assert_eq!(carry_talk::storage_model::session_id_from("", "abcdef"), "_abcdef");
}

#[test]
fn sorting_keeps_order_of_equal_ids() {
    let mk = |id: &str, path: &str| SessionSummary { session_id: id.to_string(), file_path: path.to_string(), started_at: None, segment_count: 0, is_complete: true };
    let sorted = sort_summaries(vec![mk("a", "1"), mk("b", "2"), mk("a", "3"), mk("b", "4")]);
    let got: Vec<(&str, &str)> = sorted.iter().map(|s| (s.session_id.as_str(), s.file_path.as_str())).collect();
    assert_eq!(got, vec![("b", "2"), ("b", "4"), ("a", "1"), ("a", "3")]);
}
