use carry_talk::soniox_runtime::{
    match_translation_only_update, parse_soniox_update, refresh_finalized_candidates, ActiveUtterance,
    FinalizedUtteranceCandidate, LateTranslationState, SonioxToken, TranscriptAssembler, TranslationOnlyMatch,
};
use carry_talk::transcript_buffer::TranscriptBuffer;
use carry_talk::types::TranscriptSegment;

fn seg(id: &str, text: &str, is_final: bool) -> TranscriptSegment {
    TranscriptSegment {
        id: id.to_string(),
        start_ms: 0,
        end_ms: 0,
        speaker: None,
        original_text: text.to_string(),
        translated_text: String::new(),
        is_final,
        created_at: 1,
    }
}

fn tok(text: &str, start: u64, end: u64, is_final: bool, translation: bool) -> SonioxToken {
    SonioxToken {
        text: text.to_string(),
        start_ms: start,
        end_ms: end,
        speaker: None,
        is_final,
        translation_status: if translation { Some("translation".to_string()) } else { None },
    }
}

fn ids(segs: &[TranscriptSegment]) -> Vec<String> {
    segs.iter().map(|s| s.id.clone()).collect()
}

#[test]
fn new_segment_id_has_seg_prefix() {
    let s = TranscriptSegment::with_identity("abc123", 7, 10, 20, "hello".to_string());
    assert_eq!(s.id, "seg_abc123");
    assert_eq!(s.start_ms, 10);
    assert_eq!(s.end_ms, 20);
    assert!(!s.is_final);
    assert_eq!(s.translated_text, "");
    assert_eq!(s.created_at, 7);
}

#[test]
fn upsert_inserts_and_queues_final_segments() {
    let mut b = TranscriptBuffer::new(10);
    b.upsert(seg("a", "one", false));
    b.upsert(seg("b", "two", true));
    assert_eq!(ids(&b.snapshot()), vec!["a", "b"]);
    let pending = b.take_pending();
    assert_eq!(ids(&pending), vec!["b"]);
    assert!(b.take_pending().is_empty());
}

#[test]
fn merging_keeps_old_values_where_the_update_is_empty() {
    let mut b = TranscriptBuffer::new(10);
    let mut first = seg("a", "hello", false);
    first.start_ms = 100;
    first.end_ms = 200;
    first.speaker = Some("1".to_string());
    b.upsert(first);
    let mut update = seg("a", "", true);
    update.translated_text = "hallo".to_string();
    update.created_at = 99;
    b.upsert(update);
    let snap = b.snapshot();
    assert_eq!(snap.len(), 1);
    assert_eq!(snap[0].original_text, "hello");
    assert_eq!(snap[0].translated_text, "hallo");
    assert_eq!(snap[0].start_ms, 100);
    assert_eq!(snap[0].end_ms, 200);
    assert_eq!(snap[0].speaker.as_deref(), Some("1"));
    assert!(snap[0].is_final);
    assert_eq!(snap[0].created_at, 1);
    assert_eq!(ids(&b.take_pending()), vec!["a"]);
}

#[test]
fn unchanged_final_update_is_not_queued_again() {
    let mut b = TranscriptBuffer::new(10);
    b.upsert(seg("a", "x", true));
    b.take_pending();
    b.upsert(seg("a", "x", true));
    assert!(b.take_pending().is_empty());
    b.upsert(seg("a", "y", false));
    let again = b.take_pending();
    assert_eq!(again.len(), 1);
    assert_eq!(again[0].original_text, "y");
    assert!(again[0].is_final);
}

#[test]
fn eviction_drops_only_leading_final_segments() {
    let mut b = TranscriptBuffer::new(2);
    b.upsert(seg("a", "1", true));
    b.upsert(seg("b", "2", false));
    b.upsert(seg("c", "3", true));
    assert_eq!(ids(&b.snapshot()), vec!["b", "c"]);
    b.upsert(seg("d", "4", true));
    assert_eq!(ids(&b.snapshot()), vec!["b", "c", "d"]);
}

#[test]
fn restore_pending_goes_in_front() {
    let mut b = TranscriptBuffer::new(10);
    b.upsert(seg("a", "1", true));
    let taken = b.take_pending();
    b.upsert(seg("b", "2", true));
    b.restore_pending(taken);
    assert_eq!(ids(&b.flush_all()), vec!["a", "b"]);
    b.clear();
    assert!(b.snapshot().is_empty());
}

#[test]
fn parse_update_splits_spoken_and_translation() {
    let tokens = vec![
        tok("Hello ", 100, 300, true, false),
        tok("world", 300, 500, false, false),
        tok("<end>", 0, 0, true, false),
        tok("Hallo", 120, 400, true, true),
    ];
    let p = parse_soniox_update(&tokens);
    assert_eq!(p.original_final_delta, "Hello ");
    assert_eq!(p.original_nonfinal_snapshot, "world");
    assert_eq!(p.translation_final_delta, "Hallo");
    assert_eq!(p.translation_nonfinal_snapshot, "");
    assert!(p.has_spoken_text && p.has_translation_text && p.has_spoken_final);
    assert!(!p.is_translation_only);
    assert_eq!((p.start_ms, p.end_ms), (100, 500));
}

#[test]
fn parse_translation_only_update_uses_translation_timing() {
    let tokens = vec![tok("Bonjour", 50, 90, false, true), tok(" . ", 0, 0, true, false)];
    let p = parse_soniox_update(&tokens);
    assert!(p.is_translation_only);
    assert!(!p.has_spoken_final);
    assert_eq!((p.start_ms, p.end_ms), (50, 90));
}

#[test]
fn utterance_accumulates_and_finalizes() {
    let mut u = ActiveUtterance::new_at(1000 * MS);
    assert_eq!(u.id, "turn-1000");
    assert!(u.build_partial_segment().is_none());
    let p = parse_soniox_update(&[tok("Hi ", 200, 300, true, false), tok("there", 300, 400, false, false)]);
    u.apply_update(&p);
    assert_eq!(u.original_text(), "Hi there");
    let partial = u.build_partial_segment().unwrap();
    assert!(!partial.is_final);
    assert_eq!((partial.start_ms, partial.end_ms), (200, 400));
    let p2 = parse_soniox_update(&[tok("x", 100, 600, false, false)]);
    u.apply_update(&p2);
    assert_eq!((u.start_ms, u.end_ms), (100, 600));
    assert_eq!(u.original_text(), "Hi x");
    let c = u.into_finalized_candidate_at(3, 5000 * MS).unwrap();
    assert_eq!(c.segment_id, "turn-1000");
    assert_eq!(c.finalized_at, 5000 * MS);
    assert_eq!(c.session_generation, 3);
    assert_eq!(c.late_translation_state, LateTranslationState::Accepting);
    let fin = c.build_final_segment();
    assert!(fin.is_final);
    assert_eq!(fin.original_text, "Hi x");
}

#[test]
fn empty_utterance_gives_no_candidate() {
    let u = ActiveUtterance::new_at(5 * MS);
    assert!(u.into_finalized_candidate_at(1, 10 * MS).is_none());
}

/// Nanoseconds in a millisecond.
const MS: i128 = 1_000_000;

fn candidate(start: u64, end: u64, finalized_ms: i128, generation: u32) -> FinalizedUtteranceCandidate {
    FinalizedUtteranceCandidate {
        segment_id: format!("turn-{start}"),
        created_at: 0,
        speaker: None,
        start_ms: start,
        end_ms: end,
        original_text: "text".to_string(),
        translation_final_text: String::new(),
        translation_nonfinal_text: String::new(),
        finalized_at: finalized_ms * MS,
        session_generation: generation,
        late_translation_state: LateTranslationState::Accepting,
    }
}

#[test]
fn translation_only_update_matches_overlapping_candidate() {
    let p = parse_soniox_update(&[tok("Hallo", 150, 250, true, true)]);
    let cands = vec![candidate(100, 300, 10_000, 1), candidate(2_000, 3_000, 10_000, 1)];
    assert_eq!(match_translation_only_update(&p, &cands, 1, 10_100 * MS, 3000), TranslationOnlyMatch::Unique(0));
}

#[test]
fn translation_only_update_without_clear_winner_is_ambiguous() {
    let p = parse_soniox_update(&[tok("Hallo", 150, 250, true, true)]);
    let cands = vec![candidate(100, 300, 10_000, 1), candidate(120, 260, 10_000, 1)];
    assert_eq!(match_translation_only_update(&p, &cands, 1, 10_100 * MS, 3000), TranslationOnlyMatch::Ambiguous);
}

#[test]
fn translation_only_update_ignores_other_generations_and_stale_candidates() {
    let p = parse_soniox_update(&[tok("Hallo", 150, 250, true, true)]);
    let cands = vec![candidate(100, 300, 10_000, 2), candidate(100, 300, 1_000, 1)];
    assert_eq!(match_translation_only_update(&p, &cands, 1, 10_100 * MS, 3000), TranslationOnlyMatch::NoMatch);
}

#[test]
fn untimed_translation_scores_by_recency() {
    // 140 - 100/10 + 5 = 135 for the recent one; 140 - 2000/10 < 0 gives 0 for the old one
    let p = parse_soniox_update(&[tok("Hallo", 0, 0, true, true)]);
    let cands = vec![candidate(100, 300, 10_000, 1), candidate(100, 300, 8_100, 1)];
    assert_eq!(match_translation_only_update(&p, &cands, 1, 10_100 * MS, 3000), TranslationOnlyMatch::Unique(0));
}

#[test]
fn refresh_closes_and_drops_settled_front() {
    let mut w = vec![candidate(1, 2, 0, 1), candidate(3, 4, 9_000, 1), candidate(5, 6, 0, 1)];
    refresh_finalized_candidates(&mut w, 1, 10_000 * MS, 3000);
    assert_eq!(w.len(), 2);
    assert_eq!(w[0].start_ms, 3);
    assert_eq!(w[0].late_translation_state, LateTranslationState::Accepting);
    assert_eq!(w[1].late_translation_state, LateTranslationState::Closed);
}

#[test]
fn assembler_emits_partial_then_final_then_late_translation() {
    let mut a = TranscriptAssembler::new(1_000 * MS);
    assert!(a.on_update(&[], 1, 1_000 * MS).is_none());
    let partial = a.on_update(&[tok("Hello", 100, 200, false, false)], 1, 1_100 * MS).unwrap();
    assert!(!partial.is_final);
    assert_eq!(partial.id, "turn-1000");
    let fin = a.on_update(&[tok("Hello world", 100, 400, true, false)], 1, 1_200 * MS).unwrap();
    assert!(fin.is_final);
    assert_eq!(fin.original_text, "Hello world");
    let late = a.on_update(&[tok("Hallo Welt", 100, 400, true, true)], 1, 1_300 * MS).unwrap();
    assert!(late.is_final);
    assert_eq!(late.id, "turn-1000");
    assert_eq!(late.translated_text, "Hallo Welt");
}

#[test]
fn fresh_segment_gets_a_unique_id() {
    let a = TranscriptSegment::new(1, 2, "x".to_string());
    let b = TranscriptSegment::new(1, 2, "x".to_string());
    assert_eq!(a.id.len(), 36);
    assert!(a.id.starts_with("seg_"));
    assert!(a.id[4..].chars().all(|c| c.is_ascii_digit() || ('a'..='f').contains(&c)));
    assert_ne!(a.id, b.id);
    assert!(!a.is_final);
    assert_eq!(a.translated_text, "");
    assert!(a.created_at > 0);
}

#[test]
fn fresh_utterance_is_named_by_its_start() {
    let u = ActiveUtterance::new();
    let seg = u.build_partial_segment();
    assert!(seg.is_none());
    let mut u = ActiveUtterance::new();
    u.apply_update(&parse_soniox_update(&[tok("hi", 1, 2, true, false)]));
    let c = u.into_finalized_candidate(4).unwrap();
    assert!(c.segment_id.starts_with("turn-"));
    assert_eq!(c.session_generation, 4);
    assert!(c.finalized_at >= c.created_at);
}

#[test]
fn eviction_keeps_capacity_segments() {
    let mut b = TranscriptBuffer::new(2);
    b.upsert(seg("a", "1", true));
    b.upsert(seg("b", "2", true));
    assert_eq!(ids(&b.snapshot()), vec!["a", "b"]);
    b.upsert(seg("c", "3", true));
    assert_eq!(ids(&b.snapshot()), vec!["b", "c"]);
}

#[test]
fn refresh_keeps_order_and_never_reopens() {
    let mut w = vec![candidate(1, 2, 9_500, 1), candidate(3, 4, 9_000, 2), candidate(5, 6, 9_800, 1)];
    w[2].late_translation_state = LateTranslationState::Expired;
    refresh_finalized_candidates(&mut w, 1, 10_000 * MS, 3000);
    assert_eq!(w.len(), 3);
    assert_eq!(w.iter().map(|c| c.start_ms).collect::<Vec<_>>(), vec![1, 3, 5]);
    assert_eq!(w[0].late_translation_state, LateTranslationState::Accepting);
    assert_eq!(w[1].late_translation_state, LateTranslationState::Closed);
    assert_eq!(w[2].late_translation_state, LateTranslationState::Expired);
}

#[test]
fn late_translation_window_counts_whole_elapsed_milliseconds() {
    // 3000.999999 ms after finalisation still counts as 3000 ms; 3001 ms is past the limit.
    let mut w = vec![candidate(1, 2, 0, 1)];
    refresh_finalized_candidates(&mut w, 1, 3_000 * MS + 999_999, 3000);
    assert_eq!(w[0].late_translation_state, LateTranslationState::Accepting);
    assert!(w[0].is_accepting(1, 3_000 * MS + 999_999, 3000));
    assert!(!w[0].is_accepting(1, 3_001 * MS, 3000));
    refresh_finalized_candidates(&mut w, 1, 3_001 * MS, 3000);
    assert!(w.is_empty());
}

#[test]
fn utterance_name_uses_milliseconds_rounded_down() {
    assert_eq!(ActiveUtterance::new_at(1_234 * MS + 999_999).id, "turn-1234");
    assert_eq!(ActiveUtterance::new_at(-1).id, "turn--1");
}
