//! Turning the token stream of the real-time transcription service into
//! transcript segments: parsing one update, accumulating the utterance in
//! progress, and attaching late translations to recently finalised
//! utterances.
use vstd::prelude::*;
use crate::numeric::{push_signed_decimal_wide, signed_decimal};
use crate::clock::{elapsed_millis, elapsed_ms};
use crate::text::{str_eq, trim, trim_seq, string_from_chars};
use crate::transcript_buffer::{opt_str_view, SegmentView};
use crate::types::{TranscriptSegment, clone_opt_string};

verus! {

/// One token of a transcription update.
#[derive(Debug, Clone)]
pub struct SonioxToken {
    pub text: String,
    pub start_ms: u64,
    pub end_ms: u64,
    pub speaker: Option<String>,
    pub is_final: bool,
    pub translation_status: Option<String>,
}

pub struct TokenView {
    pub text: Seq<char>,
    pub start_ms: u64,
    pub end_ms: u64,
    pub speaker: Option<Seq<char>>,
    pub is_final: bool,
    pub translation_status: Option<Seq<char>>,
}

impl View for SonioxToken {
    type V = TokenView;

    open spec fn view(&self) -> TokenView {
        TokenView {
            text: self.text@,
            start_ms: self.start_ms,
            end_ms: self.end_ms,
            speaker: opt_str_view(self.speaker),
            is_final: self.is_final,
            translation_status: opt_str_view(self.translation_status),
        }
    }
}

pub open spec fn token_views(ts: Seq<SonioxToken>) -> Seq<TokenView> {
    ts.map_values(|t: SonioxToken| t@)
}

#[derive(Debug, Clone, Copy, PartialEq, Eq, Structural)]
pub enum LateTranslationState {
    Accepting,
    Closed,
    Expired,
}

/// What one update says about the utterance in progress.
#[derive(Debug, Clone)]
pub struct ParsedSonioxUpdate {
    pub original_final_delta: String,
    pub original_nonfinal_snapshot: String,
    pub translation_final_delta: String,
    pub translation_nonfinal_snapshot: String,
    pub speaker: Option<String>,
    pub start_ms: u64,
    pub end_ms: u64,
    pub has_spoken_text: bool,
    pub has_translation_text: bool,
    pub has_spoken_final: bool,
    pub is_translation_only: bool,
}

pub struct ParsedView {
    pub original_final_delta: Seq<char>,
    pub original_nonfinal_snapshot: Seq<char>,
    pub translation_final_delta: Seq<char>,
    pub translation_nonfinal_snapshot: Seq<char>,
    pub speaker: Option<Seq<char>>,
    pub start_ms: u64,
    pub end_ms: u64,
    pub has_spoken_text: bool,
    pub has_translation_text: bool,
    pub has_spoken_final: bool,
    pub is_translation_only: bool,
}

impl View for ParsedSonioxUpdate {
    type V = ParsedView;

    open spec fn view(&self) -> ParsedView {
        ParsedView {
            original_final_delta: self.original_final_delta@,
            original_nonfinal_snapshot: self.original_nonfinal_snapshot@,
            translation_final_delta: self.translation_final_delta@,
            translation_nonfinal_snapshot: self.translation_nonfinal_snapshot@,
            speaker: opt_str_view(self.speaker),
            start_ms: self.start_ms,
            end_ms: self.end_ms,
            has_spoken_text: self.has_spoken_text,
            has_translation_text: self.has_translation_text,
            has_spoken_final: self.has_spoken_final,
            is_translation_only: self.is_translation_only,
        }
    }
}

// ---------------------------------------------------------------------------
// Parsing one update
// ---------------------------------------------------------------------------
pub open spec fn translation_tag() -> Seq<char> {
    seq!['t', 'r', 'a', 'n', 's', 'l', 'a', 't', 'i', 'o', 'n']
}

pub open spec fn end_marker() -> Seq<char> {
    seq!['<', 'e', 'n', 'd', '>']
}

/// A token whose trimmed text is `.` or `<end>` carries no transcript.
pub open spec fn is_marker(text: Seq<char>) -> bool {
    trim_seq(text) == seq!['.'] || trim_seq(text) == end_marker()
}

pub open spec fn is_translation(t: TokenView) -> bool {
    t.translation_status == Some(translation_tag())
}

/// A non-marker token of the given class (translation or spoken).
pub open spec fn counts(t: TokenView, translation: bool) -> bool {
    !is_marker(t.text) && is_translation(t) == translation
}

pub open spec fn has_timing(t: TokenView) -> bool {
    t.start_ms != 0 || t.end_ms != 0
}

/// Concatenated texts of the non-marker tokens of one class and finality.
pub open spec fn class_text(ts: Seq<TokenView>, translation: bool, fin: bool) -> Seq<char>
    decreases ts.len(),
{
    if ts.len() == 0 {
        seq![]
    } else {
        let t = ts.last();
        let p = class_text(ts.drop_last(), translation, fin);
        if counts(t, translation) && t.is_final == fin {
            p + t.text
        } else {
            p
        }
    }
}

/// Whether some non-marker token of the class (and, when `only_final`, final)
/// is present.
pub open spec fn any_of_class(ts: Seq<TokenView>, translation: bool, only_final: bool) -> bool
    decreases ts.len(),
{
    if ts.len() == 0 {
        false
    } else {
        let t = ts.last();
        any_of_class(ts.drop_last(), translation, only_final) || (counts(t, translation) && (
        !only_final || t.is_final))
    }
}

/// The speaker of the last non-marker token that names one.
pub open spec fn last_speaker(ts: Seq<TokenView>) -> Option<Seq<char>>
    decreases ts.len(),
{
    if ts.len() == 0 {
        None
    } else {
        let t = ts.last();
        if !is_marker(t.text) && t.speaker is Some {
            t.speaker
        } else {
            last_speaker(ts.drop_last())
        }
    }
}

pub open spec fn any_timed(ts: Seq<TokenView>, translation: bool) -> bool
    decreases ts.len(),
{
    if ts.len() == 0 {
        false
    } else {
        any_timed(ts.drop_last(), translation) || (counts(ts.last(), translation) && has_timing(
            ts.last(),
        ))
    }
}

/// Earliest start among timed tokens of the class (`u64::MAX` if none).
pub open spec fn min_start(ts: Seq<TokenView>, translation: bool) -> u64
    decreases ts.len(),
{
    if ts.len() == 0 {
        u64::MAX
    } else {
        let t = ts.last();
        let p = min_start(ts.drop_last(), translation);
        if counts(t, translation) && has_timing(t) && t.start_ms < p {
            t.start_ms
        } else {
            p
        }
    }
}

/// Latest end among timed tokens of the class (0 if none).
pub open spec fn max_end(ts: Seq<TokenView>, translation: bool) -> u64
    decreases ts.len(),
{
    if ts.len() == 0 {
        0
    } else {
        let t = ts.last();
        let p = max_end(ts.drop_last(), translation);
        if counts(t, translation) && has_timing(t) && t.end_ms > p {
            t.end_ms
        } else {
            p
        }
    }
}

/// The parse of an update: texts by class and finality, the last named
/// speaker, and the time span of the timed spoken tokens (or, when there
/// are none, of the timed translation tokens).
pub open spec fn parsed_update(ts: Seq<TokenView>) -> ParsedView {
    let spoken = any_of_class(ts, false, false);
    let translated = any_of_class(ts, true, false);
    ParsedView {
        original_final_delta: class_text(ts, false, true),
        original_nonfinal_snapshot: class_text(ts, false, false),
        translation_final_delta: class_text(ts, true, true),
        translation_nonfinal_snapshot: class_text(ts, true, false),
        speaker: last_speaker(ts),
        start_ms: if any_timed(ts, false) {
            min_start(ts, false)
        } else if any_timed(ts, true) {
            min_start(ts, true)
        } else {
            0
        },
        end_ms: if any_timed(ts, false) {
            max_end(ts, false)
        } else if any_timed(ts, true) {
            max_end(ts, true)
        } else {
            0
        },
        has_spoken_text: spoken,
        has_translation_text: translated,
        has_spoken_final: any_of_class(ts, false, true),
        is_translation_only: translated && !spoken,
    }
}

fn should_ignore_transcript_marker(text: &str) -> (r: bool)
    ensures
        r == is_marker(text@),
{
    let t = trim(text);
    proof {
        reveal_strlit(".");
        reveal_strlit("<end>");
        assert("."@ =~= seq!['.']);
        assert("<end>"@ =~= end_marker());
    }
    str_eq(t, ".") || str_eq(t, "<end>")
}

fn is_translation_token(t: &SonioxToken) -> (r: bool)
    ensures
        r == is_translation(t@),
{
    match &t.translation_status {
        Some(s) => {
            proof {
                reveal_strlit("translation");
                assert("translation"@ =~= translation_tag());
            }
            str_eq(s.as_str(), "translation")
        },
        None => false,
    }
}

pub fn parse_soniox_update(tokens: &[SonioxToken]) -> (parsed: ParsedSonioxUpdate)
    ensures
        parsed@ == parsed_update(token_views(tokens@)),
{
    let ghost ts = token_views(tokens@);
    let mut original_final_delta = String::new();
    let mut original_nonfinal_snapshot = String::new();
    let mut translation_final_delta = String::new();
    let mut translation_nonfinal_snapshot = String::new();
    let mut speaker: Option<String> = None;
    let mut has_spoken_text = false;
    let mut has_translation_text = false;
    let mut has_spoken_final = false;
    let mut spoken_min_start: u64 = u64::MAX;
    let mut spoken_max_end: u64 = 0;
    let mut translation_min_start: u64 = u64::MAX;
    let mut translation_max_end: u64 = 0;
    let mut has_spoken_timing = false;
    let mut has_translation_timing = false;
    for i in 0..tokens.len()
        invariant
            ts == token_views(tokens@),
            original_final_delta@ == class_text(ts.take(i as int), false, true),
            original_nonfinal_snapshot@ == class_text(ts.take(i as int), false, false),
            translation_final_delta@ == class_text(ts.take(i as int), true, true),
            translation_nonfinal_snapshot@ == class_text(ts.take(i as int), true, false),
            opt_str_view(speaker) == last_speaker(ts.take(i as int)),
            has_spoken_text == any_of_class(ts.take(i as int), false, false),
            has_translation_text == any_of_class(ts.take(i as int), true, false),
            has_spoken_final == any_of_class(ts.take(i as int), false, true),
            spoken_min_start == min_start(ts.take(i as int), false),
            spoken_max_end == max_end(ts.take(i as int), false),
            translation_min_start == min_start(ts.take(i as int), true),
            translation_max_end == max_end(ts.take(i as int), true),
            has_spoken_timing == any_timed(ts.take(i as int), false),
            has_translation_timing == any_timed(ts.take(i as int), true),
    {
        let token = &tokens[i];
        let ghost p = ts.take(i as int);
        let ghost q = ts.take(i + 1);
        proof {
            assert(q.drop_last() =~= p);
            assert(q.last() == tokens@[i as int]@);
        }
        let marker = should_ignore_transcript_marker(token.text.as_str());
        if !marker {
            let is_tr = is_translation_token(token);
            let timed = token.start_ms != 0 || token.end_ms != 0;
            if token.speaker.is_some() {
                speaker = clone_opt_string(&token.speaker);
            }
            if is_tr {
                has_translation_text = true;
                if token.is_final {
                    translation_final_delta.append(token.text.as_str());
                } else {
                    translation_nonfinal_snapshot.append(token.text.as_str());
                }
                if timed {
                    if token.start_ms < translation_min_start {
                        translation_min_start = token.start_ms;
                    }
                    if token.end_ms > translation_max_end {
                        translation_max_end = token.end_ms;
                    }
                    has_translation_timing = true;
                }
            } else {
                has_spoken_text = true;
                if token.is_final {
                    original_final_delta.append(token.text.as_str());
                    has_spoken_final = true;
                } else {
                    original_nonfinal_snapshot.append(token.text.as_str());
                }
                if timed {
                    if token.start_ms < spoken_min_start {
                        spoken_min_start = token.start_ms;
                    }
                    if token.end_ms > spoken_max_end {
                        spoken_max_end = token.end_ms;
                    }
                    has_spoken_timing = true;
                }
            }
        }
    }
    proof {
        assert(ts.take(tokens@.len() as int) =~= ts);
    }
    let is_translation_only = has_translation_text && !has_spoken_text;
    let (start_ms, end_ms) = if has_spoken_timing {
        (spoken_min_start, spoken_max_end)
    } else if has_translation_timing {
        (translation_min_start, translation_max_end)
    } else {
        (0, 0)
    };
    ParsedSonioxUpdate {
        original_final_delta,
        original_nonfinal_snapshot,
        translation_final_delta,
        translation_nonfinal_snapshot,
        speaker,
        start_ms,
        end_ms,
        has_spoken_text,
        has_translation_text,
        has_spoken_final,
        is_translation_only,
    }
}

// ---------------------------------------------------------------------------
// The utterance in progress
// ---------------------------------------------------------------------------
/// The utterance that the service is still transcribing.
#[derive(Debug, Clone)]
pub struct ActiveUtterance {
    pub id: String,
    pub original_final_text: String,
    pub original_nonfinal_text: String,
    pub translation_final_text: String,
    pub translation_nonfinal_text: String,
    pub speaker: Option<String>,
    pub start_ms: u64,
    pub end_ms: u64,
    pub created_at: i128,
}

pub struct UtteranceView {
    pub id: Seq<char>,
    pub original_final_text: Seq<char>,
    pub original_nonfinal_text: Seq<char>,
    pub translation_final_text: Seq<char>,
    pub translation_nonfinal_text: Seq<char>,
    pub speaker: Option<Seq<char>>,
    pub start_ms: u64,
    pub end_ms: u64,
    pub created_at: i128,
}

impl View for ActiveUtterance {
    type V = UtteranceView;

    open spec fn view(&self) -> UtteranceView {
        UtteranceView {
            id: self.id@,
            original_final_text: self.original_final_text@,
            original_nonfinal_text: self.original_nonfinal_text@,
            translation_final_text: self.translation_final_text@,
            translation_nonfinal_text: self.translation_nonfinal_text@,
            speaker: opt_str_view(self.speaker),
            start_ms: self.start_ms,
            end_ms: self.end_ms,
            created_at: self.created_at,
        }
    }
}

pub open spec fn turn_prefix() -> Seq<char> {
    seq!['t', 'u', 'r', 'n', '-']
}

/// A fresh utterance started at the instant `now`, named `turn-` and that
/// instant in whole milliseconds.
pub open spec fn fresh_utterance(now: i128) -> UtteranceView {
    UtteranceView {
        id: turn_prefix() + signed_decimal(crate::clock::millis_of(now as int)),
        original_final_text: seq![],
        original_nonfinal_text: seq![],
        translation_final_text: seq![],
        translation_nonfinal_text: seq![],
        speaker: None,
        start_ms: 0,
        end_ms: 0,
        created_at: now,
    }
}

/// An update applied to the utterance: final texts grow by the update's
/// final deltas, non-final texts are replaced by its snapshots, a named
/// speaker replaces the old one, and the time span widens to cover the
/// update's (zero times in the update change nothing).
pub open spec fn applied(u: UtteranceView, p: ParsedView) -> UtteranceView {
    UtteranceView {
        id: u.id,
        original_final_text: u.original_final_text + p.original_final_delta,
        original_nonfinal_text: p.original_nonfinal_snapshot,
        translation_final_text: u.translation_final_text + p.translation_final_delta,
        translation_nonfinal_text: p.translation_nonfinal_snapshot,
        speaker: if p.speaker is Some {
            p.speaker
        } else {
            u.speaker
        },
        start_ms: if p.start_ms == 0 {
            u.start_ms
        } else if u.start_ms == 0 {
            p.start_ms
        } else if p.start_ms < u.start_ms {
            p.start_ms
        } else {
            u.start_ms
        },
        end_ms: if p.end_ms == 0 {
            u.end_ms
        } else if p.end_ms > u.end_ms {
            p.end_ms
        } else {
            u.end_ms
        },
        created_at: u.created_at,
    }
}

pub open spec fn utterance_original(u: UtteranceView) -> Seq<char> {
    u.original_final_text + u.original_nonfinal_text
}

pub open spec fn utterance_translated(u: UtteranceView) -> Seq<char> {
    u.translation_final_text + u.translation_nonfinal_text
}

pub open spec fn utterance_segment(u: UtteranceView, is_final: bool) -> SegmentView {
    SegmentView {
        id: u.id,
        start_ms: u.start_ms,
        end_ms: u.end_ms,
        speaker: u.speaker,
        original_text: utterance_original(u),
        translated_text: utterance_translated(u),
        is_final,
        created_at: u.created_at,
    }
}

pub open spec fn utterance_is_empty(u: UtteranceView) -> bool {
    utterance_original(u).len() == 0 && utterance_translated(u).len() == 0
}

fn join_strings(a: &String, b: &String) -> (r: String)
    ensures
        r@ == a@ + b@,
{
    let mut r = a.clone();
    r.append(b.as_str());
    r
}

impl ActiveUtterance {
    /// An empty utterance begun now (see `new_at`).
    pub fn new() -> (u: Self)
        ensures
            exists|now: i128| u@ == fresh_utterance(now),
    {
        let now = crate::clock::utc_now_nanos();
        ActiveUtterance::new_at(now)
    }

    /// An empty utterance begun at the instant `now`, named `turn-` and
    /// that instant in whole milliseconds.
    pub fn new_at(now: i128) -> (u: Self)
        ensures
            u@ == fresh_utterance(now),
    {
        let mut id_chars: Vec<char> = Vec::new();
        id_chars.push('t');
        id_chars.push('u');
        id_chars.push('r');
        id_chars.push('n');
        id_chars.push('-');
        let ms = crate::clock::millis_from_nanos(now);
        push_signed_decimal_wide(&mut id_chars, ms);
        let id = string_from_chars(&id_chars);
        assert(id@ =~= turn_prefix() + signed_decimal(crate::clock::millis_of(now as int)));
        ActiveUtterance {
            id,
            original_final_text: String::new(),
            original_nonfinal_text: String::new(),
            translation_final_text: String::new(),
            translation_nonfinal_text: String::new(),
            speaker: None,
            start_ms: 0,
            end_ms: 0,
            created_at: now,
        }
    }

    pub fn duplicate(&self) -> (r: Self)
        ensures
            r@ == self@,
    {
        ActiveUtterance {
            id: self.id.clone(),
            original_final_text: self.original_final_text.clone(),
            original_nonfinal_text: self.original_nonfinal_text.clone(),
            translation_final_text: self.translation_final_text.clone(),
            translation_nonfinal_text: self.translation_nonfinal_text.clone(),
            speaker: clone_opt_string(&self.speaker),
            start_ms: self.start_ms,
            end_ms: self.end_ms,
            created_at: self.created_at,
        }
    }

    pub fn apply_update(&mut self, parsed: &ParsedSonioxUpdate)
        ensures
            final(self)@ == applied(old(self)@, parsed@),
    {
        if parsed.speaker.is_some() {
            self.speaker = clone_opt_string(&parsed.speaker);
        }
        if parsed.start_ms != 0 {
            self.start_ms = if self.start_ms == 0 {
                parsed.start_ms
            } else if parsed.start_ms < self.start_ms {
                parsed.start_ms
            } else {
                self.start_ms
            };
        }
        if parsed.end_ms != 0 {
            if parsed.end_ms > self.end_ms {
                self.end_ms = parsed.end_ms;
            }
        }
        self.original_final_text.append(parsed.original_final_delta.as_str());
        self.original_nonfinal_text = parsed.original_nonfinal_snapshot.clone();
        self.translation_final_text.append(parsed.translation_final_delta.as_str());
        self.translation_nonfinal_text = parsed.translation_nonfinal_snapshot.clone();
    }

    pub fn original_text(&self) -> (r: String)
        ensures
            r@ == utterance_original(self@),
    {
        join_strings(&self.original_final_text, &self.original_nonfinal_text)
    }

    pub fn translated_text(&self) -> (r: String)
        ensures
            r@ == utterance_translated(self@),
    {
        join_strings(&self.translation_final_text, &self.translation_nonfinal_text)
    }

    fn build_segment(&self, is_final: bool) -> (r: TranscriptSegment)
        ensures
            r@ == utterance_segment(self@, is_final),
    {
        TranscriptSegment {
            id: self.id.clone(),
            start_ms: self.start_ms,
            end_ms: self.end_ms,
            speaker: clone_opt_string(&self.speaker),
            original_text: self.original_text(),
            translated_text: self.translated_text(),
            is_final,
            created_at: self.created_at,
        }
    }

    /// The non-final segment showing the utterance so far; none while it has
    /// no text at all.
    pub fn build_partial_segment(&self) -> (r: Option<TranscriptSegment>)
        ensures
            match r {
                Some(s) => !utterance_is_empty(self@) && s@ == utterance_segment(self@, false),
                None => utterance_is_empty(self@),
            },
    {
        let segment = self.build_segment(false);
        if segment.original_text.as_str().unicode_len() == 0
            && segment.translated_text.as_str().unicode_len() == 0 {
            None
        } else {
            Some(segment)
        }
    }

    /// Closes the utterance now (see `into_finalized_candidate_at`).
    pub fn into_finalized_candidate(self, session_generation: u32) -> (r: Option<FinalizedUtteranceCandidate>)
        ensures
            match r {
                Some(c) => !utterance_is_empty(self@) && exists|now: i128| c@ == finalized(
                    self@,
                    session_generation,
                    now,
                ),
                None => utterance_is_empty(self@),
            },
    {
        let now = crate::clock::utc_now_nanos();
        self.into_finalized_candidate_at(session_generation, now)
    }

    /// Closes the utterance at `now`; none when it has no text at all.
    pub fn into_finalized_candidate_at(self, session_generation: u32, now: i128) -> (r: Option<
        FinalizedUtteranceCandidate,
    >)
        ensures
            match r {
                Some(c) => !utterance_is_empty(self@) && c@ == finalized(
                    self@,
                    session_generation,
                    now,
                ),
                None => utterance_is_empty(self@),
            },
    {
        let original_text = self.original_text();
        let translated_text = self.translated_text();
        if original_text.as_str().unicode_len() == 0 && translated_text.as_str().unicode_len()
            == 0 {
            return None;
        }
        Some(
            FinalizedUtteranceCandidate {
                segment_id: self.id,
                created_at: self.created_at,
                speaker: self.speaker,
                start_ms: self.start_ms,
                end_ms: self.end_ms,
                original_text,
                translation_final_text: self.translation_final_text,
                translation_nonfinal_text: self.translation_nonfinal_text,
                finalized_at: now,
                session_generation,
                late_translation_state: LateTranslationState::Accepting,
            },
        )
    }
}

// ---------------------------------------------------------------------------
// Finalised utterances that may still receive a late translation
// ---------------------------------------------------------------------------
#[derive(Debug, Clone)]
pub struct FinalizedUtteranceCandidate {
    pub segment_id: String,
    pub created_at: i128,
    pub speaker: Option<String>,
    pub start_ms: u64,
    pub end_ms: u64,
    pub original_text: String,
    pub translation_final_text: String,
    pub translation_nonfinal_text: String,
    pub finalized_at: i128,
    pub session_generation: u32,
    pub late_translation_state: LateTranslationState,
}

pub struct CandidateView {
    pub segment_id: Seq<char>,
    pub created_at: i128,
    pub speaker: Option<Seq<char>>,
    pub start_ms: u64,
    pub end_ms: u64,
    pub original_text: Seq<char>,
    pub translation_final_text: Seq<char>,
    pub translation_nonfinal_text: Seq<char>,
    pub finalized_at: i128,
    pub session_generation: u32,
    pub late_translation_state: LateTranslationState,
}

impl View for FinalizedUtteranceCandidate {
    type V = CandidateView;

    open spec fn view(&self) -> CandidateView {
        CandidateView {
            segment_id: self.segment_id@,
            created_at: self.created_at,
            speaker: opt_str_view(self.speaker),
            start_ms: self.start_ms,
            end_ms: self.end_ms,
            original_text: self.original_text@,
            translation_final_text: self.translation_final_text@,
            translation_nonfinal_text: self.translation_nonfinal_text@,
            finalized_at: self.finalized_at,
            session_generation: self.session_generation,
            late_translation_state: self.late_translation_state,
        }
    }
}

pub open spec fn candidate_views(cs: Seq<FinalizedUtteranceCandidate>) -> Seq<CandidateView> {
    cs.map_values(|c: FinalizedUtteranceCandidate| c@)
}

/// The utterance closed at `now`, accepting late translations.
pub open spec fn finalized(u: UtteranceView, session_generation: u32, now: i128) -> CandidateView {
    CandidateView {
        segment_id: u.id,
        created_at: u.created_at,
        speaker: u.speaker,
        start_ms: u.start_ms,
        end_ms: u.end_ms,
        original_text: utterance_original(u),
        translation_final_text: u.translation_final_text,
        translation_nonfinal_text: u.translation_nonfinal_text,
        finalized_at: now,
        session_generation,
        late_translation_state: LateTranslationState::Accepting,
    }
}

pub open spec fn with_translation(c: CandidateView, p: ParsedView) -> CandidateView {
    CandidateView {
        translation_final_text: c.translation_final_text + p.translation_final_delta,
        translation_nonfinal_text: p.translation_nonfinal_snapshot,
        ..c
    }
}

pub open spec fn candidate_translated(c: CandidateView) -> Seq<char> {
    c.translation_final_text + c.translation_nonfinal_text
}

pub open spec fn candidate_segment(c: CandidateView) -> SegmentView {
    SegmentView {
        id: c.segment_id,
        start_ms: c.start_ms,
        end_ms: c.end_ms,
        speaker: c.speaker,
        original_text: c.original_text,
        translated_text: candidate_translated(c),
        is_final: true,
        created_at: c.created_at,
    }
}

/// Whether the candidate still takes late translations of this session
/// generation: it is accepting and finalised at most `ttl_ms` ago.
pub open spec fn accepting(c: CandidateView, session_generation: u32, now: int, ttl_ms: int) -> bool {
    c.session_generation == session_generation && c.late_translation_state
        == LateTranslationState::Accepting && elapsed_ms(now, c.finalized_at as int) <= ttl_ms
}

impl FinalizedUtteranceCandidate {
    pub fn apply_translation_update(&mut self, parsed: &ParsedSonioxUpdate)
        ensures
            final(self)@ == with_translation(old(self)@, parsed@),
    {
        self.translation_final_text.append(parsed.translation_final_delta.as_str());
        self.translation_nonfinal_text = parsed.translation_nonfinal_snapshot.clone();
    }

    pub fn is_accepting(&self, session_generation: u32, now: i128, ttl_ms: i64) -> (r: bool)
        ensures
            r == accepting(self@, session_generation, now as int, ttl_ms as int),
    {
        self.session_generation == session_generation && self.late_translation_state
            == LateTranslationState::Accepting && elapsed_millis(now, self.finalized_at)
            <= ttl_ms as i128
    }

    pub fn translated_text(&self) -> (r: String)
        ensures
            r@ == candidate_translated(self@),
    {
        join_strings(&self.translation_final_text, &self.translation_nonfinal_text)
    }

    pub fn build_final_segment(&self) -> (r: TranscriptSegment)
        ensures
            r@ == candidate_segment(self@),
    {
        TranscriptSegment {
            id: self.segment_id.clone(),
            start_ms: self.start_ms,
            end_ms: self.end_ms,
            speaker: clone_opt_string(&self.speaker),
            original_text: self.original_text.clone(),
            translated_text: self.translated_text(),
            is_final: true,
            created_at: self.created_at,
        }
    }
}

// ---------------------------------------------------------------------------
// Matching a translation-only update to a finalised utterance
// ---------------------------------------------------------------------------
#[derive(Debug, Clone, Copy, PartialEq, Eq, Structural)]
pub enum TranslationOnlyMatch {
    Unique(usize),
    NoMatch,
    Ambiguous,
}

pub open spec fn valid_interval(start_ms: u64, end_ms: u64) -> bool {
    start_ms != 0 && end_ms != 0 && start_ms <= end_ms
}

/// How likely the update belongs to the candidate: 100 for overlapping
/// time spans or 30 for spans at most 300 ms apart; without timing in the
/// update, 140 minus one per 10 ms since finalisation (not below 0); plus or
/// minus 20 for a matching or different speaker; plus 5 when finalised at
/// most a second ago.
pub open spec fn translation_score(p: ParsedView, c: CandidateView, now: int) -> int {
    let pt = valid_interval(p.start_ms, p.end_ms);
    let ct = valid_interval(c.start_ms, c.end_ms);
    let timing: int = if pt && ct {
        if p.start_ms <= c.end_ms && p.end_ms >= c.start_ms {
            100
        } else {
            let distance: int = if p.end_ms < c.start_ms {
                c.start_ms - p.end_ms
            } else {
                p.start_ms - c.end_ms
            };
            if distance <= 300 {
                30
            } else {
                0
            }
        }
    } else {
        0
    };
    let recency = elapsed_ms(now, c.finalized_at as int);
    let no_timing: int = if !pt {
        let steps = if recency > 0 {
            recency / 10
        } else {
            0
        };
        if 140 - steps > 0 {
            140 - steps
        } else {
            0
        }
    } else {
        0
    };
    let speaker: int = match (p.speaker, c.speaker) {
        (Some(a), Some(b)) => if a == b {
            20
        } else {
            -20
        },
        _ => 0,
    };
    let recent: int = if recency <= 1000 {
        5
    } else {
        0
    };
    timing + no_timing + speaker + recent
}

pub open spec fn max_ttl_ms() -> int {
    21_474_836_479
}

fn opt_eq(a: &Option<String>, b: &Option<String>) -> (r: Option<bool>)
    ensures
        match (opt_str_view(*a), opt_str_view(*b)) {
            (Some(x), Some(y)) => r == Some(x == y),
            _ => r is None,
        },
{
    match (a, b) {
        (Some(x), Some(y)) => Some(*x == *y),
        _ => None,
    }
}

fn score_translation_only_candidate(
    parsed: &ParsedSonioxUpdate,
    candidate: &FinalizedUtteranceCandidate,
    now: i128,
) -> (r: i32)
    requires
        elapsed_ms(now as int, candidate.finalized_at as int) <= max_ttl_ms(),
    ensures
        r as int == translation_score(parsed@, candidate@, now as int),
{
    let mut score: i32 = 0;
    let has_parsed_timing = parsed.start_ms != 0 && parsed.end_ms != 0 && parsed.start_ms
        <= parsed.end_ms;
    let has_candidate_timing = candidate.start_ms != 0 && candidate.end_ms != 0
        && candidate.start_ms <= candidate.end_ms;
    if has_parsed_timing && has_candidate_timing {
        let overlaps = parsed.start_ms <= candidate.end_ms && parsed.end_ms >= candidate.start_ms;
        if overlaps {
            score += 100;
        } else {
            let distance = if parsed.end_ms < candidate.start_ms {
                candidate.start_ms - parsed.end_ms
            } else {
                parsed.start_ms - candidate.end_ms
            };
            if distance <= 300 {
                score += 30;
            }
        }
    }
    let recency: i128 = elapsed_millis(now, candidate.finalized_at);
    if !has_parsed_timing {
        let steps: i128 = if recency > 0 {
            recency / 10
        } else {
            0
        };
        if 140 - steps > 0 {
            score += (140 - steps) as i32;
        }
    }
    match opt_eq(&parsed.speaker, &candidate.speaker) {
        Some(true) => {
            score += 20;
        },
        Some(false) => {
            score -= 20;
        },
        None => {},
    }
    if recency <= 1000 {
        score += 5;
    }
    score
}

/// A candidate that can take the update: accepting and scoring at least 40.
pub open spec fn eligible(
    p: ParsedView,
    cs: Seq<CandidateView>,
    session_generation: u32,
    now: int,
    ttl_ms: int,
    i: int,
) -> bool {
    0 <= i < cs.len() && accepting(cs[i], session_generation, now, ttl_ms)
        && translation_score(p, cs[i], now) >= 40
}

/// The eligible candidate with the highest score, the earliest among equals.
pub open spec fn is_best(
    p: ParsedView,
    cs: Seq<CandidateView>,
    session_generation: u32,
    now: int,
    ttl_ms: int,
    w: int,
) -> bool {
    &&& eligible(p, cs, session_generation, now, ttl_ms, w)
    &&& forall|j: int|
        #![trigger eligible(p, cs, session_generation, now, ttl_ms, j)]
        eligible(p, cs, session_generation, now, ttl_ms, j) ==> translation_score(p, cs[j], now)
            <= translation_score(p, cs[w], now)
    &&& forall|j: int|
        #![trigger eligible(p, cs, session_generation, now, ttl_ms, j)]
        0 <= j < w && eligible(p, cs, session_generation, now, ttl_ms, j) ==> translation_score(
            p,
            cs[j],
            now,
        ) < translation_score(p, cs[w], now)
}

/// No eligible candidate: no match. Otherwise the best one, unless another
/// eligible candidate scores within 20 of it: ambiguous.
pub open spec fn translation_match(
    p: ParsedView,
    cs: Seq<CandidateView>,
    session_generation: u32,
    now: int,
    ttl_ms: int,
) -> TranslationOnlyMatch {
    if !exists|i: int| eligible(p, cs, session_generation, now, ttl_ms, i) {
        TranslationOnlyMatch::NoMatch
    } else {
        let w = choose|w: int| is_best(p, cs, session_generation, now, ttl_ms, w);
        if exists|j: int|
            j != w && eligible(p, cs, session_generation, now, ttl_ms, j) && translation_score(
                p,
                cs[w],
                now,
            ) - translation_score(p, cs[j], now) < 20 {
            TranslationOnlyMatch::Ambiguous
        } else {
            TranslationOnlyMatch::Unique(w as usize)
        }
    }
}

proof fn lemma_best_unique(
    p: ParsedView,
    cs: Seq<CandidateView>,
    g: u32,
    now: int,
    ttl_ms: int,
    a: int,
    b: int,
)
    requires
        is_best(p, cs, g, now, ttl_ms, a),
        is_best(p, cs, g, now, ttl_ms, b),
    ensures
        a == b,
{
    if a < b {
        assert(eligible(p, cs, g, now, ttl_ms, a));
    }
    if b < a {
        assert(eligible(p, cs, g, now, ttl_ms, b));
    }
}

pub fn match_translation_only_update(
    parsed: &ParsedSonioxUpdate,
    candidates: &[FinalizedUtteranceCandidate],
    session_generation: u32,
    now: i128,
    ttl_ms: i64,
) -> (r: TranslationOnlyMatch)
    requires
        ttl_ms <= max_ttl_ms(),
    ensures
        r == translation_match(
            parsed@,
            candidate_views(candidates@),
            session_generation,
            now as int,
            ttl_ms as int,
        ),
        r matches TranslationOnlyMatch::Unique(i) ==> i < candidates@.len(),
{
    let ghost cs = candidate_views(candidates@);
    let ghost p = parsed@;
    let n = candidates.len();
    let mut scores: Vec<i32> = Vec::new();
    let mut best: Option<usize> = None;
    let mut i: usize = 0;
    while i < n
        invariant
            n == candidates@.len(),
            cs == candidate_views(candidates@),
            p == parsed@,
            ttl_ms <= max_ttl_ms(),
            i <= n,
            scores@.len() == i,
            forall|j: int|
                0 <= j < i ==> (#[trigger] scores@[j]) as int == (if accepting(
                    cs[j],
                    session_generation,
                    now as int,
                    ttl_ms as int,
                ) {
                    translation_score(p, cs[j], now as int)
                } else {
                    -1000
                }),
            match best {
                Some(w) => w < i && is_best(p, cs.take(i as int), session_generation, now as int, ttl_ms as int, w as int),
                None => forall|j: int| 0 <= j < i ==> !eligible(p, cs, session_generation, now as int, ttl_ms as int, j),
            },
        decreases n - i,
    {
        let c = &candidates[i];
        proof {
            assert(cs[i as int] == c@);
        }
        let sc: i32 = if c.is_accepting(session_generation, now, ttl_ms) {
            score_translation_only_candidate(parsed, c, now)
        } else {
            -1000
        };
        scores.push(sc);
        let ghost prev_best = best;
        if sc >= 40 {
            match best {
                Some(w) => {
                    if sc > scores[w] {
                        best = Some(i);
                    }
                },
                None => {
                    best = Some(i);
                },
            }
        }
        proof {
            let t = cs.take(i + 1);
            let t0 = cs.take(i as int);
            assert forall|j: int| 0 <= j < i implies #[trigger] eligible(p, t, session_generation, now as int, ttl_ms as int, j) == eligible(p, cs, session_generation, now as int, ttl_ms as int, j) && eligible(p, t0, session_generation, now as int, ttl_ms as int, j) == eligible(p, cs, session_generation, now as int, ttl_ms as int, j) by {
                assert(t[j] == cs[j]);
                assert(t0[j] == cs[j]);
            }
            assert(t[i as int] == cs[i as int]);
            match best {
                Some(w) => {
                    assert forall|j: int| #![trigger eligible(p, t, session_generation, now as int, ttl_ms as int, j)]
                        eligible(p, t, session_generation, now as int, ttl_ms as int, j) implies translation_score(p, t[j], now as int) <= translation_score(p, t[w as int], now as int) by {
                        if j < i {
                            assert(eligible(p, t0, session_generation, now as int, ttl_ms as int, j));
                        }
                    }
                    assert forall|j: int| #![trigger eligible(p, t, session_generation, now as int, ttl_ms as int, j)]
                        0 <= j < w && eligible(p, t, session_generation, now as int, ttl_ms as int, j) implies translation_score(p, t[j], now as int) < translation_score(p, t[w as int], now as int) by {
                        if j < i {
                            assert(eligible(p, t0, session_generation, now as int, ttl_ms as int, j));
                        }
                    }
                },
                None => {},
            }
        }
        i += 1;
    }
    proof {
        assert(cs.take(n as int) =~= cs);
    }
    match best {
        None => {
            TranslationOnlyMatch::NoMatch
        },
        Some(w) => {
            let ws = scores[w];
            let mut k: usize = 0;
            let mut close = false;
            while k < n
                invariant
                    n == candidates@.len(),
                    n == scores@.len(),
                    cs == candidate_views(candidates@),
                    p == parsed@,
                    k <= n,
                    w < n,
                    ws == scores@[w as int],
                    is_best(p, cs, session_generation, now as int, ttl_ms as int, w as int),
                    forall|j: int|
                        0 <= j < n ==> (#[trigger] scores@[j]) as int == (if accepting(
                            cs[j],
                            session_generation,
                            now as int,
                            ttl_ms as int,
                        ) {
                            translation_score(p, cs[j], now as int)
                        } else {
                            -1000
                        }),
                    close == exists|j: int|
                        0 <= j < k && j != w && eligible(p, cs, session_generation, now as int, ttl_ms as int, j)
                            && translation_score(p, cs[w as int], now as int) - translation_score(p, cs[j], now as int) < 20,
                decreases n - k,
            {
                let sk = scores[k];
                if k != w && sk >= 40 && (ws as i64) - (sk as i64) < 20 {
                    close = true;
                    proof {
                        assert(eligible(p, cs, session_generation, now as int, ttl_ms as int, k as int));
                    }
                }
                proof {
                    if eligible(p, cs, session_generation, now as int, ttl_ms as int, k as int) {
                        assert(scores@[k as int] as int == translation_score(p, cs[k as int], now as int));
                    }
                }
                k += 1;
            }
            proof {
                assert(eligible(p, cs, session_generation, now as int, ttl_ms as int, w as int));
                let cw = choose|x: int| is_best(p, cs, session_generation, now as int, ttl_ms as int, x);
                lemma_best_unique(p, cs, session_generation, now as int, ttl_ms as int, cw, w as int);
            }
            if close {
                TranslationOnlyMatch::Ambiguous
            } else {
                TranslationOnlyMatch::Unique(w)
            }
        },
    }
}

// ---------------------------------------------------------------------------
// The window of recently finalised utterances
// ---------------------------------------------------------------------------
/// An accepting candidate of another session generation, or finalised more
/// than `ttl_ms` ago, stops accepting.
pub open spec fn refreshed_state(c: CandidateView, session_generation: u32, now: int, ttl_ms: int) -> CandidateView {
    if c.late_translation_state == LateTranslationState::Accepting && (c.session_generation
        != session_generation || elapsed_ms(now, c.finalized_at as int) > ttl_ms) {
        CandidateView { late_translation_state: LateTranslationState::Closed, ..c }
    } else {
        c
    }
}

/// Drops candidates from the front while they no longer accept.
pub open spec fn drop_settled(cs: Seq<CandidateView>) -> Seq<CandidateView>
    decreases cs.len(),
{
    if cs.len() > 0 && cs[0].late_translation_state != LateTranslationState::Accepting {
        drop_settled(cs.drop_first())
    } else {
        cs
    }
}

pub open spec fn refreshed(cs: Seq<CandidateView>, session_generation: u32, now: int, ttl_ms: int) -> Seq<CandidateView> {
    drop_settled(cs.map_values(|c: CandidateView| refreshed_state(c, session_generation, now, ttl_ms)))
}

impl FinalizedUtteranceCandidate {
    pub fn duplicate(&self) -> (r: Self)
        ensures
            r@ == self@,
    {
        FinalizedUtteranceCandidate {
            segment_id: self.segment_id.clone(),
            created_at: self.created_at,
            speaker: clone_opt_string(&self.speaker),
            start_ms: self.start_ms,
            end_ms: self.end_ms,
            original_text: self.original_text.clone(),
            translation_final_text: self.translation_final_text.clone(),
            translation_nonfinal_text: self.translation_nonfinal_text.clone(),
            finalized_at: self.finalized_at,
            session_generation: self.session_generation,
            late_translation_state: self.late_translation_state,
        }
    }
}

/// Closes candidates that can no longer take late translations, then drops
/// the closed ones at the front of the window.
pub fn refresh_finalized_candidates(
    window: &mut Vec<FinalizedUtteranceCandidate>,
    session_generation: u32,
    now: i128,
    ttl_ms: i64,
)
    ensures
        candidate_views(final(window)@) == refreshed(
            candidate_views(old(window)@),
            session_generation,
            now as int,
            ttl_ms as int,
        ),
{
    let ghost mapped = candidate_views(window@).map_values(
        |c: CandidateView| refreshed_state(c, session_generation, now as int, ttl_ms as int),
    );
    let n = window.len();
    let mut i: usize = 0;
    while i < n
        invariant
            n == window@.len(),
            i <= n,
            mapped.len() == n,
            mapped == candidate_views(old(window)@).map_values(
                |c: CandidateView| refreshed_state(c, session_generation, now as int, ttl_ms as int),
            ),
            forall|j: int| 0 <= j < i ==> #[trigger] window@[j]@ == mapped[j],
            forall|j: int| i <= j < n ==> #[trigger] window@[j]@ == old(window)@[j]@,
        decreases n - i,
    {
        let c = &window[i];
        if c.late_translation_state == LateTranslationState::Accepting && (c.session_generation
            != session_generation || elapsed_millis(now, c.finalized_at) > ttl_ms as i128) {
            let mut d = c.duplicate();
            d.late_translation_state = LateTranslationState::Closed;
            window.set(i, d);
        }
        i += 1;
    }
    proof {
        assert(candidate_views(window@) =~= mapped);
    }
    while window.len() > 0 && window[0].late_translation_state != LateTranslationState::Accepting
        invariant
            drop_settled(candidate_views(window@)) == drop_settled(mapped),
        decreases window@.len(),
    {
        let ghost before = candidate_views(window@);
        window.remove(0);
        proof {
            assert(candidate_views(window@) =~= before.drop_first());
        }
    }
    proof {
        let v = candidate_views(window@);
        if v.len() > 0 {
            assert(v[0] == window@[0]@);
        }
        assert(drop_settled(v) == v);
    }
}

// ---------------------------------------------------------------------------
// Assembling segments from updates
// ---------------------------------------------------------------------------
pub open spec fn window_capacity() -> nat {
    6
}

pub open spec fn late_translation_ttl_ms() -> int {
    3000
}

/// The newest `window_capacity()` candidates.
pub open spec fn capped(w: Seq<CandidateView>) -> Seq<CandidateView> {
    if w.len() > window_capacity() {
        w.skip(w.len() - window_capacity())
    } else {
        w
    }
}

/// The effect of one non-empty update: `(utterance, window, segment to
/// apply)`.
pub open spec fn assembled(
    a: UtteranceView,
    w: Seq<CandidateView>,
    ts: Seq<TokenView>,
    session_generation: u32,
    now: i128,
) -> (UtteranceView, Seq<CandidateView>, Option<SegmentView>) {
    let ttl = late_translation_ttl_ms();
    let p = parsed_update(ts);
    let w1 = refreshed(w, session_generation, now as int, ttl);
    if p.is_translation_only {
        match translation_match(p, w1, session_generation, now as int, ttl) {
            TranslationOnlyMatch::Unique(i) => {
                let w2 = w1.update(i as int, with_translation(w1[i as int], p));
                (
                    a,
                    refreshed(w2, session_generation, now as int, ttl),
                    Some(candidate_segment(w2[i as int])),
                )
            },
            _ => (a, refreshed(w1, session_generation, now as int, ttl), None),
        }
    } else {
        let a1 = applied(a, p);
        if p.has_spoken_final {
            if utterance_is_empty(a1) {
                (fresh_utterance(now), w1, None)
            } else {
                let c = finalized(a1, session_generation, now);
                (fresh_utterance(now), capped(w1.push(c)), Some(candidate_segment(c)))
            }
        } else {
            (
                a1,
                w1,
                if utterance_is_empty(a1) {
                    None
                } else {
                    Some(utterance_segment(a1, false))
                },
            )
        }
    }
}

/// The utterance in progress and the recently finalised ones of one
/// streaming pipeline.
pub struct TranscriptAssembler {
    active: ActiveUtterance,
    window: Vec<FinalizedUtteranceCandidate>,
}

pub open spec fn segment_opt_view(s: Option<TranscriptSegment>) -> Option<SegmentView> {
    match s {
        Some(x) => Some(x@),
        None => None,
    }
}

impl TranscriptAssembler {
    pub closed spec fn active_view(&self) -> UtteranceView {
        self.active@
    }

    pub closed spec fn window_view(&self) -> Seq<CandidateView> {
        candidate_views(self.window@)
    }

    pub fn new(now: i128) -> (r: Self)
        ensures
            r.active_view() == fresh_utterance(now),
            r.window_view() == Seq::<CandidateView>::empty(),
    {
        let r = TranscriptAssembler { active: ActiveUtterance::new_at(now), window: Vec::new() };
        assert(candidate_views(r.window@) =~= Seq::<CandidateView>::empty());
        r
    }

    /// Handles one update of tokens received at `now`, and gives the
    /// segment to apply to the transcript, if any.
    pub fn on_update(&mut self, tokens: &[SonioxToken], session_generation: u32, now: i128) -> (r: Option<TranscriptSegment>)
        ensures
            tokens@.len() == 0 ==> r is None && final(self).active_view() == old(self).active_view()
                && final(self).window_view() == old(self).window_view(),
            tokens@.len() > 0 ==> (final(self).active_view(), final(self).window_view(), segment_opt_view(r))
                == assembled(old(self).active_view(), old(self).window_view(), token_views(tokens@), session_generation, now),
    {
        if tokens.len() == 0 {
            return None;
        }
        let ttl: i64 = 3000;
        let parsed = parse_soniox_update(tokens);
        refresh_finalized_candidates(&mut self.window, session_generation, now, ttl);
        if parsed.is_translation_only {
            let m = match_translation_only_update(&parsed, self.window.as_slice(), session_generation, now, ttl);
            match m {
                TranslationOnlyMatch::Unique(index) => {
                    let mut c = self.window[index].duplicate();
                    c.apply_translation_update(&parsed);
                    let seg = c.build_final_segment();
                    let ghost w1 = candidate_views(self.window@);
                    self.window.set(index, c);
                    proof {
                        assert(candidate_views(self.window@) =~= w1.update(index as int, with_translation(w1[index as int], parsed@)));
                    }
                    refresh_finalized_candidates(&mut self.window, session_generation, now, ttl);
                    assert(self.active@ == old(self).active@);
                    Some(seg)
                },
                _ => {
                    refresh_finalized_candidates(&mut self.window, session_generation, now, ttl);
                    assert(self.active@ == old(self).active@);
                    None
                },
            }
        } else {
            self.active.apply_update(&parsed);
            if parsed.has_spoken_final {
                let current = self.active.duplicate();
                self.active = ActiveUtterance::new_at(now);
                match current.into_finalized_candidate_at(session_generation, now) {
                    None => {
                        assert(self.active@ == fresh_utterance(now));
                        None
                    },
                    Some(candidate) => {
                        let seg = candidate.build_final_segment();
                        let ghost w1 = candidate_views(self.window@);
                        self.window.push(candidate);
                        proof {
                            assert(candidate_views(self.window@) =~= w1.push(candidate@));
                        }
                        let ghost w2 = candidate_views(self.window@);
                        while self.window.len() > 6
                            invariant
                                capped(candidate_views(self.window@)) == capped(w2),
                                self.active@ == fresh_utterance(now),
                            ensures
                                candidate_views(self.window@) == capped(w2),
                            decreases self.window@.len(),
                        {
                            let ghost before = candidate_views(self.window@);
                            self.window.remove(0);
                            proof {
                                assert(candidate_views(self.window@) =~= before.drop_first());
                                assert(capped(before) =~= capped(before.drop_first()));
                            }
                        }
                        assert(self.active@ == fresh_utterance(now));
                        Some(seg)
                    },
                }
            } else {
                let r = self.active.build_partial_segment();
                assert(self.active@ == applied(old(self).active@, parsed@));
                r
            }
        }
    }
}

// ---------------------------------------------------------------------------
// Laws
// ---------------------------------------------------------------------------
/// A unique match is an accepting candidate that scores at least 40 and at
/// least 20 more than every other candidate that could take the update.
pub proof fn law_unique_match_is_clear_winner(
    p: ParsedView,
    cs: Seq<CandidateView>,
    session_generation: u32,
    now: int,
    ttl_ms: int,
    i: usize,
)
    requires
        cs.len() <= usize::MAX,
        translation_match(p, cs, session_generation, now, ttl_ms) == TranslationOnlyMatch::Unique(i),
    ensures
        (i as int) < cs.len(),
        accepting(cs[i as int], session_generation, now, ttl_ms),
        translation_score(p, cs[i as int], now) >= 40,
        forall|j: int|
            #![trigger eligible(p, cs, session_generation, now, ttl_ms, j)]
            j != i && eligible(p, cs, session_generation, now, ttl_ms, j) ==> translation_score(p, cs[j], now)
                <= translation_score(p, cs[i as int], now) - 20,
{
    let e = choose|k: int| eligible(p, cs, session_generation, now, ttl_ms, k);
    lemma_best_exists(p, cs, session_generation, now, ttl_ms, e);
    let w = choose|w: int| is_best(p, cs, session_generation, now, ttl_ms, w);
    assert(is_best(p, cs, session_generation, now, ttl_ms, w));
    assert(0 <= w < cs.len());
    assert(w as usize == i);
    assert(w == i as int);
}

proof fn lemma_best_exists(
    p: ParsedView,
    cs: Seq<CandidateView>,
    g: u32,
    now: int,
    ttl_ms: int,
    e: int,
)
    requires
        eligible(p, cs, g, now, ttl_ms, e),
    ensures
        exists|w: int| is_best(p, cs, g, now, ttl_ms, w),
    decreases cs.len() - translation_score(p, cs[e], now) + 1000, e,
{
    if exists|j: int| #![trigger eligible(p, cs, g, now, ttl_ms, j)]
        eligible(p, cs, g, now, ttl_ms, j) && translation_score(p, cs[j], now) > translation_score(p, cs[e], now) {
        let j = choose|j: int| #![trigger eligible(p, cs, g, now, ttl_ms, j)]
            eligible(p, cs, g, now, ttl_ms, j) && translation_score(p, cs[j], now) > translation_score(p, cs[e], now);
        lemma_score_bounds(p, cs[j], now);
        lemma_score_bounds(p, cs[e], now);
        lemma_best_exists(p, cs, g, now, ttl_ms, j);
    } else if exists|j: int| #![trigger eligible(p, cs, g, now, ttl_ms, j)]
        0 <= j < e && eligible(p, cs, g, now, ttl_ms, j) && translation_score(p, cs[j], now) >= translation_score(p, cs[e], now) {
        let j = choose|j: int| #![trigger eligible(p, cs, g, now, ttl_ms, j)]
            0 <= j < e && eligible(p, cs, g, now, ttl_ms, j) && translation_score(p, cs[j], now) >= translation_score(p, cs[e], now);
        lemma_score_bounds(p, cs[j], now);
        lemma_best_exists(p, cs, g, now, ttl_ms, j);
    } else {
        assert(is_best(p, cs, g, now, ttl_ms, e));
    }
}

proof fn lemma_score_bounds(p: ParsedView, c: CandidateView, now: int)
    ensures
        -20 <= translation_score(p, c, now) <= 265,
{
}

/// The refreshed window is `cs` from index `k` on, each candidate
/// refreshed, and none of the `k` candidates dropped before it still
/// accepts.
pub open spec fn refresh_keeps_from(cs: Seq<CandidateView>, session_generation: u32, now: int, ttl_ms: int, k: int) -> bool {
    &&& 0 <= k <= cs.len()
    &&& refreshed(cs, session_generation, now, ttl_ms).len() == cs.len() - k
    &&& forall|j: int|
        0 <= j < k ==> (#[trigger] refreshed_state(cs[j], session_generation, now, ttl_ms)).late_translation_state
            != LateTranslationState::Accepting
    &&& forall|i: int|
        0 <= i < cs.len() - k ==> #[trigger] refreshed(cs, session_generation, now, ttl_ms)[i] == refreshed_state(
            cs[k + i],
            session_generation,
            now,
            ttl_ms,
        )
}

/// After a refresh the oldest candidate in the window (if any) still
/// accepts, and the window is what is left of the old one, in the same
/// order, once some candidates that no longer accept are dropped from the
/// front. A candidate accepts afterwards exactly when it accepted before,
/// belongs to the current session generation and was finalised at most
/// `ttl_ms` ago; only its state can change, and only to `Closed`.
pub proof fn law_refresh_front_accepts(cs: Seq<CandidateView>, session_generation: u32, now: int, ttl_ms: int)
    ensures
        refreshed(cs, session_generation, now, ttl_ms).len() > 0 ==> refreshed(cs, session_generation, now, ttl_ms)[0].late_translation_state
            == LateTranslationState::Accepting,
        refreshed(cs, session_generation, now, ttl_ms).len() <= cs.len(),
        exists|k: int| #[trigger] refresh_keeps_from(cs, session_generation, now, ttl_ms, k),
        forall|c: CandidateView|
            (#[trigger] refreshed_state(c, session_generation, now, ttl_ms)).late_translation_state
                == LateTranslationState::Accepting <==> (c.late_translation_state == LateTranslationState::Accepting
                && c.session_generation == session_generation && elapsed_ms(now, c.finalized_at as int) <= ttl_ms),
        forall|c: CandidateView|
            #[trigger] refreshed_state(c, session_generation, now, ttl_ms) == (CandidateView {
                late_translation_state: refreshed_state(c, session_generation, now, ttl_ms).late_translation_state,
                ..c
            }),
        forall|c: CandidateView|
            (#[trigger] refreshed_state(c, session_generation, now, ttl_ms)).late_translation_state
                == LateTranslationState::Closed || refreshed_state(c, session_generation, now, ttl_ms).late_translation_state
                == c.late_translation_state,
{
    let m = cs.map_values(|c: CandidateView| refreshed_state(c, session_generation, now, ttl_ms));
    lemma_drop_settled(m);
    let k = choose|k: int|
        0 <= k <= m.len() && drop_settled(m) == m.skip(k) && forall|j: int|
            0 <= j < k ==> (#[trigger] m[j]).late_translation_state != LateTranslationState::Accepting;
    assert forall|j: int| 0 <= j < k implies (#[trigger] refreshed_state(cs[j], session_generation, now, ttl_ms)).late_translation_state
        != LateTranslationState::Accepting by {
        assert(m[j] == refreshed_state(cs[j], session_generation, now, ttl_ms));
    }
    assert forall|i: int| 0 <= i < cs.len() - k implies #[trigger] refreshed(cs, session_generation, now, ttl_ms)[i]
        == refreshed_state(cs[k + i], session_generation, now, ttl_ms) by {
        assert(m.skip(k)[i] == m[k + i]);
    }
    assert(refresh_keeps_from(cs, session_generation, now, ttl_ms, k));
}

proof fn lemma_drop_settled(cs: Seq<CandidateView>)
    ensures
        drop_settled(cs).len() <= cs.len(),
        drop_settled(cs).len() > 0 ==> drop_settled(cs)[0].late_translation_state == LateTranslationState::Accepting,
        exists|k: int|
            0 <= k <= cs.len() && drop_settled(cs) == cs.skip(k) && forall|j: int|
                0 <= j < k ==> (#[trigger] cs[j]).late_translation_state != LateTranslationState::Accepting,
    decreases cs.len(),
{
    if cs.len() > 0 && cs[0].late_translation_state != LateTranslationState::Accepting {
        let t = cs.drop_first();
        lemma_drop_settled(t);
        let k = choose|k: int|
            0 <= k <= t.len() && drop_settled(t) == t.skip(k) && forall|j: int|
                0 <= j < k ==> (#[trigger] t[j]).late_translation_state != LateTranslationState::Accepting;
        assert(t.skip(k) =~= cs.skip(k + 1));
        assert forall|j: int| 0 <= j < k + 1 implies (#[trigger] cs[j]).late_translation_state
            != LateTranslationState::Accepting by {
            if j > 0 {
                assert(cs[j] == t[j - 1]);
            }
        }
    } else {
        assert(cs.skip(0) =~= cs);
    }
}

/// The window of finalised utterances never holds more than six.
pub proof fn law_window_stays_bounded(
    a: UtteranceView,
    w: Seq<CandidateView>,
    ts: Seq<TokenView>,
    session_generation: u32,
    now: i128,
)
    requires
        w.len() <= window_capacity(),
    ensures
        assembled(a, w, ts, session_generation, now).1.len() <= window_capacity(),
{
    let ttl = late_translation_ttl_ms();
    let p = parsed_update(ts);
    law_refresh_front_accepts(w, session_generation, now as int, ttl);
    let w1 = refreshed(w, session_generation, now as int, ttl);
    law_refresh_front_accepts(w1, session_generation, now as int, ttl);
    if p.is_translation_only {
        match translation_match(p, w1, session_generation, now as int, ttl) {
            TranslationOnlyMatch::Unique(i) => {
                law_unique_match_is_clear_winner(p, w1, session_generation, now as int, ttl, i);
                let w2 = w1.update(i as int, with_translation(w1[i as int], p));
                law_refresh_front_accepts(w2, session_generation, now as int, ttl);
                assert(assembled(a, w, ts, session_generation, now).1 == refreshed(w2, session_generation, now as int, ttl));
            },
            _ => {
                assert(assembled(a, w, ts, session_generation, now).1 == refreshed(w1, session_generation, now as int, ttl));
            },
        }
    } else {
        let a1 = applied(a, p);
        if p.has_spoken_final && !utterance_is_empty(a1) {
            let c = finalized(a1, session_generation, now);
            assert(assembled(a, w, ts, session_generation, now).1 == capped(w1.push(c)));
        }
    }
}

/// An update never shortens the final texts of the utterance in progress:
/// the old final texts are prefixes of the new ones.
pub proof fn law_final_text_only_grows(u: UtteranceView, p: ParsedView)
    ensures
        applied(u, p).original_final_text.take(u.original_final_text.len() as int) == u.original_final_text,
        applied(u, p).translation_final_text.take(u.translation_final_text.len() as int) == u.translation_final_text,
        applied(u, p).id == u.id,
        applied(u, p).created_at == u.created_at,
{
    assert(applied(u, p).original_final_text.take(u.original_final_text.len() as int) =~= u.original_final_text);
    assert(applied(u, p).translation_final_text.take(u.translation_final_text.len() as int) =~= u.translation_final_text);
}

/// An update's non-final texts are snapshots: after it, the utterance's
/// non-final original and translation are exactly the update's, whatever
/// they were before, while the final texts grow by the update's final
/// deltas. Applying two updates in turn leaves no trace of the first
/// update's non-final translation: the translation reads as the old final
/// text, both final deltas, and the second snapshot.
pub proof fn law_update_replaces_nonfinal_text(u: UtteranceView, p: ParsedView, q: ParsedView)
    ensures
        applied(u, p).translation_nonfinal_text == p.translation_nonfinal_snapshot,
        applied(u, p).original_nonfinal_text == p.original_nonfinal_snapshot,
        applied(u, p).translation_final_text == u.translation_final_text + p.translation_final_delta,
        applied(u, p).original_final_text == u.original_final_text + p.original_final_delta,
        utterance_translated(applied(u, p)) == u.translation_final_text + p.translation_final_delta
            + p.translation_nonfinal_snapshot,
        utterance_original(applied(u, p)) == u.original_final_text + p.original_final_delta
            + p.original_nonfinal_snapshot,
        utterance_translated(applied(applied(u, p), q)) == u.translation_final_text + p.translation_final_delta
            + q.translation_final_delta + q.translation_nonfinal_snapshot,
        forall|v: UtteranceView|
            #![trigger applied(v, p)]
            applied(v, p).translation_nonfinal_text == applied(u, p).translation_nonfinal_text
                && applied(v, p).original_nonfinal_text == applied(u, p).original_nonfinal_text,
{
    assert(utterance_translated(applied(applied(u, p), q)) =~= u.translation_final_text + p.translation_final_delta
        + q.translation_final_delta + q.translation_nonfinal_snapshot);
}

/// A token that counts for the speaker: not a marker, and naming one.
pub open spec fn names_speaker(t: TokenView) -> bool {
    !is_marker(t.text) && t.speaker is Some
}

proof fn lemma_last_speaker(ts: Seq<TokenView>)
    ensures
        (last_speaker(ts) is None) <==> (forall|i: int| 0 <= i < ts.len() ==> !#[trigger] names_speaker(ts[i])),
        forall|i: int|
            0 <= i < ts.len() && #[trigger] names_speaker(ts[i]) && (forall|j: int|
                i < j < ts.len() ==> !#[trigger] names_speaker(ts[j])) ==> last_speaker(ts) == ts[i].speaker,
    decreases ts.len(),
{
    if ts.len() > 0 {
        let d = ts.drop_last();
        lemma_last_speaker(d);
        let n = ts.len() - 1;
        assert(ts.last() == ts[n]);
        assert forall|i: int| 0 <= i < n implies ts[i] == d[i] by {}
        if names_speaker(ts[n]) {
            assert forall|i: int|
                0 <= i < ts.len() && #[trigger] names_speaker(ts[i]) && (forall|j: int|
                    i < j < ts.len() ==> !#[trigger] names_speaker(ts[j])) implies last_speaker(ts) == ts[i].speaker by {
                if i < n {
                    assert(!names_speaker(ts[n]));
                }
            }
        } else {
            if forall|i: int| 0 <= i < d.len() ==> !#[trigger] names_speaker(d[i]) {
                assert forall|i: int| 0 <= i < ts.len() implies !#[trigger] names_speaker(ts[i]) by {
                    if i < n {
                        assert(ts[i] == d[i]);
                    }
                }
            } else {
                let k = choose|k: int| 0 <= k < d.len() && #[trigger] names_speaker(d[k]);
                assert(ts[k] == d[k]);
            }
            assert forall|i: int|
                0 <= i < ts.len() && #[trigger] names_speaker(ts[i]) && (forall|j: int|
                    i < j < ts.len() ==> !#[trigger] names_speaker(ts[j])) implies last_speaker(ts) == ts[i].speaker by {
                assert(i < n);
                assert(ts[i] == d[i]);
                assert forall|j: int| i < j < d.len() implies !#[trigger] names_speaker(d[j]) by {
                    assert(ts[j] == d[j]);
                }
            }
        }
    }
}

/// The speaker of an update is the speaker of its last token that names
/// one (markers left aside); an update has none exactly when no such token
/// names one.
pub proof fn law_parsed_speaker_is_last_named(ts: Seq<TokenView>)
    ensures
        (parsed_update(ts).speaker is None) <==> (forall|i: int| 0 <= i < ts.len() ==> !#[trigger] names_speaker(ts[i])),
        forall|i: int|
            0 <= i < ts.len() && #[trigger] names_speaker(ts[i]) && (forall|j: int|
                i < j < ts.len() ==> !#[trigger] names_speaker(ts[j])) ==> parsed_update(ts).speaker == ts[i].speaker,
{
    lemma_last_speaker(ts);
}

/// The speaker's part of a candidate's score: a candidate of the update's
/// speaker scores 20 more than the same candidate with no speaker, and one
/// of another speaker 20 less, so the same speaker beats another by 40;
/// when the update names no speaker, the candidate's speaker does not
/// count.
pub proof fn law_score_speaker_term(p: ParsedView, c: CandidateView, now: int, s: Seq<char>, other: Seq<char>)
    ensures
        p.speaker == Some(s) ==> translation_score(p, (CandidateView { speaker: Some(s), ..c }), now)
            == translation_score(p, (CandidateView { speaker: None, ..c }), now) + 20,
        p.speaker == Some(s) && other != s ==> translation_score(p, (CandidateView { speaker: Some(other), ..c }), now)
            == translation_score(p, (CandidateView { speaker: None, ..c }), now) - 20,
        p.speaker == Some(s) && other != s ==> translation_score(p, (CandidateView { speaker: Some(s), ..c }), now)
            == translation_score(p, (CandidateView { speaker: Some(other), ..c }), now) + 40,
        p.speaker is None ==> translation_score(p, c, now) == translation_score(
            p,
            (CandidateView { speaker: None, ..c }),
            now,
        ),
{
}

proof fn lemma_parse_concat(a: Seq<TokenView>, b: Seq<TokenView>, translation: bool, fin: bool)
    ensures
        class_text(a + b, translation, fin) == class_text(a, translation, fin) + class_text(b, translation, fin),
        any_of_class(a + b, translation, fin) == (any_of_class(a, translation, fin) || any_of_class(b, translation, fin)),
        last_speaker(a + b) == (if last_speaker(b) is Some {
            last_speaker(b)
        } else {
            last_speaker(a)
        }),
        any_timed(a + b, translation) == (any_timed(a, translation) || any_timed(b, translation)),
        min_start(a + b, translation) == (if min_start(b, translation) < min_start(a, translation) {
            min_start(b, translation)
        } else {
            min_start(a, translation)
        }),
        max_end(a + b, translation) == (if max_end(b, translation) > max_end(a, translation) {
            max_end(b, translation)
        } else {
            max_end(a, translation)
        }),
    decreases b.len(),
{
    if b.len() == 0 {
        assert(a + b =~= a);
        assert(class_text(a, translation, fin) + class_text(b, translation, fin) =~= class_text(a, translation, fin));
    } else {
        let d = b.drop_last();
        lemma_parse_concat(a, d, translation, fin);
        assert((a + b).drop_last() =~= a + d);
        assert((a + b).last() == b.last());
        assert(class_text(a, translation, fin) + class_text(d, translation, fin) + b.last().text
            =~= class_text(a, translation, fin) + (class_text(d, translation, fin) + b.last().text));
    }
}

/// Parsing is compositional: the update made of the tokens of `a` followed
/// by those of `b` has the texts of `a` followed by those of `b`, the
/// speaker of `b` when `b` names one (else that of `a`), and the flags of
/// either; its spoken and translation spans cover both.
pub proof fn law_parse_concat(a: Seq<TokenView>, b: Seq<TokenView>)
    ensures
        parsed_update(a + b).original_final_delta == parsed_update(a).original_final_delta + parsed_update(
            b,
        ).original_final_delta,
        parsed_update(a + b).original_nonfinal_snapshot == parsed_update(a).original_nonfinal_snapshot
            + parsed_update(b).original_nonfinal_snapshot,
        parsed_update(a + b).translation_final_delta == parsed_update(a).translation_final_delta + parsed_update(
            b,
        ).translation_final_delta,
        parsed_update(a + b).translation_nonfinal_snapshot == parsed_update(a).translation_nonfinal_snapshot
            + parsed_update(b).translation_nonfinal_snapshot,
        parsed_update(a + b).speaker == (if parsed_update(b).speaker is Some {
            parsed_update(b).speaker
        } else {
            parsed_update(a).speaker
        }),
        parsed_update(a + b).has_spoken_text == (parsed_update(a).has_spoken_text || parsed_update(b).has_spoken_text),
        parsed_update(a + b).has_translation_text == (parsed_update(a).has_translation_text || parsed_update(
            b,
        ).has_translation_text),
        parsed_update(a + b).has_spoken_final == (parsed_update(a).has_spoken_final || parsed_update(b).has_spoken_final),
{
    lemma_parse_concat(a, b, false, true);
    lemma_parse_concat(a, b, false, false);
    lemma_parse_concat(a, b, true, true);
    lemma_parse_concat(a, b, true, false);
}

/// An update of one token: a marker (`.` or `<end>` once trimmed) leaves
/// every text empty and names nobody; any other token puts its text in the
/// one field of its kind (spoken or translation, final or not), makes its
/// speaker the update's, and sets the flags of its kind.
pub proof fn law_parse_single_token(t: TokenView)
    ensures
        is_marker(t.text) ==> parsed_update(seq![t]).original_final_delta.len() == 0
            && parsed_update(seq![t]).original_nonfinal_snapshot.len() == 0 && parsed_update(
            seq![t],
        ).translation_final_delta.len() == 0 && parsed_update(seq![t]).translation_nonfinal_snapshot.len() == 0
            && parsed_update(seq![t]).speaker is None && !parsed_update(seq![t]).has_spoken_text
            && !parsed_update(seq![t]).has_translation_text,
        !is_marker(t.text) ==> {
            let p = parsed_update(seq![t]);
            let tr = t.translation_status == Some(translation_tag());
            &&& p.original_final_delta == (if !tr && t.is_final {
                t.text
            } else {
                seq![]
            })
            &&& p.original_nonfinal_snapshot == (if !tr && !t.is_final {
                t.text
            } else {
                seq![]
            })
            &&& p.translation_final_delta == (if tr && t.is_final {
                t.text
            } else {
                seq![]
            })
            &&& p.translation_nonfinal_snapshot == (if tr && !t.is_final {
                t.text
            } else {
                seq![]
            })
            &&& p.speaker == t.speaker
            &&& p.has_spoken_text == !tr
            &&& p.has_translation_text == tr
            &&& p.has_spoken_final == (!tr && t.is_final)
            &&& p.is_translation_only == tr
        },
{
    let s = seq![t];
    let e = Seq::<TokenView>::empty();
    assert(s.drop_last() =~= e);
    assert(s.last() == t);
    assert(Seq::<char>::empty() + t.text =~= t.text);
    reveal_with_fuel(class_text, 2);
    reveal_with_fuel(any_of_class, 2);
    reveal_with_fuel(last_speaker, 2);
    assert(class_text(e, false, true) == Seq::<char>::empty());
    assert(class_text(e, false, false) == Seq::<char>::empty());
    assert(class_text(e, true, true) == Seq::<char>::empty());
    assert(class_text(e, true, false) == Seq::<char>::empty());
    assert(last_speaker(e) is None);
    assert(!any_of_class(e, false, false) && !any_of_class(e, true, false) && !any_of_class(e, false, true));
}

/// The span of an update: when it has timed spoken tokens, from the
/// earliest start to the latest end among them; else, when it has timed
/// translation tokens, the same among those; else nothing (both 0).
pub proof fn law_parse_time_span(ts: Seq<TokenView>)
    ensures
        forall|translation: bool|
            #![trigger any_timed(ts, translation)]
            any_timed(ts, translation) ==> (exists|i: int|
                0 <= i < ts.len() && counts(ts[i], translation) && has_timing(ts[i]) && #[trigger] ts[i].start_ms
                    == min_start(ts, translation)) && (exists|i: int|
                0 <= i < ts.len() && counts(ts[i], translation) && has_timing(ts[i]) && #[trigger] ts[i].end_ms
                    == max_end(ts, translation)) && (forall|i: int|
                0 <= i < ts.len() && counts(ts[i], translation) && has_timing(ts[i]) ==> min_start(ts, translation)
                    <= #[trigger] ts[i].start_ms && ts[i].end_ms <= max_end(ts, translation)),
        any_timed(ts, false) ==> parsed_update(ts).start_ms == min_start(ts, false) && parsed_update(ts).end_ms
            == max_end(ts, false),
        !any_timed(ts, false) && any_timed(ts, true) ==> parsed_update(ts).start_ms == min_start(ts, true)
            && parsed_update(ts).end_ms == max_end(ts, true),
        !any_timed(ts, false) && !any_timed(ts, true) ==> parsed_update(ts).start_ms == 0 && parsed_update(ts).end_ms == 0,
{
    lemma_span(ts, false);
    lemma_span(ts, true);
}

proof fn lemma_span(ts: Seq<TokenView>, translation: bool)
    ensures
        !any_timed(ts, translation) ==> min_start(ts, translation) == u64::MAX && max_end(ts, translation) == 0,
        any_timed(ts, translation) ==> (exists|i: int|
            0 <= i < ts.len() && counts(ts[i], translation) && has_timing(ts[i]) && #[trigger] ts[i].start_ms
                == min_start(ts, translation)) && (exists|i: int|
            0 <= i < ts.len() && counts(ts[i], translation) && has_timing(ts[i]) && #[trigger] ts[i].end_ms
                == max_end(ts, translation)),
        forall|i: int|
            0 <= i < ts.len() && counts(ts[i], translation) && has_timing(ts[i]) ==> min_start(ts, translation)
                <= #[trigger] ts[i].start_ms && ts[i].end_ms <= max_end(ts, translation),
    decreases ts.len(),
{
    if ts.len() > 0 {
        let d = ts.drop_last();
        let n = ts.len() - 1;
        lemma_span(d, translation);
        assert(ts.last() == ts[n]);
        assert forall|i: int| 0 <= i < n implies ts[i] == d[i] by {}
        let t = ts[n];
        if any_timed(d, translation) {
            let i1 = choose|i: int|
                0 <= i < d.len() && counts(d[i], translation) && has_timing(d[i]) && #[trigger] d[i].start_ms
                    == min_start(d, translation);
            let i2 = choose|i: int|
                0 <= i < d.len() && counts(d[i], translation) && has_timing(d[i]) && #[trigger] d[i].end_ms
                    == max_end(d, translation);
            assert(ts[i1] == d[i1]);
            assert(ts[i2] == d[i2]);
            if counts(t, translation) && has_timing(t) && t.start_ms < min_start(d, translation) {
                assert(ts[n].start_ms == min_start(ts, translation));
            } else {
                assert(ts[i1].start_ms == min_start(ts, translation));
            }
            if counts(t, translation) && has_timing(t) && t.end_ms > max_end(d, translation) {
                assert(ts[n].end_ms == max_end(ts, translation));
            } else {
                assert(ts[i2].end_ms == max_end(ts, translation));
            }
        } else if any_timed(ts, translation) {
            assert(counts(t, translation) && has_timing(t));
            assert(ts[n].start_ms == min_start(ts, translation));
            assert(ts[n].end_ms == max_end(ts, translation));
        }
        assert forall|i: int|
            0 <= i < ts.len() && counts(ts[i], translation) && has_timing(ts[i]) implies min_start(ts, translation)
                <= #[trigger] ts[i].start_ms && ts[i].end_ms <= max_end(ts, translation) by {
            if i < n {
                assert(ts[i] == d[i]);
            }
        }
    }
}

/// How an update moves the utterance: a speaker it names becomes the
/// utterance's (else the old one stays); the utterance starts at the
/// earlier of the two non-zero starts and ends at the later end; its id
/// and creation time do not change.
pub proof fn law_update_speaker_and_span(u: UtteranceView, p: ParsedView)
    ensures
        p.speaker is Some ==> applied(u, p).speaker == p.speaker,
        p.speaker is None ==> applied(u, p).speaker == u.speaker,
        applied(u, p).end_ms == (if p.end_ms > u.end_ms {
            p.end_ms
        } else {
            u.end_ms
        }),
        p.start_ms == 0 ==> applied(u, p).start_ms == u.start_ms,
        u.start_ms == 0 ==> applied(u, p).start_ms == p.start_ms,
        p.start_ms != 0 && u.start_ms != 0 ==> applied(u, p).start_ms == (if p.start_ms < u.start_ms {
            p.start_ms
        } else {
            u.start_ms
        }),
        applied(u, p).id == u.id,
        applied(u, p).created_at == u.created_at,
{
}

/// A candidate the update can go to: of this session generation, still
/// accepting, finalised at most `ttl_ms` whole milliseconds ago, and
/// scoring at least 40.
pub open spec fn can_take(p: ParsedView, cs: Seq<CandidateView>, g: u32, now: int, ttl_ms: int, i: int) -> bool {
    &&& 0 <= i < cs.len()
    &&& cs[i].session_generation == g
    &&& cs[i].late_translation_state == LateTranslationState::Accepting
    &&& elapsed_ms(now, cs[i].finalized_at as int) <= ttl_ms
    &&& translation_score(p, cs[i], now) >= 40
}

/// What a match decides: no match exactly when no accepting candidate
/// scores at least 40; a unique match only for such a candidate that every
/// other one trails by at least 20; an ambiguous one only when a top
/// scorer has a rival within 20.
pub proof fn law_translation_match_outcome(
    p: ParsedView,
    cs: Seq<CandidateView>,
    g: u32,
    now: int,
    ttl_ms: int,
)
    requires
        cs.len() <= usize::MAX,
    ensures
        (translation_match(p, cs, g, now, ttl_ms) is NoMatch) <==> !exists|i: int|
            #![trigger can_take(p, cs, g, now, ttl_ms, i)]
            can_take(p, cs, g, now, ttl_ms, i),
        translation_match(p, cs, g, now, ttl_ms) matches TranslationOnlyMatch::Unique(w) ==> can_take(
            p,
            cs,
            g,
            now,
            ttl_ms,
            w as int,
        ) && forall|j: int|
            #![trigger can_take(p, cs, g, now, ttl_ms, j)]
            j != w && can_take(p, cs, g, now, ttl_ms, j) ==> translation_score(p, cs[j], now) + 20 <= translation_score(
                p,
                cs[w as int],
                now,
            ),
        translation_match(p, cs, g, now, ttl_ms) is Ambiguous ==> exists|w: int, j: int|
            #![trigger can_take(p, cs, g, now, ttl_ms, w), can_take(p, cs, g, now, ttl_ms, j)]
            w != j && can_take(p, cs, g, now, ttl_ms, w) && can_take(p, cs, g, now, ttl_ms, j) && translation_score(
                p,
                cs[w],
                now,
            ) - translation_score(p, cs[j], now) < 20 && forall|k: int|
                #![trigger can_take(p, cs, g, now, ttl_ms, k)]
                can_take(p, cs, g, now, ttl_ms, k) ==> translation_score(p, cs[k], now) <= translation_score(p, cs[w], now),
{
    assert forall|i: int|
        #![trigger can_take(p, cs, g, now, ttl_ms, i)]
        #![trigger eligible(p, cs, g, now, ttl_ms, i)]
        can_take(p, cs, g, now, ttl_ms, i) == eligible(p, cs, g, now, ttl_ms, i) by {}
    if exists|i: int| #![trigger eligible(p, cs, g, now, ttl_ms, i)] eligible(p, cs, g, now, ttl_ms, i) {
        let e = choose|i: int| #![trigger eligible(p, cs, g, now, ttl_ms, i)] eligible(p, cs, g, now, ttl_ms, i);
        lemma_best_exists(p, cs, g, now, ttl_ms, e);
        let w = choose|w: int| is_best(p, cs, g, now, ttl_ms, w);
        assert(is_best(p, cs, g, now, ttl_ms, w));
        assert(0 <= w < cs.len());
        assert((w as usize) as int == w);
        if exists|j: int|
            j != w && eligible(p, cs, g, now, ttl_ms, j) && translation_score(p, cs[w], now) - translation_score(
                p,
                cs[j],
                now,
            ) < 20 {
            let j = choose|j: int|
                j != w && eligible(p, cs, g, now, ttl_ms, j) && translation_score(p, cs[w], now) - translation_score(
                    p,
                    cs[j],
                    now,
                ) < 20;
            assert(eligible(p, cs, g, now, ttl_ms, w) && eligible(p, cs, g, now, ttl_ms, j));
        }
    }
}

/// The timing part of a score, for an update with a valid span: a
/// candidate whose valid span overlaps it scores 100 more than the same
/// candidate without timing; one whose span lies at most 300 ms away 30
/// more; one farther away no more.
pub proof fn law_score_timing_term(p: ParsedView, c: CandidateView, now: int)
    requires
        valid_interval(p.start_ms, p.end_ms),
        valid_interval(c.start_ms, c.end_ms),
    ensures
        p.start_ms <= c.end_ms && p.end_ms >= c.start_ms ==> translation_score(p, c, now) == translation_score(
            p,
            (CandidateView { start_ms: 0, end_ms: 0, ..c }),
            now,
        ) + 100,
        p.end_ms < c.start_ms ==> translation_score(p, c, now) == translation_score(
            p,
            (CandidateView { start_ms: 0, end_ms: 0, ..c }),
            now,
        ) + (if c.start_ms - p.end_ms <= 300 {
            30int
        } else {
            0int
        }),
        p.start_ms > c.end_ms ==> translation_score(p, c, now) == translation_score(
            p,
            (CandidateView { start_ms: 0, end_ms: 0, ..c }),
            now,
        ) + (if p.start_ms - c.end_ms <= 300 {
            30int
        } else {
            0int
        }),
{
}

/// Without timing in the update, and with no speaker on either side, a
/// candidate scores 140 less one per whole 10 ms since it was finalised
/// (not below 0), plus 5 when it was finalised at most a second ago; with
/// timing in the update and no timing in the candidate, only the 5.
pub proof fn law_score_recency(p: ParsedView, c: CandidateView, now: int)
    requires
        p.speaker is None,
    ensures
        !valid_interval(p.start_ms, p.end_ms) ==> translation_score(p, c, now) == (if 140 - (if elapsed_ms(
            now,
            c.finalized_at as int,
        ) > 0 {
            elapsed_ms(now, c.finalized_at as int) / 10
        } else {
            0
        }) > 0 {
            140 - (if elapsed_ms(now, c.finalized_at as int) > 0 {
                elapsed_ms(now, c.finalized_at as int) / 10
            } else {
                0
            })
        } else {
            0
        }) + (if elapsed_ms(now, c.finalized_at as int) <= 1000 {
            5int
        } else {
            0int
        }),
        valid_interval(p.start_ms, p.end_ms) && !valid_interval(c.start_ms, c.end_ms) ==> translation_score(p, c, now)
            == (if elapsed_ms(now, c.finalized_at as int) <= 1000 {
            5int
        } else {
            0int
        }),
{
}

} // verus!
