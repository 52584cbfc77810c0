//! The transcription service's protocol: the start request, the decisions
//! taken on each response and close frame, and the pacing of audio frames.
//!
//! Encoding and decoding JSON and driving the socket are left to the
//! caller; these functions decide what is sent and what event comes out.
use vstd::prelude::*;
use crate::numeric::{decimal, push_decimal};
use crate::soniox_runtime::{token_views, SonioxToken, TokenView};
use crate::text::{extend_str, is_blank, str_eq, string_from_chars, trim, trim_seq};

verus! {

/// The translation part of a start request (`type` on the wire).
pub struct SonioxTranslationConfig {
    pub translation_type: String,
    pub target_language: String,
}

/// The first message on the socket: credentials and stream format.
pub struct SonioxStartRequest {
    pub api_key: String,
    pub model: String,
    pub audio_format: String,
    pub sample_rate: u32,
    pub num_channels: u8,
    pub language_hints: Option<Vec<String>>,
    pub translation: Option<SonioxTranslationConfig>,
    pub enable_endpoint_detection: bool,
}

/// A text frame from the service.
pub struct SonioxResponse {
    pub tokens: Option<Vec<SonioxToken>>,
    pub finished: Option<bool>,
    pub error_code: Option<u16>,
    pub error_message: Option<String>,
}

/// What the socket reports to the session.
pub enum WsEvent {
    Update(Vec<SonioxToken>),
    Finished,
    Error(String),
    AudioChunkSent { sequence: u64 },
}

/// The language hint for a source language: none when it is blank or
/// `auto` (after trimming).
pub open spec fn hint_for(source_language: Seq<char>) -> Option<Seq<char>> {
    let t = trim_seq(source_language);
    if t.len() == 0 || t == "auto"@ {
        None
    } else {
        Some(t)
    }
}

/// The translation target: none when blank (after trimming).
pub open spec fn target_for(target_language: Seq<char>) -> Option<Seq<char>> {
    let t = trim_seq(target_language);
    if t.len() == 0 {
        None
    } else {
        Some(t)
    }
}

/// The start request for a session: model `stt-rt-v4`, 16 kHz mono
/// `pcm_s16le`, endpoint detection on, the trimmed source language as the
/// only hint (see `hint_for`) and a one-way translation to the trimmed
/// target (see `target_for`).
pub fn start_request(api_key: &str, source_language: &str, target_language: &str) -> (r: SonioxStartRequest)
    ensures
        r.api_key@ == api_key@,
        r.model@ == "stt-rt-v4"@,
        r.audio_format@ == "pcm_s16le"@,
        r.sample_rate == 16000,
        r.num_channels == 1,
        r.enable_endpoint_detection,
        match hint_for(source_language@) {
            Some(h) => r.language_hints matches Some(v) && v@.len() == 1 && v@[0]@ == h,
            None => r.language_hints is None,
        },
        match target_for(target_language@) {
            Some(t) => r.translation matches Some(c) && c.translation_type@ == "one_way"@ && c.target_language@ == t,
            None => r.translation is None,
        },
{
    let source = trim(source_language);
    let target = trim(target_language);
    let language_hints = if source.unicode_len() == 0 || str_eq(source, "auto") {
        None
    } else {
        let mut v: Vec<String> = Vec::new();
        v.push(source.to_string());
        Some(v)
    };
    let translation = if target.unicode_len() == 0 {
        None
    } else {
        Some(
            SonioxTranslationConfig {
                translation_type: String::from_str("one_way"),
                target_language: target.to_string(),
            },
        )
    };
    proof {
        broadcast use vstd::string::group_string_axioms;

    }
    SonioxStartRequest {
        api_key: api_key.to_string(),
        model: String::from_str("stt-rt-v4"),
        audio_format: String::from_str("pcm_s16le"),
        sample_rate: 16000,
        num_channels: 1,
        language_hints,
        translation,
        enable_endpoint_detection: true,
    }
}

/// The text of a service error: `Soniox error {code}: {message}` with a
/// code, the message alone without one.
pub open spec fn error_text(code: Option<u16>, message: Seq<char>) -> Seq<char> {
    match code {
        Some(c) => "Soniox error "@ + decimal(c as nat) + ": "@ + message,
        None => message,
    }
}

/// The tokens whose text is not blank, in order.
pub open spec fn spoken_tokens(ts: Seq<TokenView>) -> Seq<TokenView>
    decreases ts.len(),
{
    if ts.len() == 0 {
        ts
    } else if trim_seq(ts.last().text).len() == 0 {
        spoken_tokens(ts.drop_last())
    } else {
        spoken_tokens(ts.drop_last()).push(ts.last())
    }
}

/// What a text frame leads to.
pub enum FrameOutcome {
    /// Report the event; the reader keeps going unless `stop`.
    Report { event: WsEvent, stop: bool },
    /// Report nothing; the reader keeps going unless `stop`.
    Quiet { stop: bool },
}

pub struct OutcomeView {
    pub event: Option<EventView>,
    pub stop: bool,
}

pub enum EventView {
    Update(Seq<TokenView>),
    Finished,
    Error(Seq<char>),
    AudioChunkSent(u64),
}

impl View for WsEvent {
    type V = EventView;

    open spec fn view(&self) -> EventView {
        match self {
            WsEvent::Update(ts) => EventView::Update(token_views(ts@)),
            WsEvent::Finished => EventView::Finished,
            WsEvent::Error(m) => EventView::Error(m@),
            WsEvent::AudioChunkSent { sequence } => EventView::AudioChunkSent(*sequence),
        }
    }
}

impl View for FrameOutcome {
    type V = OutcomeView;

    open spec fn view(&self) -> OutcomeView {
        match self {
            FrameOutcome::Report { event, stop } => OutcomeView { event: Some(event@), stop: *stop },
            FrameOutcome::Quiet { stop } => OutcomeView { event: None, stop: *stop },
        }
    }
}

/// The decision on a text frame: an error message ends the reading,
/// reported unless the session was cancelled; a finished frame ends it
/// with `Finished`; tokens are reported, without the blank ones, when any
/// are left; anything else is ignored.
pub open spec fn response_outcome(
    tokens: Option<Seq<TokenView>>,
    finished: Option<bool>,
    error_code: Option<u16>,
    error_message: Option<Seq<char>>,
    cancelled: bool,
) -> OutcomeView {
    match error_message {
        Some(m) => OutcomeView {
            event: if cancelled {
                None
            } else {
                Some(EventView::Error(error_text(error_code, m)))
            },
            stop: true,
        },
        None => if finished == Some(true) {
            OutcomeView { event: Some(EventView::Finished), stop: true }
        } else {
            match tokens {
                Some(ts) => if spoken_tokens(ts).len() > 0 {
                    OutcomeView { event: Some(EventView::Update(spoken_tokens(ts))), stop: false }
                } else {
                    OutcomeView { event: None, stop: false }
                },
                None => OutcomeView { event: None, stop: false },
            }
        },
    }
}

pub open spec fn opt_tokens(t: Option<Vec<SonioxToken>>) -> Option<Seq<TokenView>> {
    match t {
        Some(v) => Some(token_views(v@)),
        None => None,
    }
}

pub open spec fn opt_text(t: Option<String>) -> Option<Seq<char>> {
    match t {
        Some(s) => Some(s@),
        None => None,
    }
}

fn error_message_text(code: Option<u16>, message: String) -> (r: String)
    ensures
        r@ == error_text(code, message@),
{
    match code {
        Some(c) => {
            let mut cs: Vec<char> = Vec::new();
            extend_str(&mut cs, "Soniox error ");
            push_decimal(&mut cs, c as u64);
            extend_str(&mut cs, ": ");
            extend_str(&mut cs, message.as_str());
            string_from_chars(&cs)
        },
        None => message,
    }
}

fn keep_spoken(tokens: Vec<SonioxToken>) -> (r: Vec<SonioxToken>)
    ensures
        token_views(r@) == spoken_tokens(token_views(tokens@)),
{
    let ghost tv = token_views(tokens@);
    let mut out: Vec<SonioxToken> = Vec::new();
    let rest = tokens;
    let n = rest.len();
    let mut i: usize = 0;
    while i < n
        invariant
            n == rest@.len(),
            tv == token_views(rest@),
            i <= n,
            token_views(out@) == spoken_tokens(tv.take(i as int)),
        decreases n - i,
    {
        proof {
            assert(tv.take(i + 1).drop_last() =~= tv.take(i as int));
            assert(tv.take(i + 1).last() == tv[i as int]);
            assert(tv[i as int] == rest@[i as int]@);
        }
        let blank = is_blank(rest[i].text.as_str());
        if !blank {
            let t = SonioxToken {
                text: rest[i].text.clone(),
                start_ms: rest[i].start_ms,
                end_ms: rest[i].end_ms,
                speaker: crate::types::clone_opt_string(&rest[i].speaker),
                is_final: rest[i].is_final,
                translation_status: crate::types::clone_opt_string(&rest[i].translation_status),
            };
            let ghost o = out@;
            out.push(t);
            proof {
                assert(token_views(out@) =~= token_views(o).push(tv[i as int]));
            }
        }
        i += 1;
    }
    assert(tv.take(n as int) =~= tv);
    out
}

/// Decides what a parsed text frame leads to (see `response_outcome`).
pub fn frame_outcome(response: SonioxResponse, cancelled: bool) -> (r: FrameOutcome)
    ensures
        r@ == response_outcome(
            opt_tokens(response.tokens),
            response.finished,
            response.error_code,
            opt_text(response.error_message),
            cancelled,
        ),
{
    match response.error_message {
        Some(m) => {
            let message = error_message_text(response.error_code, m);
            if cancelled {
                return FrameOutcome::Quiet { stop: true };
            }
            return FrameOutcome::Report { event: WsEvent::Error(message), stop: true };
        },
        None => {},
    }
    match response.finished {
        Some(f) => {
            if f {
                return FrameOutcome::Report { event: WsEvent::Finished, stop: true };
            }
        },
        None => {},
    }
    match response.tokens {
        Some(tokens) => {
            let spoken = keep_spoken(tokens);
            if spoken.len() > 0 {
                FrameOutcome::Report { event: WsEvent::Update(spoken), stop: false }
            } else {
                FrameOutcome::Quiet { stop: false }
            }
        },
        None => FrameOutcome::Quiet { stop: false },
    }
}

/// The text of a premature close: the frame's code and reason, or that
/// there was no close frame.
pub open spec fn close_text(frame: Option<(u16, Seq<char>)>) -> Seq<char> {
    "WebSocket Closed prematurely ("@ + match frame {
        Some((code, reason)) => "code="@ + decimal(code as nat) + " reason="@ + reason,
        None => "no close frame"@,
    } + ")"@
}

/// The event for a close frame: an error unless the session was cancelled.
pub fn close_event(frame: Option<(u16, String)>, cancelled: bool) -> (r: Option<WsEvent>)
    ensures
        cancelled ==> r is None,
        !cancelled ==> (r matches Some(WsEvent::Error(m)) && m@ == close_text(
            match frame {
                Some((c, s)) => Some((c, s@)),
                None => None,
            },
        )),
{
    if cancelled {
        return None;
    }
    let mut cs: Vec<char> = Vec::new();
    extend_str(&mut cs, "WebSocket Closed prematurely (");
    match &frame {
        Some((code, reason)) => {
            extend_str(&mut cs, "code=");
            push_decimal(&mut cs, *code as u64);
            extend_str(&mut cs, " reason=");
            extend_str(&mut cs, reason.as_str());
        },
        None => {
            extend_str(&mut cs, "no close frame");
        },
    }
    extend_str(&mut cs, ")");
    Some(WsEvent::Error(string_from_chars(&cs)))
}

/// When the next audio frame may be sent: the later of its scheduled time
/// and now, plus the frame's duration (times in milliseconds).
pub open spec fn next_deadline(scheduled_ms: u64, now_ms: u64, duration_ms: u32) -> int {
    (if scheduled_ms > now_ms {
        scheduled_ms
    } else {
        now_ms
    }) + duration_ms
}

pub fn next_send_deadline(scheduled_ms: u64, now_ms: u64, duration_ms: u32) -> (r: u64)
    requires
        next_deadline(scheduled_ms, now_ms, duration_ms) <= u64::MAX,
    ensures
        r == next_deadline(scheduled_ms, now_ms, duration_ms),
{
    let base = if scheduled_ms > now_ms {
        scheduled_ms
    } else {
        now_ms
    };
    base + duration_ms as u64
}

} // verus!
