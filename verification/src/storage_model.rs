//! Bookkeeping of a session's manifest and transcript part files: counting
//! appended segments, rotating to a new part, sealing the active part at
//! stop, repairing an interrupted session, and summarising a session.
//!
//! Reading and writing the files is left to the caller; these functions
//! decide what the manifest says and which file comes next.
use vstd::prelude::*;
use crate::numeric::{push_zero_padded, zero_padded};
use crate::session_core::SessionError;
use crate::text::{
    contains_chars, contains_seq, chars_of, extend_str, lemma_lex_total, lemma_lex_trans, lex_le, str_le,
    string_from_chars,
};
use crate::types::{SessionManifest, SessionPartMeta, SessionStatus, SessionSummary};
use crate::capabilities::TargetOs;

verus! {

/// A path separator on `os`: `/`, and on Windows a backslash too.
pub open spec fn is_path_separator(c: char, os: TargetOs) -> bool {
    c == '/' || (os == TargetOs::Windows && c == '\\')
}

/// The separator `os` joins path components with.
pub open spec fn main_separator(os: TargetOs) -> char {
    if os == TargetOs::Windows {
        '\\'
    } else {
        '/'
    }
}

/// A bare Windows drive such as `C:`, to which a relative component is
/// joined without a separator.
pub open spec fn is_bare_drive(p: Seq<char>, os: TargetOs) -> bool {
    os == TargetOs::Windows && p.len() == 2 && p[1] == ':' && (('a' <= p[0] && p[0] <= 'z') || ('A' <= p[0] && p[0] <= 'Z'))
}

/// The sessions directory inside the data directory, joined as `os` joins
/// a relative component onto a path (`Path::join`): `sessions` after the
/// platform's separator, none being added when the data directory is
/// empty, already ends with a separator, or is a bare Windows drive.
pub open spec fn sessions_dir_of(data_dir: Seq<char>, os: TargetOs) -> Seq<char> {
    if data_dir.len() == 0 || is_path_separator(data_dir.last(), os) || is_bare_drive(data_dir, os) {
        data_dir + "sessions"@
    } else {
        data_dir + seq![main_separator(os)] + "sessions"@
    }
}

pub fn sessions_dir(data_dir: &str, os: TargetOs) -> (r: String)
    ensures
        r@ == sessions_dir_of(data_dir@, os),
{
    let cs = chars_of(data_dir);
    let windows = os == TargetOs::Windows;
    let n = cs.len();
    let needs_separator = if n == 0 {
        false
    } else {
        let last = cs[n - 1];
        let bare_drive = windows && n == 2 && cs[1] == ':' && (('a' <= cs[0] && cs[0] <= 'z') || ('A' <= cs[0]
            && cs[0] <= 'Z'));
        !(last == '/' || (windows && last == '\\') || bare_drive)
    };
    let mut out: Vec<char> = Vec::new();
    extend_str(&mut out, data_dir);
    if needs_separator {
        if windows {
            out.push('\\');
        } else {
            out.push('/');
        }
    }
    let ghost before = out@;
    extend_str(&mut out, "sessions");
    proof {
        assert(before + "sessions"@ == out@);
        if needs_separator {
            assert(out@ =~= data_dir@ + seq![main_separator(os)] + "sessions"@);
        } else {
            assert(out@ =~= data_dir@ + "sessions"@);
        }
    }
    string_from_chars(&out)
}

/// A part is sealed and a new one started once it holds this many segments.
pub open spec fn part_capacity() -> u32 {
    2000
}

/// The file name of the part with the given index: `part-` and the index
/// zero-padded to four digits, then `.jsonl`.
pub open spec fn part_file_name_spec(index: nat) -> Seq<char> {
    "part-"@ + zero_padded(index, 4) + ".jsonl"@
}

pub fn part_file_name(index: u64) -> (s: String)
    ensures
        s@ == part_file_name_spec(index as nat),
{
    let mut cs: Vec<char> = Vec::new();
    extend_str(&mut cs, "part-");
    push_zero_padded(&mut cs, index, 4);
    extend_str(&mut cs, ".jsonl");
    string_from_chars(&cs)
}

/// A session id from its start stamp and a UUID in simple form: the
/// stamp, an underscore, and the UUID's first six digits.
pub fn session_id_from(stamp: &str, uuid: &str) -> (r: String)
    requires
        uuid@.len() >= 6,
    ensures
        r@ == stamp@ + seq!['_'] + uuid@.take(6),
{
    let hex = chars_of(uuid);
    let mut out: Vec<char> = Vec::new();
    extend_str(&mut out, stamp);
    out.push('_');
    let mut i: usize = 0;
    while i < 6
        invariant
            i <= 6,
            hex@ == uuid@,
            uuid@.len() >= 6,
            out@ == stamp@ + seq!['_'] + uuid@.take(i as int),
        decreases 6 - i,
    {
        out.push(hex[i]);
        assert(uuid@.take(i + 1) =~= uuid@.take(i as int).push(uuid@[i as int]));
        assert(out@ =~= stamp@ + seq!['_'] + uuid@.take(i + 1));
        i = i + 1;
    }
    string_from_chars(&out)
}

/// A new session's id and the instant it was read: that instant's UTC second formatted as
/// `%Y%m%d_%H%M%S`, an underscore, and the first six digits of a fresh
/// UUID.
pub fn new_session_id() -> (r: (String, i128))
    ensures
        r.0@.len() == crate::clock::stamp_of_instant(r.1 as int).len() + 7,
        r.0@ == crate::clock::stamp_of_instant(r.1 as int) + seq!['_'] + r.0@.skip(r.0@.len() - 6),
        forall|i: int| r.0@.len() - 6 <= i < r.0@.len() ==> crate::clock::is_lower_hex(#[trigger] r.0@[i]),
{
    let (now, stamp) = crate::clock::utc_now_with_stamp();
    let uuid = crate::clock::new_uuid_simple();
    let id = session_id_from(stamp.as_str(), uuid.as_str());
    proof {
        let n = id@.len();
        assert(n == stamp@.len() + 7);
        assert(id@.skip(n - 6) =~= uuid@.take(6));
        assert forall|j: int| n - 6 <= j < n implies crate::clock::is_lower_hex(#[trigger] id@[j]) by {
            assert(id@[j] == uuid@[j - (n - 6)]);
        }
    }
    (id, now)
}

/// The manifest of a session just created: active, with its one active
/// part `part-0001.jsonl` holding no segment yet.
pub fn new_session_manifest(
    session_id: String,
    started_at: i128,
    provider: &str,
    source_language: &str,
    target_language: &str,
) -> (m: SessionManifest)
    ensures
        m.session_id == session_id,
        m.status == SessionStatus::Active,
        m.started_at == started_at,
        m.provider@ == provider@,
        m.source_language@ == source_language@,
        m.target_language@ == target_language@,
        m.parts@.len() == 1,
        m.parts@[0].file@ == part_file_name_spec(1),
        m.parts@[0].status == SessionStatus::Active,
        m.parts@[0].segments == 0,
{
    let mut parts: Vec<SessionPartMeta> = Vec::new();
    parts.push(SessionPartMeta { file: part_file_name(1), status: SessionStatus::Active, segments: 0 });
    proof {
        broadcast use vstd::string::group_string_axioms;

    }
    SessionManifest {
        session_id,
        status: SessionStatus::Active,
        started_at,
        provider: provider.to_string(),
        source_language: source_language.to_string(),
        target_language: target_language.to_string(),
        parts,
    }
}

/// The same session, provider and languages.
pub open spec fn same_header(m0: SessionManifest, m1: SessionManifest) -> bool {
    &&& m1.session_id == m0.session_id
    &&& m1.started_at == m0.started_at
    &&& m1.provider == m0.provider
    &&& m1.source_language == m0.source_language
    &&& m1.target_language == m0.target_language
}

/// `m1` is `m0` once `count` segments were appended to its active (last)
/// part.
pub open spec fn appended(m0: SessionManifest, m1: SessionManifest, count: u32) -> bool {
    let p = m0.parts@;
    let last = p.last();
    &&& same_header(m0, m1)
    &&& m1.status == m0.status
    &&& m1.parts@ == p.update(
        p.len() - 1,
        SessionPartMeta { file: last.file, status: last.status, segments: (last.segments + count) as u32 },
    )
}

/// `m1` is `m0` with its active (last) part marked completed.
pub open spec fn part_completed(m0: SessionManifest, m1: SessionManifest) -> bool {
    let p = m0.parts@;
    let last = p.last();
    &&& same_header(m0, m1)
    &&& m1.status == m0.status
    &&& m1.parts@ == p.update(
        p.len() - 1,
        SessionPartMeta { file: last.file, status: SessionStatus::Completed, segments: last.segments },
    )
}

/// `m1` is `m0` with a new active part in `file`, holding no segment yet.
pub open spec fn part_added(m0: SessionManifest, m1: SessionManifest, file: String) -> bool {
    &&& same_header(m0, m1)
    &&& m1.status == m0.status
    &&& m1.parts@ == m0.parts@.push(SessionPartMeta { file, status: SessionStatus::Active, segments: 0 })
}

/// `m1` is `m0` with its active (last) part holding `remaining` more
/// segments, and it and the session marked completed.
pub open spec fn sealed(m0: SessionManifest, m1: SessionManifest, remaining: u32) -> bool {
    let p = m0.parts@;
    &&& same_header(m0, m1)
    &&& m1.status == SessionStatus::Completed
    &&& m1.parts@ == p.update(
        p.len() - 1,
        SessionPartMeta {
            file: p.last().file,
            status: SessionStatus::Completed,
            segments: (p.last().segments + remaining) as u32,
        },
    )
}

/// Records `count` segments appended to the active (last) part; tells
/// whether the part is now full (it holds the part capacity or more), in
/// which case it is to be sealed and the next part started.
pub fn record_appended(manifest: &mut SessionManifest, count: u32) -> (full: bool)
    requires
        old(manifest).parts@.len() > 0,
        old(manifest).parts@.last().segments + count <= u32::MAX,
    ensures
        appended(*old(manifest), *final(manifest), count),
        full == (old(manifest).parts@.last().segments + count >= part_capacity()),
{
    let ghost p = manifest.parts@;
    let mut part = manifest.parts.pop().unwrap();
    part.segments = part.segments + count;
    let full = part.segments >= 2000;
    manifest.parts.push(part);
    proof {
        assert(manifest.parts@ =~= p.update(
            p.len() - 1,
            SessionPartMeta { file: p.last().file, status: p.last().status, segments: (p.last().segments + count) as u32 },
        ));
    }
    full
}

/// Marks the active (last) part completed, once its file is sealed; gives
/// its file and segment count.
pub fn complete_active_part(manifest: &mut SessionManifest) -> (r: (String, u32))
    requires
        old(manifest).parts@.len() > 0,
    ensures
        part_completed(*old(manifest), *final(manifest)),
        r == (old(manifest).parts@.last().file, old(manifest).parts@.last().segments),
{
    let ghost p = manifest.parts@;
    let mut part = manifest.parts.pop().unwrap();
    part.status = SessionStatus::Completed;
    let r = (part.file.clone(), part.segments);
    manifest.parts.push(part);
    proof {
        assert(manifest.parts@ =~= p.update(
            p.len() - 1,
            SessionPartMeta { file: p.last().file, status: SessionStatus::Completed, segments: p.last().segments },
        ));
    }
    r
}

/// The index and file name of the part that follows the last one.
pub fn next_part(manifest: &SessionManifest) -> (r: (usize, String))
    requires
        manifest.parts@.len() < usize::MAX,
    ensures
        r.0 == manifest.parts@.len() + 1,
        r.1@ == part_file_name_spec((manifest.parts@.len() + 1) as nat),
{
    let index = manifest.parts.len() + 1;
    (index, part_file_name(index as u64))
}

/// Adds a new active part in `file`, holding no segment yet, once the file
/// is created.
pub fn add_active_part(manifest: &mut SessionManifest, file: String)
    ensures
        part_added(*old(manifest), *final(manifest), file),
{
    manifest.parts.push(SessionPartMeta { file, status: SessionStatus::Active, segments: 0 });
}

/// Seals the active part when a session stops: it takes the `remaining`
/// segments, and it and the session are marked completed. Gives the part's
/// file and its final segment count, or an error when there is no part.
pub fn close_active_part(manifest: &mut SessionManifest, remaining: u32) -> (r: Result<(String, u32), SessionError>)
    requires
        old(manifest).parts@.len() > 0 ==> old(manifest).parts@.last().segments + remaining <= u32::MAX,
    ensures
        old(manifest).parts@.len() == 0 ==> r == Err::<(String, u32), SessionError>(SessionError::MissingActivePartOnStop)
            && *final(manifest) == *old(manifest),
        old(manifest).parts@.len() > 0 ==> r == Ok::<(String, u32), SessionError>(
            (old(manifest).parts@.last().file, (old(manifest).parts@.last().segments + remaining) as u32),
        ) && sealed(*old(manifest), *final(manifest), remaining),
{
    if manifest.parts.len() == 0 {
        return Err(SessionError::MissingActivePartOnStop);
    }
    let ghost p = manifest.parts@;
    let mut part = manifest.parts.pop().unwrap();
    part.segments = part.segments + remaining;
    part.status = SessionStatus::Completed;
    let file = part.file.clone();
    let n = part.segments;
    manifest.parts.push(part);
    manifest.status = SessionStatus::Completed;
    proof {
        assert(manifest.parts@ =~= p.update(
            p.len() - 1,
            SessionPartMeta { file: p.last().file, status: SessionStatus::Completed, segments: n },
        ));
    }
    Ok((file, n))
}

// ---------------------------------------------------------------------------
// Recovery of interrupted sessions
// ---------------------------------------------------------------------------

/// A line of a part file that records a segment: it holds `"type":"segment"`
/// or `"type": "segment"`.
pub open spec fn is_segment_line_spec(line: Seq<char>) -> bool {
    contains_seq(line, "\"type\":\"segment\""@) || contains_seq(line, "\"type\": \"segment\""@)
}

pub fn is_segment_line(line: &str) -> (r: bool)
    ensures
        r == is_segment_line_spec(line@),
{
    let cs = chars_of(line);
    let compact = chars_of("\"type\":\"segment\"");
    if contains_chars(&cs, &compact) {
        return true;
    }
    let spaced = chars_of("\"type\": \"segment\"");
    contains_chars(&cs, &spaced)
}

/// The number of lines that record a segment.
pub open spec fn segment_line_count(lines: Seq<String>) -> nat
    decreases lines.len(),
{
    if lines.len() == 0 {
        0
    } else {
        segment_line_count(lines.drop_last()) + if is_segment_line_spec(lines.last()@) {
            1nat
        } else {
            0nat
        }
    }
}

pub fn count_segment_lines(lines: &[String]) -> (r: u32)
    requires
        lines@.len() <= u32::MAX,
    ensures
        r == segment_line_count(lines@),
{
    let mut count: u32 = 0;
    for i in 0..lines.len()
        invariant
            lines@.len() <= u32::MAX,
            count == segment_line_count(lines@.take(i as int)),
            count <= i,
    {
        proof {
            assert(lines@.take(i + 1).drop_last() =~= lines@.take(i as int));
        }
        if is_segment_line(lines[i].as_str()) {
            count = count + 1;
        }
    }
    assert(lines@.take(lines@.len() as int) =~= lines@);
    count
}

/// The index of the first part still marked active.
pub open spec fn first_active_part(parts: Seq<SessionPartMeta>) -> Option<int>
    decreases parts.len(),
{
    if parts.len() == 0 {
        None
    } else if parts[0].status == SessionStatus::Active {
        Some(0)
    } else {
        match first_active_part(parts.drop_first()) {
            Some(i) => Some(i + 1),
            None => None,
        }
    }
}

pub fn active_part_index(manifest: &SessionManifest) -> (r: Option<usize>)
    ensures
        match first_active_part(manifest.parts@) {
            Some(i) => r == Some(i as usize) && 0 <= i < manifest.parts@.len(),
            None => r is None,
        },
{
    let n = manifest.parts.len();
    let mut i: usize = 0;
    assert(manifest.parts@.skip(0) =~= manifest.parts@);
    while i < n
        invariant
            n == manifest.parts@.len(),
            i <= n,
            first_active_part(manifest.parts@) == match first_active_part(manifest.parts@.skip(i as int)) {
                Some(j) => Some(j + i),
                None => None,
            },
        decreases n - i,
    {
        let ghost rest = manifest.parts@.skip(i as int);
        assert(rest.drop_first() =~= manifest.parts@.skip(i + 1));
        if manifest.parts[i].status == SessionStatus::Active {
            proof {
                lemma_first_active_bound(manifest.parts@);
            }
            return Some(i);
        }
        i += 1;
    }
    proof {
        lemma_first_active_bound(manifest.parts@);
    }
    None
}

proof fn lemma_first_active_bound(parts: Seq<SessionPartMeta>)
    ensures
        first_active_part(parts) matches Some(i) ==> 0 <= i < parts.len(),
    decreases parts.len(),
{
    if parts.len() > 0 {
        lemma_first_active_bound(parts.drop_first());
    }
}

/// Whether a manifest read at startup belongs to an interrupted session.
pub fn needs_recovery(manifest: &SessionManifest) -> (r: bool)
    ensures
        r == (manifest.status == SessionStatus::Active),
{
    manifest.status == SessionStatus::Active
}

/// Repairs the manifest of an interrupted session: the part that was
/// active, if any, is marked recovered and takes the recounted number of
/// segments, and the session is marked recovered.
pub fn repair_manifest(manifest: &mut SessionManifest, recounted: Option<(usize, u32)>)
    requires
        recounted matches Some((i, _)) ==> i < old(manifest).parts@.len(),
    ensures
        final(manifest).status == SessionStatus::Recovered,
        final(manifest).parts@ == match recounted {
            Some((i, count)) => old(manifest).parts@.update(
                i as int,
                SessionPartMeta {
                    file: old(manifest).parts@[i as int].file,
                    status: SessionStatus::Recovered,
                    segments: count,
                },
            ),
            None => old(manifest).parts@,
        },
        final(manifest).session_id == old(manifest).session_id,
        final(manifest).started_at == old(manifest).started_at,
        final(manifest).provider == old(manifest).provider,
        final(manifest).source_language == old(manifest).source_language,
        final(manifest).target_language == old(manifest).target_language,
{
    if let Some((i, count)) = recounted {
        let file = manifest.parts[i].file.clone();
        manifest.parts.set(i, SessionPartMeta { file, status: SessionStatus::Recovered, segments: count });
    }
    manifest.status = SessionStatus::Recovered;
}

// ---------------------------------------------------------------------------
// Summaries
// ---------------------------------------------------------------------------

/// The segments of all parts together.
pub open spec fn segments_total(parts: Seq<SessionPartMeta>) -> nat
    decreases parts.len(),
{
    if parts.len() == 0 {
        0
    } else {
        segments_total(parts.drop_last()) + parts.last().segments as nat
    }
}

/// The summary of a session: its id, folder, start, the segments of all its
/// parts, and whether it is no longer active. `None` when the total does
/// not fit in a `u32`.
pub fn session_summary(manifest: &SessionManifest, file_path: String) -> (r: Option<SessionSummary>)
    ensures
        segments_total(manifest.parts@) > u32::MAX ==> r is None,
        segments_total(manifest.parts@) <= u32::MAX ==> (r matches Some(s) && s.session_id
            == manifest.session_id && s.file_path == file_path && s.started_at == Some(manifest.started_at)
            && s.segment_count == segments_total(manifest.parts@) && s.is_complete == (manifest.status
            != SessionStatus::Active)),
{
    let mut total: u32 = 0;
    let n = manifest.parts.len();
    for i in 0..n
        invariant
            n == manifest.parts@.len(),
            total == segments_total(manifest.parts@.take(i as int)),
    {
        proof {
            assert(manifest.parts@.take(i + 1).drop_last() =~= manifest.parts@.take(i as int));
            lemma_segments_total_prefix(manifest.parts@, i + 1);
        }
        let s = manifest.parts[i].segments;
        if total > u32::MAX - s {
            return None;
        }
        total = total + s;
    }
    assert(manifest.parts@.take(n as int) =~= manifest.parts@);
    Some(
        SessionSummary {
            session_id: manifest.session_id.clone(),
            file_path,
            started_at: Some(manifest.started_at),
            segment_count: total,
            is_complete: manifest.status != SessionStatus::Active,
        },
    )
}

proof fn lemma_segments_total_prefix(parts: Seq<SessionPartMeta>, k: int)
    requires
        0 <= k <= parts.len(),
    ensures
        segments_total(parts.take(k)) <= segments_total(parts),
    decreases parts.len() - k,
{
    if k < parts.len() {
        lemma_segments_total_prefix(parts, k + 1);
        assert(parts.take(k + 1).drop_last() =~= parts.take(k));
    } else {
        assert(parts.take(k) =~= parts);
    }
}

/// Newest first: session ids (which start with the start time) in
/// descending order.
pub open spec fn newest_first(s: Seq<SessionSummary>) -> bool {
    forall|i: int, j: int| 0 <= i < j < s.len() ==> lex_le(#[trigger] s[j].session_id@, #[trigger] s[i].session_id@)
}

/// The summaries of `s` whose session id is `id`, in their order in `s`.
pub open spec fn with_id(s: Seq<SessionSummary>, id: Seq<char>) -> Seq<SessionSummary> {
    s.filter(has_id(id))
}

/// Whether a summary has session id `id`.
pub open spec fn has_id(id: Seq<char>) -> spec_fn(SessionSummary) -> bool {
    |x: SessionSummary| x.session_id@ == id
}

proof fn lemma_insert_with_id(before: Seq<SessionSummary>, pos: int, x: SessionSummary, id: Seq<char>)
    requires
        0 <= pos <= before.len(),
        forall|j: int| pos <= j < before.len() ==> (#[trigger] before[j]).session_id@ != x.session_id@,
    ensures
        with_id(before.insert(pos, x), id) == if x.session_id@ == id {
            with_id(before, id).push(x)
        } else {
            with_id(before, id)
        },
{
    let pred = has_id(id);
    let a = before.take(pos);
    let b = before.skip(pos);
    assert(before.insert(pos, x) =~= a + seq![x] + b);
    assert(before =~= a + b);
    Seq::filter_distributes_over_add(a + seq![x], b, pred);
    Seq::filter_distributes_over_add(a, seq![x], pred);
    Seq::filter_distributes_over_add(a, b, pred);
    Seq::<SessionSummary>::empty().lemma_filter_push(x, pred);
    assert(Seq::<SessionSummary>::empty().push(x) =~= seq![x]);
    assert(Seq::<SessionSummary>::empty().filter(pred) =~= Seq::<SessionSummary>::empty()) by {
        reveal(Seq::filter);
    }
    if x.session_id@ == id {
        assert forall|i: int| 0 <= i < b.len() implies !pred(#[trigger] b[i]) by {
            assert(b[i] == before[pos + i]);
        }
        assert(b.all(|y: SessionSummary| !pred(y)));
        b.lemma_all_neg_filter_empty(pred);
        assert(b.filter(pred) =~= Seq::<SessionSummary>::empty());
        assert(a.filter(pred) + seq![x] =~= (a.filter(pred) + b.filter(pred)).push(x));
    } else {
        assert(a.filter(pred) + Seq::<SessionSummary>::empty() + b.filter(pred) =~= a.filter(pred) + b.filter(pred));
    }
}

/// Orders summaries newest first (descending session id), keeping the
/// order of equal ids: the summaries with any one id come out in the order
/// they went in.
pub fn sort_summaries(v: Vec<SessionSummary>) -> (r: Vec<SessionSummary>)
    ensures
        newest_first(r@),
        r@.to_multiset() == v@.to_multiset(),
        forall|id: Seq<char>| #[trigger] with_id(r@, id) == with_id(v@, id),
{
    let ghost v0 = v@;
    let mut rest = v;
    let mut out: Vec<SessionSummary> = Vec::new();
    let n = rest.len();
    let mut k: usize = 0;
    assert(v0.take(0) =~= out@);
    assert(v0.skip(0) =~= rest@);
    while k < n
        invariant
            n == v0.len(),
            k <= n,
            rest@ == v0.skip(k as int),
            newest_first(out@),
            out@.to_multiset() == v0.take(k as int).to_multiset(),
            forall|id: Seq<char>| #[trigger] with_id(out@, id) == with_id(v0.take(k as int), id),
        decreases n - k,
    {
        let x = rest.remove(0);
        proof {
            assert(x == v0[k as int]);
            assert(rest@ =~= v0.skip(k + 1));
        }
        let mut pos: usize = 0;
        while pos < out.len() && str_le(x.session_id.as_str(), out[pos].session_id.as_str())
            invariant
                pos <= out@.len(),
                forall|j: int| 0 <= j < pos ==> lex_le(x.session_id@, #[trigger] out@[j].session_id@),
            decreases out@.len() - pos,
        {
            pos += 1;
        }
        let ghost before = out@;
        proof {
            if pos < before.len() {
                lemma_lex_total(x.session_id@, before[pos as int].session_id@);
                assert forall|j: int| pos <= j < before.len() implies lex_le(#[trigger] before[j].session_id@, x.session_id@) by {
                    if j > pos {
                        lemma_lex_trans(before[j].session_id@, before[pos as int].session_id@, x.session_id@);
                    }
                }
            }
        }
        proof {
            assert forall|j: int| pos <= j < before.len() implies (#[trigger] before[j]).session_id@ != x.session_id@ by {
                if before[j].session_id@ == x.session_id@ {
                    if j > pos {
                        assert(lex_le(before[j].session_id@, before[pos as int].session_id@));
                    }
                    assert(lex_le(x.session_id@, before[pos as int].session_id@)) by {
                        if j == pos {
                            lemma_lex_total(x.session_id@, x.session_id@);
                        }
                    }
                }
            }
        }
        out.insert(pos, x);
        proof {
            assert(v0.take(k + 1) =~= v0.take(k as int).push(x));
            assert forall|id: Seq<char>| #[trigger] with_id(out@, id) == with_id(v0.take(k + 1), id) by {
                lemma_insert_with_id(before, pos as int, x, id);
                v0.take(k as int).lemma_filter_push(x, has_id(id));
            }
            vstd::seq_lib::to_multiset_insert(before, pos as int, v0[k as int]);
            assert(v0.take(k + 1) =~= v0.take(k as int).push(v0[k as int]));
            vstd::seq_lib::to_multiset_build(v0.take(k as int), v0[k as int]);
            assert forall|i: int, j: int| 0 <= i < j < out@.len() implies lex_le(#[trigger] out@[j].session_id@, #[trigger] out@[i].session_id@) by {
                if j < pos {
                    assert(out@[i] == before[i] && out@[j] == before[j]);
                } else if j == pos {
                    assert(out@[i] == before[i]);
                } else if i < pos {
                    assert(out@[i] == before[i] && out@[j] == before[j - 1]);
                    lemma_lex_trans(before[j - 1].session_id@, x.session_id@, before[i].session_id@);
                } else if i == pos {
                    assert(out@[j] == before[j - 1]);
                } else {
                    assert(out@[i] == before[i - 1] && out@[j] == before[j - 1]);
                }
            }
        }
        k += 1;
    }
    assert(v0.take(n as int) =~= v0);
    assert forall|id: Seq<char>| #[trigger] with_id(out@, id) == with_id(v0, id) by {
        assert(with_id(out@, id) == with_id(v0.take(n as int), id));
    }
    out
}

} // verus!
