//! Character-level helpers on strings: whitespace, ASCII case folding,
//! trimming, word splitting and comparison, each proved against a spec over
//! the string's view as a sequence of characters.
use vstd::prelude::*;

verus! {

/// Unicode `White_Space` property, the set of characters that
/// `char::is_whitespace` accepts.
pub open spec fn is_ws(c: char) -> bool {
    ||| ('\u{9}' <= c && c <= '\u{d}')
    ||| c == ' '
    ||| c == '\u{85}'
    ||| c == '\u{a0}'
    ||| c == '\u{1680}'
    ||| ('\u{2000}' <= c && c <= '\u{200a}')
    ||| c == '\u{2028}'
    ||| c == '\u{2029}'
    ||| c == '\u{202f}'
    ||| c == '\u{205f}'
    ||| c == '\u{3000}'
}

pub fn is_whitespace(c: char) -> (b: bool)
    ensures
        b == is_ws(c),
{
    ('\u{9}' <= c && c <= '\u{d}') || c == ' ' || c == '\u{85}' || c == '\u{a0}' || c == '\u{1680}'
        || ('\u{2000}' <= c && c <= '\u{200a}') || c == '\u{2028}' || c == '\u{2029}' || c
        == '\u{202f}' || c == '\u{205f}' || c == '\u{3000}'
}

/// ASCII lower-casing of one character; every other character is kept.
pub open spec fn ascii_lower(c: char) -> char {
    if 'A' <= c && c <= 'Z' {
        ((c as u32) + 32) as char
    } else {
        c
    }
}

pub open spec fn lower_seq(s: Seq<char>) -> Seq<char> {
    s.map_values(|c: char| ascii_lower(c))
}

pub fn to_ascii_lower(c: char) -> (r: char)
    ensures
        r == ascii_lower(c),
{
    if 'A' <= c && c <= 'Z' {
        let b: u8 = c as u8;
        ((b + 32) as char)
    } else {
        c
    }
}

/// The characters of a string slice, in order.
pub fn chars_of(s: &str) -> (out: Vec<char>)
    ensures
        out@ == s@,
{
    let mut out: Vec<char> = Vec::new();
    for c in it: s.chars()
        invariant
            out@ == it.seq().take(it.index() as int),
            it.seq() == s@,
    {
        out.push(c);
    }
    out
}

/// `String::push`: appends one character.
#[verifier::external_body]
pub(crate) fn push_char(s: &mut String, c: char)
    ensures
        final(s)@ == old(s)@.push(c),
{
    s.push(c);
}

/// A new string holding exactly the given characters.
pub fn string_from_chars(cs: &[char]) -> (s: String)
    ensures
        s@ == cs@,
{
    let mut s = String::new();
    for i in 0..cs.len()
        invariant
            s@ == cs@.take(i as int),
    {
        push_char(&mut s, cs[i]);
        assert(cs@.take(i + 1) == cs@.take(i as int).push(cs@[i as int]));
    }
    assert(cs@.take(cs@.len() as int) == cs@);
    s
}

/// A string holding `a` followed by `b`.
pub fn concat_str(a: &str, b: &str) -> (s: String)
    ensures
        s@ == a@ + b@,
{
    let mut s = a.to_string();
    proof {
        broadcast use vstd::string::group_string_axioms;
    }
    s.append(b);
    s
}

/// Character-wise equality of two string slices.
pub fn str_eq(a: &str, b: &str) -> (r: bool)
    ensures
        r == (a@ == b@),
{
    let ac = chars_of(a);
    let bc = chars_of(b);
    seq_eq(&ac, &bc)
}

pub fn seq_eq(a: &[char], b: &[char]) -> (r: bool)
    ensures
        r == (a@ == b@),
{
    if a.len() != b.len() {
        return false;
    }
    let mut i: usize = 0;
    while i < a.len()
        invariant
            a@.len() == b@.len(),
            i <= a@.len(),
            forall|j: int| 0 <= j < i ==> a@[j] == b@[j],
        decreases a@.len() - i,
    {
        if a[i] != b[i] {
            return false;
        }
        i += 1;
    }
    assert(a@ =~= b@);
    true
}

// ---------------------------------------------------------------------------
// Trimming
// ---------------------------------------------------------------------------
/// Number of leading whitespace characters.
pub open spec fn leading_ws(s: Seq<char>) -> nat
    decreases s.len(),
{
    if s.len() > 0 && is_ws(s[0]) {
        1 + leading_ws(s.drop_first())
    } else {
        0
    }
}

/// Number of trailing whitespace characters.
pub open spec fn trailing_ws(s: Seq<char>) -> nat
    decreases s.len(),
{
    if s.len() > 0 && is_ws(s.last()) {
        1 + trailing_ws(s.drop_last())
    } else {
        0
    }
}

/// `str::trim`: the string without leading and trailing whitespace.
pub open spec fn trim_seq(s: Seq<char>) -> Seq<char> {
    let t = s.skip(leading_ws(s) as int);
    t.take(t.len() - trailing_ws(t))
}

proof fn lemma_leading_ws(s: Seq<char>, i: int)
    requires
        0 <= i <= s.len(),
        forall|j: int| 0 <= j < i ==> is_ws(#[trigger] s[j]),
        i == s.len() || !is_ws(s[i]),
    ensures
        leading_ws(s) == i,
    decreases i,
{
    if i > 0 {
        lemma_leading_ws(s.drop_first(), i - 1);
    }
}

proof fn lemma_trailing_ws(s: Seq<char>, k: int)
    requires
        0 <= k <= s.len(),
        forall|j: int| s.len() - k <= j < s.len() ==> is_ws(#[trigger] s[j]),
        k == s.len() || !is_ws(s[s.len() - k - 1]),
    ensures
        trailing_ws(s) == k,
    decreases k,
{
    if k > 0 {
        lemma_trailing_ws(s.drop_last(), k - 1);
    }
}

pub proof fn lemma_leading_ws_bound(s: Seq<char>)
    ensures
        leading_ws(s) <= s.len(),
    decreases s.len(),
{
    if s.len() > 0 && is_ws(s[0]) {
        lemma_leading_ws_bound(s.drop_first());
    }
}

pub proof fn lemma_trailing_ws_bound(s: Seq<char>)
    ensures
        trailing_ws(s) <= s.len(),
    decreases s.len(),
{
    if s.len() > 0 && is_ws(s.last()) {
        lemma_trailing_ws_bound(s.drop_last());
    }
}

proof fn lemma_leading_stop(s: Seq<char>)
    ensures
        leading_ws(s) <= s.len(),
        leading_ws(s) < s.len() ==> !is_ws(s[leading_ws(s) as int]),
    decreases s.len(),
{
    if s.len() > 0 && is_ws(s[0]) {
        lemma_leading_stop(s.drop_first());
        if leading_ws(s) < s.len() {
            assert(s.drop_first()[leading_ws(s.drop_first()) as int] == s[leading_ws(s) as int]);
        }
    }
}

proof fn lemma_trailing_stop(s: Seq<char>)
    ensures
        trailing_ws(s) <= s.len(),
        trailing_ws(s) < s.len() ==> !is_ws(s[s.len() - trailing_ws(s) - 1]),
    decreases s.len(),
{
    if s.len() > 0 && is_ws(s.last()) {
        lemma_trailing_stop(s.drop_last());
        if trailing_ws(s) < s.len() {
            let t = s.drop_last();
            assert(t[t.len() - trailing_ws(t) - 1] == s[s.len() - trailing_ws(s) - 1]);
        }
    }
}

/// Trimming twice is trimming once.
pub proof fn lemma_trim_idempotent(s: Seq<char>)
    ensures
        trim_seq(trim_seq(s)) == trim_seq(s),
{
    let l = leading_ws(s);
    lemma_leading_stop(s);
    let u = s.skip(l as int);
    lemma_trailing_stop(u);
    let t = trim_seq(s);
    assert(t == u.take(u.len() - trailing_ws(u)));
    if t.len() > 0 {
        assert(t[0] == s[l as int]);
        assert(t[t.len() - 1] == u[u.len() - trailing_ws(u) - 1]);
        assert(leading_ws(t) == 0);
        assert(trailing_ws(t) == 0);
        assert(t.skip(0) =~= t);
        assert(t.skip(0).take(t.len() as int) =~= t);
    } else {
        assert(leading_ws(t) == 0);
        assert(t.skip(0) =~= t);
        assert(trailing_ws(t) == 0);
        assert(t.take(0) =~= t);
    }
}

/// Start and end positions of the trimmed part of `cs`.
pub fn trim_bounds(cs: &[char]) -> (r: (usize, usize))
    ensures
        r.0 <= r.1 <= cs@.len(),
        cs@.subrange(r.0 as int, r.1 as int) == trim_seq(cs@),
{
    let n = cs.len();
    let mut start: usize = 0;
    while start < n && is_whitespace(cs[start])
        invariant
            n == cs@.len(),
            start <= n,
            forall|j: int| 0 <= j < start ==> is_ws(#[trigger] cs@[j]),
        decreases n - start,
    {
        start += 1;
    }
    proof {
        lemma_leading_ws(cs@, start as int);
    }
    let mut end: usize = n;
    while end > start && is_whitespace(cs[end - 1])
        invariant
            n == cs@.len(),
            start <= end <= n,
            forall|j: int| end <= j < n ==> is_ws(#[trigger] cs@[j]),
        decreases end,
    {
        end -= 1;
    }
    proof {
        let t = cs@.skip(start as int);
        assert forall|j: int| t.len() - (n - end) <= j < t.len() implies is_ws(#[trigger] t[j]) by {
            assert(t[j] == cs@[j + start]);
        }
        if end > start {
            assert(t[t.len() - (n - end) - 1] == cs@[end - 1]);
        }
        lemma_trailing_ws(t, (n - end) as int);
        assert(cs@.subrange(start as int, end as int) =~= t.take(t.len() - trailing_ws(t)));
    }
    (start, end)
}

/// `str::trim`.
pub fn trim(s: &str) -> (r: &str)
    ensures
        r@ == trim_seq(s@),
{
    let cs = chars_of(s);
    let (a, b) = trim_bounds(&cs);
    s.substring_char(a, b)
}

/// `str::trim` followed by `str::is_empty`.
pub fn is_blank(s: &str) -> (r: bool)
    ensures
        r == (trim_seq(s@).len() == 0),
{
    let cs = chars_of(s);
    let (a, b) = trim_bounds(&cs);
    a == b
}

// ---------------------------------------------------------------------------
// Words
// ---------------------------------------------------------------------------
/// The maximal runs of non-whitespace characters of `s`, in order
/// (what `str::split_whitespace` yields).
pub open spec fn words(s: Seq<char>) -> Seq<Seq<char>>
    decreases s.len(),
{
    if s.len() == 0 {
        seq![]
    } else {
        let p = s.drop_last();
        let c = s.last();
        if is_ws(c) {
            words(p)
        } else if p.len() > 0 && !is_ws(p.last()) {
            let w = words(p);
            w.update(w.len() - 1, w.last().push(c))
        } else {
            words(p).push(seq![c])
        }
    }
}

/// The words joined with one separator character between neighbours.
pub open spec fn join_words(ws: Seq<Seq<char>>, sep: char) -> Seq<char>
    decreases ws.len(),
{
    if ws.len() == 0 {
        seq![]
    } else if ws.len() == 1 {
        ws[0]
    } else {
        join_words(ws.drop_last(), sep).push(sep) + ws.last()
    }
}

pub proof fn lemma_words_props(s: Seq<char>)
    ensures
        forall|i: int| 0 <= i < words(s).len() ==> #[trigger] words(s)[i].len() > 0,
        s.len() > 0 && !is_ws(s.last()) ==> words(s).len() > 0,
    decreases s.len(),
{
    if s.len() > 0 {
        let p = s.drop_last();
        lemma_words_props(p);
        let c = s.last();
        if is_ws(c) {
        } else if p.len() > 0 && !is_ws(p.last()) {
            let w = words(p);
            assert forall|i: int| 0 <= i < words(s).len() implies #[trigger] words(s)[i].len() > 0 by {
                if i < w.len() - 1 {
                    assert(words(s)[i] == w[i]);
                }
            }
        } else {
            let w = words(p);
            assert forall|i: int| 0 <= i < words(s).len() implies #[trigger] words(s)[i].len() > 0 by {
                if i < w.len() {
                    assert(words(s)[i] == w[i]);
                }
            }
        }
    }
}

proof fn lemma_join_nonempty(ws: Seq<Seq<char>>, sep: char)
    requires
        forall|i: int| 0 <= i < ws.len() ==> #[trigger] ws[i].len() > 0,
    ensures
        (join_words(ws, sep).len() == 0) == (ws.len() == 0),
    decreases ws.len(),
{
}

proof fn lemma_join_extend_last(ws: Seq<Seq<char>>, sep: char, c: char)
    requires
        ws.len() > 0,
    ensures
        join_words(ws.update(ws.len() - 1, ws.last().push(c)), sep) == join_words(ws, sep).push(c),
{
    let u = ws.update(ws.len() - 1, ws.last().push(c));
    if ws.len() > 1 {
        assert(u.drop_last() =~= ws.drop_last());
        assert(join_words(u, sep) =~= join_words(ws, sep).push(c));
    }
}

/// The whitespace-normalised form of `s`: the words of `s`, ASCII
/// lower-cased, joined by single spaces.
pub open spec fn normalized_label(s: Seq<char>) -> Seq<char> {
    join_words(words(lower_seq(s)), ' ')
}

/// Characters of `normalized_label(s)`.
pub fn normalize_chars(cs: &[char]) -> (out: Vec<char>)
    ensures
        out@ == normalized_label(cs@),
{
    let mut out: Vec<char> = Vec::new();
    let mut in_word = false;
    for i in 0..cs.len()
        invariant
            out@ == join_words(words(lower_seq(cs@.take(i as int))), ' '),
            in_word == (i > 0 && !is_ws(cs@[i - 1])),
    {
        let c = cs[i];
        let ghost p = lower_seq(cs@.take(i as int));
        let ghost q = lower_seq(cs@.take(i + 1));
        proof {
            assert(q =~= p.push(ascii_lower(c)));
            assert(q.drop_last() =~= p);
            lemma_words_props(p);
            lemma_join_nonempty(words(p), ' ');
            if i > 0 {
                assert(p.last() == ascii_lower(cs@[i - 1]));
            }
        }
        if is_whitespace(c) {
            in_word = false;
        } else {
            let lc = to_ascii_lower(c);
            if in_word {
                proof {
                    lemma_join_extend_last(words(p), ' ', lc);
                }
                out.push(lc);
            } else {
                if out.len() > 0 {
                    out.push(' ');
                }
                out.push(lc);
                proof {
                    let w = words(p).push(seq![lc]);
                    assert(w.drop_last() =~= words(p));
                    if words(p).len() > 0 {
                        assert(join_words(w, ' ') =~= join_words(words(p), ' ').push(' ') + seq![
                            lc,
                        ]);
                    } else {
                        assert(join_words(w, ' ') =~= seq![lc]);
                    }
                }
            }
            in_word = true;
        }
    }
    assert(cs@.take(cs@.len() as int) =~= cs@);
    out
}

/// Position of the first occurrence of `c`, if any.
pub open spec fn first_index_of(s: Seq<char>, c: char) -> Option<int> {
    if exists|i: int| 0 <= i < s.len() && s[i] == c {
        Some(choose|i: int| 0 <= i < s.len() && s[i] == c && forall|j: int| 0 <= j < i ==> s[j] != c)
    } else {
        None
    }
}

pub fn find_char(cs: &[char], c: char) -> (r: Option<usize>)
    ensures
        match r {
            Some(i) => i < cs@.len() && cs@[i as int] == c && forall|j: int|
                0 <= j < i ==> cs@[j] != c,
            None => forall|j: int| 0 <= j < cs@.len() ==> cs@[j] != c,
        },
        r matches Some(i) ==> first_index_of(cs@, c) == Some(i as int),
        r is None ==> first_index_of(cs@, c) is None,
{
    let mut i: usize = 0;
    while i < cs.len()
        invariant
            i <= cs@.len(),
            forall|j: int| 0 <= j < i ==> cs@[j] != c,
        decreases cs@.len() - i,
    {
        if cs[i] == c {
            proof {
                let k = i as int;
                assert(0 <= k < cs@.len() && cs@[k] == c && forall|j: int| 0 <= j < k ==> cs@[j] != c);
                let ch = choose|k2: int|
                    0 <= k2 < cs@.len() && cs@[k2] == c && forall|j: int| 0 <= j < k2 ==> cs@[j] != c;
                assert(ch == k) by {
                    if ch < k {
                        assert(cs@[ch] != c);
                    }
                    if ch > k {
                        assert(cs@[k] != c);
                    }
                }
            }
            return Some(i);
        }
        i += 1;
    }
    None
}

/// Whether `s` begins with `prefix`.
pub open spec fn has_prefix(s: Seq<char>, prefix: Seq<char>) -> bool {
    prefix.len() <= s.len() && s.take(prefix.len() as int) == prefix
}

pub fn starts_with(cs: &[char], prefix: &[char]) -> (r: bool)
    ensures
        r == has_prefix(cs@, prefix@),
{
    if prefix.len() > cs.len() {
        return false;
    }
    let mut i: usize = 0;
    while i < prefix.len()
        invariant
            prefix@.len() <= cs@.len(),
            i <= prefix@.len(),
            forall|j: int| 0 <= j < i ==> cs@[j] == prefix@[j],
        decreases prefix@.len() - i,
    {
        if cs[i] != prefix[i] {
            assert(cs@.take(prefix@.len() as int)[i as int] != prefix@[i as int]);
            return false;
        }
        i += 1;
    }
    assert(cs@.take(prefix@.len() as int) =~= prefix@);
    true
}

/// Whether `needle` occurs somewhere in `s`.
pub open spec fn contains_seq(s: Seq<char>, needle: Seq<char>) -> bool {
    exists|i: int| 0 <= i && i + needle.len() <= s.len() && #[trigger] s.subrange(i, i + needle.len()) == needle
}

pub fn contains_chars(cs: &[char], needle: &[char]) -> (r: bool)
    ensures
        r == contains_seq(cs@, needle@),
{
    if needle.len() > cs.len() {
        return false;
    }
    if needle.len() == 0 {
        assert(cs@.subrange(0int, 0int + needle@.len()) =~= needle@);
        return true;
    }
    let n = cs.len();
    let last = n - needle.len();
    let mut i: usize = 0;
    while i <= last
        invariant
            n == cs@.len(),
            last == cs@.len() - needle@.len(),
            needle@.len() >= 1,
            i <= last + 1,
            forall|k: int| 0 <= k < i ==> #[trigger] cs@.subrange(k, k + needle@.len()) != needle@,
        decreases last + 1 - i,
    {
        let mut j: usize = 0;
        let mut ok = true;
        while j < needle.len()
            invariant
                n == cs@.len(),
                i <= last,
                needle@.len() >= 1,
                needle@.len() <= cs@.len(),
                last == cs@.len() - needle@.len(),
                j <= needle@.len(),
                ok ==> forall|m: int| 0 <= m < j ==> cs@[i + m] == needle@[m],
                !ok ==> cs@.subrange(i as int, i + needle@.len()) != needle@,
            decreases needle@.len() - j,
        {
            if cs[i + j] != needle[j] {
                assert(cs@.subrange(i as int, i + needle@.len())[j as int] != needle@[j as int]);
                ok = false;
            }
            j += 1;
        }
        if ok {
            assert(cs@.subrange(i as int, i + needle@.len()) =~= needle@);
            return true;
        }
        i += 1;
    }
    proof {
        assert forall|k: int|
            0 <= k && k + needle@.len() <= cs@.len() implies #[trigger] cs@.subrange(
            k,
            k + needle@.len(),
        ) != needle@ by {
            assert(k < i);
        }
    }
    false
}

/// `str::split_once` on a character: the parts before and after its first
/// occurrence.
pub open spec fn split_once(s: Seq<char>, c: char) -> Option<(Seq<char>, Seq<char>)> {
    match first_index_of(s, c) {
        Some(i) => Some((s.take(i), s.skip(i + 1))),
        None => None,
    }
}

pub open spec fn pair_view(r: Option<(&str, &str)>) -> Option<(Seq<char>, Seq<char>)> {
    match r {
        Some((a, b)) => Some((a@, b@)),
        None => None,
    }
}

/// `str::split_once(c)`.
pub fn split_once_char(s: &str, c: char) -> (r: Option<(&str, &str)>)
    ensures
        pair_view(r) == split_once(s@, c),
{
    let cs = chars_of(s);
    let n = cs.len();
    match find_char(&cs, c) {
        Some(i) => {
            let a = s.substring_char(0, i);
            let b = s.substring_char(i + 1, n);
            assert(a@ =~= s@.take(i as int));
            assert(b@ =~= s@.skip(i + 1));
            Some((a, b))
        },
        None => None,
    }
}

/// A new string with the characters of `a` and then those of `b`.
pub fn concat_seq(a: &[char], b: &[char]) -> (out: Vec<char>)
    ensures
        out@ == a@ + b@,
{
    let mut out: Vec<char> = Vec::new();
    for i in 0..a.len()
        invariant
            out@ == a@.take(i as int),
    {
        out.push(a[i]);
        assert(a@.take(i + 1) == a@.take(i as int).push(a@[i as int]));
    }
    assert(a@.take(a@.len() as int) =~= a@);
    for j in 0..b.len()
        invariant
            out@ == a@ + b@.take(j as int),
    {
        out.push(b[j]);
        assert(b@.take(j + 1) == b@.take(j as int).push(b@[j as int]));
    }
    assert(b@.take(b@.len() as int) =~= b@);
    out
}

/// Appends the characters of `b` to `out`.
pub fn extend_chars(out: &mut Vec<char>, b: &[char])
    ensures
        final(out)@ == old(out)@ + b@,
{
    let ghost start = out@;
    for j in 0..b.len()
        invariant
            out@ == start + b@.take(j as int),
    {
        out.push(b[j]);
        assert(b@.take(j + 1) == b@.take(j as int).push(b@[j as int]));
    }
    assert(b@.take(b@.len() as int) =~= b@);
}

/// Appends the characters of a string slice to `out`.
pub fn extend_str(out: &mut Vec<char>, b: &str)
    ensures
        final(out)@ == old(out)@ + b@,
{
    let cs = chars_of(b);
    extend_chars(out, &cs);
}

// ---------------------------------------------------------------------------
// Laws of the normalised form
// ---------------------------------------------------------------------------
pub open spec fn is_word_char(c: char) -> bool {
    !is_ws(c) && ascii_lower(c) == c
}

proof fn lemma_words_of_lowered(s: Seq<char>)
    requires
        forall|k: int| 0 <= k < s.len() ==> ascii_lower(#[trigger] s[k]) == s[k],
    ensures
        forall|i: int, j: int|
            0 <= i < words(s).len() && 0 <= j < words(s)[i].len() ==> is_word_char(
                #[trigger] words(s)[i][j],
            ),
    decreases s.len(),
{
    if s.len() > 0 {
        let p = s.drop_last();
        let c = s.last();
        lemma_words_of_lowered(p);
        let w = words(p);
        assert(ascii_lower(s[s.len() - 1]) == s[s.len() - 1]);
        assert(forall|k: int| 0 <= k < p.len() ==> p[k] == s[k]);
        if is_ws(c) {
        } else if p.len() > 0 && !is_ws(p.last()) {
            lemma_words_props(p);
            assert(words(s) == w.update(w.len() - 1, w.last().push(c)));
            assert forall|i: int, j: int|
                0 <= i < words(s).len() && 0 <= j < words(s)[i].len() implies is_word_char(
                #[trigger] words(s)[i][j],
            ) by {
                if i < w.len() - 1 {
                    assert(words(s)[i] == w[i]);
                } else {
                    assert(words(s)[i] == w.last().push(c));
                    if j < w.last().len() {
                        assert(words(s)[i][j] == w[i][j]);
                    }
                }
            }
        } else {
            assert forall|i: int, j: int|
                0 <= i < words(s).len() && 0 <= j < words(s)[i].len() implies is_word_char(
                #[trigger] words(s)[i][j],
            ) by {
                if i < w.len() {
                    assert(words(s)[i] == w[i]);
                } else {
                    assert(words(s)[i] == seq![c]);
                }
            }
        }
    }
}

proof fn lemma_lower_is_lowered(s: Seq<char>)
    ensures
        forall|k: int| 0 <= k < lower_seq(s).len() ==> ascii_lower(#[trigger] lower_seq(s)[k])
            == lower_seq(s)[k],
{
    assert forall|k: int| 0 <= k < lower_seq(s).len() implies ascii_lower(
        #[trigger] lower_seq(s)[k],
    ) == lower_seq(s)[k] by {
        let c = s[k];
        if 'A' <= c && c <= 'Z' {
            assert(((c as u32) + 32) as char as u32 == (c as u32) + 32);
        }
    }
}

proof fn lemma_words_single(w: Seq<char>)
    requires
        w.len() > 0,
        forall|k: int| 0 <= k < w.len() ==> !is_ws(#[trigger] w[k]),
    ensures
        words(w) == seq![w],
    decreases w.len(),
{
    let p = w.drop_last();
    assert(w.last() == w[w.len() - 1]);
    if p.len() > 0 {
        lemma_words_single(p);
        assert(!is_ws(p.last()));
        assert(words(w) == words(p).update(words(p).len() - 1, words(p).last().push(w.last())));
        assert(p.push(w.last()) =~= w);
        assert(seq![p].update(0, p.push(w.last())) =~= seq![w]);
    } else {
        assert(words(p) =~= Seq::<Seq<char>>::empty());
        assert(words(w) == words(p).push(seq![w.last()]));
        assert(w =~= seq![w.last()]);
    }
}

proof fn lemma_words_append_word(s: Seq<char>, w: Seq<char>)
    requires
        w.len() > 0,
        forall|k: int| 0 <= k < w.len() ==> !is_ws(#[trigger] w[k]),
    ensures
        words(s + seq![' '] + w) == words(s).push(w),
    decreases w.len(),
{
    let t = s + seq![' '] + w;
    let p = w.drop_last();
    let c = w.last();
    assert(t.drop_last() =~= s + seq![' '] + p);
    assert(t.last() == c);
    assert(!is_ws(c));
    if p.len() == 0 {
        assert((s + seq![' ']).drop_last() =~= s);
        assert(words(s + seq![' ']) == words(s));
        assert(s + seq![' '] + p =~= s + seq![' ']);
        assert(w =~= seq![c]);
    } else {
        lemma_words_append_word(s, p);
        assert((s + seq![' '] + p).last() == p.last());
        assert(!is_ws(p[p.len() - 1]));
        assert(p.push(c) =~= w);
        assert(words(s).push(p).update(words(s).len() as int, p.push(c)) =~= words(s).push(w));
    }
}

proof fn lemma_words_join(ws: Seq<Seq<char>>)
    requires
        forall|i: int| 0 <= i < ws.len() ==> (#[trigger] ws[i]).len() > 0,
        forall|i: int, j: int| 0 <= i < ws.len() && 0 <= j < ws[i].len() ==> !is_ws(#[trigger] ws[i][j]),
    ensures
        words(join_words(ws, ' ')) == ws,
    decreases ws.len(),
{
    if ws.len() == 0 {
    } else if ws.len() == 1 {
        assert forall|k: int| 0 <= k < ws[0].len() implies !is_ws(#[trigger] ws[0][k]) by {}
        lemma_words_single(ws[0]);
        assert(seq![ws[0]] =~= ws);
    } else {
        let d = ws.drop_last();
        assert forall|i: int| 0 <= i < d.len() implies (#[trigger] d[i]).len() > 0 by {
            assert(d[i] == ws[i]);
        }
        assert forall|i: int, j: int| 0 <= i < d.len() && 0 <= j < d[i].len() implies !is_ws(#[trigger] d[i][j]) by {
            assert(d[i] == ws[i]);
        }
        lemma_words_join(d);
        let l = ws.last();
        assert(l == ws[ws.len() - 1]);
        assert forall|k: int| 0 <= k < l.len() implies !is_ws(#[trigger] l[k]) by {
            assert(l[k] == ws[ws.len() - 1][k]);
        }
        lemma_words_append_word(join_words(d, ' '), l);
        assert(join_words(ws, ' ') == join_words(d, ' ').push(' ') + l);
        assert(join_words(d, ' ').push(' ') + l =~= join_words(d, ' ') + seq![' '] + l);
        assert(d.push(l) =~= ws);
    }
}

proof fn lemma_join_chars(ws: Seq<Seq<char>>)
    requires
        forall|i: int, j: int| 0 <= i < ws.len() && 0 <= j < ws[i].len() ==> is_word_char(#[trigger] ws[i][j]),
    ensures
        forall|k: int| 0 <= k < join_words(ws, ' ').len() ==> ascii_lower(#[trigger] join_words(ws, ' ')[k]) == join_words(ws, ' ')[k],
    decreases ws.len(),
{
    if ws.len() >= 2 {
        let d = ws.drop_last();
        assert forall|i: int, j: int| 0 <= i < d.len() && 0 <= j < d[i].len() implies is_word_char(#[trigger] d[i][j]) by {
            assert(d[i] == ws[i]);
        }
        lemma_join_chars(d);
        let jd = join_words(d, ' ');
        let l = ws.last();
        assert forall|k: int| 0 <= k < join_words(ws, ' ').len() implies ascii_lower(#[trigger] join_words(ws, ' ')[k]) == join_words(ws, ' ')[k] by {
            let t = join_words(ws, ' ');
            if k < jd.len() {
                assert(t[k] == jd[k]);
            } else if k == jd.len() {
                assert(t[k] == ' ');
            } else {
                assert(t[k] == l[k - jd.len() - 1]);
                assert(l == ws[ws.len() - 1]);
                assert(is_word_char(ws[ws.len() - 1][k - jd.len() - 1]));
            }
        }
    } else if ws.len() == 1 {
        assert forall|k: int| 0 <= k < join_words(ws, ' ').len() implies ascii_lower(#[trigger] join_words(ws, ' ')[k]) == join_words(ws, ' ')[k] by {
            assert(is_word_char(ws[0][k]));
        }
    }
}

proof fn lemma_trailing_all_ws(s: Seq<char>)
    ensures
        trailing_ws(s) <= s.len(),
        forall|j: int| s.len() - trailing_ws(s) <= j < s.len() ==> is_ws(#[trigger] s[j]),
    decreases s.len(),
{
    if s.len() > 0 && is_ws(s.last()) {
        let p = s.drop_last();
        lemma_trailing_all_ws(p);
        assert forall|j: int| s.len() - trailing_ws(s) <= j < s.len() implies is_ws(#[trigger] s[j]) by {
            if j < s.len() - 1 {
                assert(s[j] == p[j]);
            }
        }
    }
}

/// A string trims to nothing exactly when all its characters are
/// whitespace.
proof fn lemma_trim_empty_all_ws(s: Seq<char>)
    ensures
        (trim_seq(s).len() == 0) == (forall|k: int| 0 <= k < s.len() ==> is_ws(#[trigger] s[k])),
{
    lemma_leading_stop(s);
    let l = leading_ws(s) as int;
    let t = s.skip(l);
    lemma_trailing_all_ws(t);
    if forall|k: int| 0 <= k < s.len() ==> is_ws(#[trigger] s[k]) {
        lemma_leading_ws(s, s.len() as int);
    } else {
        let k = choose|k: int| 0 <= k < s.len() && !is_ws(#[trigger] s[k]);
        if l == s.len() {
            lemma_leading_ws_all(s);
            assert(is_ws(s[k]));
        }
        assert(t[0] == s[l]);
        if trailing_ws(t) == t.len() {
            assert(is_ws(t[0]));
        }
    }
}

proof fn lemma_leading_ws_all(s: Seq<char>)
    ensures
        forall|j: int| 0 <= j < leading_ws(s) && j < s.len() ==> is_ws(#[trigger] s[j]),
    decreases s.len(),
{
    if s.len() > 0 && is_ws(s[0]) {
        let t = s.drop_first();
        lemma_leading_ws_all(t);
        assert forall|j: int| 0 <= j < leading_ws(s) && j < s.len() implies is_ws(#[trigger] s[j]) by {
            if j > 0 {
                assert(s[j] == t[j - 1]);
            }
        }
    }
}

/// `words` finds nothing exactly when every character is whitespace.
proof fn lemma_words_empty(s: Seq<char>)
    ensures
        (words(s).len() == 0) == (forall|k: int| 0 <= k < s.len() ==> is_ws(#[trigger] s[k])),
    decreases s.len(),
{
    if s.len() > 0 {
        let p = s.drop_last();
        let c = s.last();
        lemma_words_empty(p);
        lemma_words_props(p);
        if is_ws(c) {
            if forall|k: int| 0 <= k < p.len() ==> is_ws(#[trigger] p[k]) {
                assert forall|k: int| 0 <= k < s.len() implies is_ws(#[trigger] s[k]) by {
                    if k < p.len() {
                        assert(s[k] == p[k]);
                    }
                }
            } else {
                let k = choose|k: int| 0 <= k < p.len() && !is_ws(#[trigger] p[k]);
                assert(s[k] == p[k]);
            }
        } else {
            assert(!is_ws(s[s.len() - 1]));
        }
    }
}

/// ASCII lower-casing keeps whitespace whitespace and the rest not.
proof fn lemma_lower_ws(s: Seq<char>)
    ensures
        lower_seq(s).len() == s.len(),
        forall|k: int| 0 <= k < s.len() ==> is_ws(#[trigger] lower_seq(s)[k]) == is_ws(s[k]),
{
    assert forall|k: int| 0 <= k < s.len() implies is_ws(#[trigger] lower_seq(s)[k]) == is_ws(s[k]) by {
        let c = s[k];
        if 'A' <= c && c <= 'Z' {
            assert(((c as u32) + 32) as char as u32 == (c as u32) + 32);
        }
    }
}

/// Words joined by single spaces: no whitespace at either end, the only
/// whitespace is the space, and no two whitespace characters stand side
/// by side.
proof fn lemma_join_shape(ws: Seq<Seq<char>>)
    requires
        forall|i: int| 0 <= i < ws.len() ==> (#[trigger] ws[i]).len() > 0,
        forall|i: int, j: int| 0 <= i < ws.len() && 0 <= j < ws[i].len() ==> !is_ws(#[trigger] ws[i][j]),
    ensures
        join_words(ws, ' ').len() > 0 ==> !is_ws(join_words(ws, ' ')[0]) && !is_ws(
            join_words(ws, ' ').last(),
        ),
        forall|k: int| 0 <= k < join_words(ws, ' ').len() && is_ws(#[trigger] join_words(ws, ' ')[k]) ==> join_words(
            ws,
            ' ',
        )[k] == ' ',
        forall|k: int, m: int|
            #![trigger join_words(ws, ' ')[k], join_words(ws, ' ')[m]]
            0 <= k && m == k + 1 && m < join_words(ws, ' ').len() ==> !(is_ws(join_words(ws, ' ')[k]) && is_ws(
                join_words(ws, ' ')[m],
            )),
    decreases ws.len(),
{
    let t = join_words(ws, ' ');
    if ws.len() == 1 {
        assert(t == ws[0]);
        assert forall|k: int| 0 <= k < t.len() implies !is_ws(#[trigger] t[k]) by {
            assert(t[k] == ws[0][k]);
        }
        if t.len() > 0 {
            assert(!is_ws(t[t.len() - 1]));
        }
    } else if ws.len() >= 2 {
        let d = ws.drop_last();
        assert forall|i: int| 0 <= i < d.len() implies (#[trigger] d[i]).len() > 0 by {
            assert(d[i] == ws[i]);
        }
        assert forall|i: int, j: int| 0 <= i < d.len() && 0 <= j < d[i].len() implies !is_ws(#[trigger] d[i][j]) by {
            assert(d[i] == ws[i]);
        }
        lemma_join_shape(d);
        lemma_join_nonempty(d, ' ');
        let jd = join_words(d, ' ');
        let l = ws.last();
        assert(l == ws[ws.len() - 1]);
        assert(t == jd.push(' ') + l);
        assert(t.len() == jd.len() + 1 + l.len());
        assert forall|k: int| 0 <= k < l.len() implies !is_ws(#[trigger] l[k]) by {
            assert(l[k] == ws[ws.len() - 1][k]);
        }
        assert forall|k: int| 0 <= k < t.len() implies (#[trigger] t[k]) == (if k < jd.len() {
            jd[k]
        } else if k == jd.len() {
            ' '
        } else {
            l[k - jd.len() - 1]
        }) by {}
        assert(t[0] == jd[0]);
        assert(t[t.len() - 1] == l[l.len() - 1]);
        assert forall|k: int| 0 <= k < t.len() && is_ws(#[trigger] t[k]) implies t[k] == ' ' by {
            if k < jd.len() {
                assert(t[k] == jd[k]);
            } else if k > jd.len() {
                assert(t[k] == l[k - jd.len() - 1]);
            }
        }
        assert forall|k: int, m: int|
            #![trigger t[k], t[m]]
            0 <= k && m == k + 1 && m < t.len() implies !(is_ws(t[k]) && is_ws(t[m])) by {
            if m < jd.len() {
                assert(t[k] == jd[k]);
                assert(t[m] == jd[m]);
                assert(!(is_ws(jd[k]) && is_ws(jd[m])));
            } else if m == jd.len() {
                assert(t[k] == jd[jd.len() - 1]);
            } else if k == jd.len() {
                assert(t[m] == l[0]);
            } else {
                assert(t[k] == l[k - jd.len() - 1]);
                assert(t[m] == l[m - jd.len() - 1]);
            }
        }
    }
}

/// The shape of a normalised label: no whitespace at either end, no
/// whitespace but single spaces, never two whitespace characters side by
/// side, and empty exactly when the trimmed input is.
pub proof fn law_normalized_label_shape(s: Seq<char>)
    ensures
        normalized_label(s).len() > 0 ==> !is_ws(normalized_label(s)[0]) && !is_ws(normalized_label(s).last()),
        forall|k: int| 0 <= k < normalized_label(s).len() && is_ws(#[trigger] normalized_label(s)[k]) ==> normalized_label(
            s,
        )[k] == ' ',
        forall|k: int, m: int|
            #![trigger normalized_label(s)[k], normalized_label(s)[m]]
            0 <= k && m == k + 1 && m < normalized_label(s).len() ==> !(is_ws(normalized_label(s)[k]) && is_ws(
                normalized_label(s)[m],
            )),
        (normalized_label(s).len() == 0) == (trim_seq(s).len() == 0),
{
    let l = lower_seq(s);
    let ws = words(l);
    lemma_lower_is_lowered(s);
    lemma_words_of_lowered(l);
    lemma_words_props(l);
    assert forall|i: int, j: int| 0 <= i < ws.len() && 0 <= j < ws[i].len() implies !is_ws(#[trigger] ws[i][j]) by {
        assert(is_word_char(ws[i][j]));
    }
    lemma_join_shape(ws);
    lemma_join_nonempty(ws, ' ');
    lemma_words_empty(l);
    lemma_lower_ws(s);
    lemma_trim_empty_all_ws(s);
    if forall|k: int| 0 <= k < s.len() ==> is_ws(#[trigger] s[k]) {
        assert forall|k: int| 0 <= k < l.len() implies is_ws(#[trigger] l[k]) by {
            assert(is_ws(s[k]));
        }
    } else {
        let k = choose|k: int| 0 <= k < s.len() && !is_ws(#[trigger] s[k]);
        assert(!is_ws(l[k]));
    }
}

/// Normalising a label twice gives the same as normalising it once.
pub proof fn lemma_normalized_label_idempotent(s: Seq<char>)
    ensures
        normalized_label(normalized_label(s)) == normalized_label(s),
{
    let l = lower_seq(s);
    let ws = words(l);
    lemma_lower_is_lowered(s);
    lemma_words_of_lowered(l);
    lemma_words_props(l);
    let n = join_words(ws, ' ');
    lemma_join_chars(ws);
    assert(lower_seq(n) =~= n);
    assert forall|i: int, j: int| 0 <= i < ws.len() && 0 <= j < ws[i].len() implies !is_ws(#[trigger] ws[i][j]) by {
        assert(is_word_char(ws[i][j]));
    }
    lemma_words_join(ws);
}

/// Every character of a normalised label is already lower-cased.
pub proof fn lemma_normalized_label_chars(s: Seq<char>)
    ensures
        forall|k: int| 0 <= k < normalized_label(s).len() ==> ascii_lower(#[trigger] normalized_label(s)[k]) == normalized_label(s)[k],
{
    let l = lower_seq(s);
    lemma_lower_is_lowered(s);
    lemma_words_of_lowered(l);
    lemma_join_chars(words(l));
}

/// Splitting `a c b` at the first `c` gives `a` and `b` when `a` holds no `c`.
pub proof fn lemma_split_once_concat(a: Seq<char>, b: Seq<char>, c: char)
    requires
        forall|k: int| 0 <= k < a.len() ==> #[trigger] a[k] != c,
    ensures
        split_once(a + seq![c] + b, c) == Some((a, b)),
{
    let s = a + seq![c] + b;
    let i = a.len() as int;
    assert(s[i] == c);
    assert(forall|j: int| 0 <= j < i ==> s[j] == a[j]);
    let ch = choose|k2: int| 0 <= k2 < s.len() && s[k2] == c && forall|j: int| 0 <= j < k2 ==> s[j] != c;
    assert(0 <= i < s.len() && s[i] == c && forall|j: int| 0 <= j < i ==> s[j] != c);
    assert(ch == i) by {
        if ch < i {
            assert(s[ch] == a[ch]);
        }
        if ch > i {
            assert(s[i] != c);
        }
    }
    assert(s.take(i) =~= a);
    assert(s.skip(i + 1) =~= b);
}

// ---------------------------------------------------------------------------
// Ordering and sorting
// ---------------------------------------------------------------------------
/// The order of `str`'s `Ord`: lexicographic by character (UTF-8 bytes
/// compare as their code points do).
pub open spec fn lex_le(a: Seq<char>, b: Seq<char>) -> bool
    decreases a.len(),
{
    if a.len() == 0 {
        true
    } else if b.len() == 0 {
        false
    } else if a[0] != b[0] {
        a[0] < b[0]
    } else {
        lex_le(a.drop_first(), b.drop_first())
    }
}

pub proof fn lemma_lex_total(a: Seq<char>, b: Seq<char>)
    ensures
        lex_le(a, b) || lex_le(b, a),
    decreases a.len(),
{
    if a.len() > 0 && b.len() > 0 && a[0] == b[0] {
        lemma_lex_total(a.drop_first(), b.drop_first());
    }
}

pub proof fn lemma_lex_trans(a: Seq<char>, b: Seq<char>, c: Seq<char>)
    requires
        lex_le(a, b),
        lex_le(b, c),
    ensures
        lex_le(a, c),
    decreases a.len(),
{
    if a.len() > 0 && b.len() > 0 && c.len() > 0 && a[0] == b[0] && b[0] == c[0] {
        lemma_lex_trans(a.drop_first(), b.drop_first(), c.drop_first());
    }
}

pub fn lex_le_chars(a: &[char], b: &[char]) -> (r: bool)
    ensures
        r == lex_le(a@, b@),
{
    let mut i: usize = 0;
    assert(a@.skip(0) =~= a@);
    assert(b@.skip(0) =~= b@);
    while i < a.len() && i < b.len() && a[i] == b[i]
        invariant
            i <= a@.len(),
            i <= b@.len(),
            lex_le(a@, b@) == lex_le(a@.skip(i as int), b@.skip(i as int)),
        decreases a@.len() - i,
    {
        proof {
            assert(a@.skip(i as int).drop_first() =~= a@.skip(i + 1));
            assert(b@.skip(i as int).drop_first() =~= b@.skip(i + 1));
        }
        i += 1;
    }
    proof {
        if i < a@.len() {
            assert(a@.skip(i as int)[0] == a@[i as int]);
        }
        if i < b@.len() {
            assert(b@.skip(i as int)[0] == b@[i as int]);
        }
    }
    if i == a.len() {
        true
    } else if i == b.len() {
        false
    } else {
        a[i] < b[i]
    }
}

/// `a <= b` for strings.
pub fn str_le(a: &str, b: &str) -> (r: bool)
    ensures
        r == lex_le(a@, b@),
{
    let ac = chars_of(a);
    let bc = chars_of(b);
    lex_le_chars(&ac, &bc)
}

pub open spec fn sorted_strings(s: Seq<String>) -> bool {
    forall|i: int, j: int| 0 <= i < j < s.len() ==> lex_le(#[trigger] s[i]@, #[trigger] s[j]@)
}

/// `slice::sort` on strings: ascending, holding the same strings.
pub fn sort_strings(v: Vec<String>) -> (r: Vec<String>)
    ensures
        sorted_strings(r@),
        r@.to_multiset() == v@.to_multiset(),
{
    let mut out: Vec<String> = Vec::new();
    let n = v.len();
    let mut k: usize = 0;
    assert(v@.take(0) =~= out@);
    while k < n
        invariant
            n == v@.len(),
            k <= n,
            sorted_strings(out@),
            out@.to_multiset() == v@.take(k as int).to_multiset(),
        decreases n - k,
    {
        let x = v[k].clone();
        let mut pos: usize = 0;
        while pos < out.len() && str_le(out[pos].as_str(), x.as_str())
            invariant
                pos <= out@.len(),
                forall|j: int| 0 <= j < pos ==> lex_le(#[trigger] out@[j]@, x@),
            decreases out@.len() - pos,
        {
            pos += 1;
        }
        let ghost before = out@;
        proof {
            if pos < before.len() {
                lemma_lex_total(x@, before[pos as int]@);
                assert forall|j: int| pos <= j < before.len() implies lex_le(x@, #[trigger] before[j]@) by {
                    if j > pos {
                        lemma_lex_trans(x@, before[pos as int]@, before[j]@);
                    }
                }
            }
        }
        out.insert(pos, x);
        proof {
            vstd::seq_lib::to_multiset_insert(before, pos as int, v@[k as int]);
            assert(v@.take(k + 1) =~= v@.take(k as int).push(v@[k as int]));
            vstd::seq_lib::to_multiset_build(v@.take(k as int), v@[k as int]);
            assert forall|i: int, j: int| 0 <= i < j < out@.len() implies lex_le(#[trigger] out@[i]@, #[trigger] out@[j]@) by {
                if j < pos {
                    assert(out@[i] == before[i] && out@[j] == before[j]);
                } else if j == pos {
                    assert(out@[i] == before[i]);
                } else if i < pos {
                    assert(out@[i] == before[i] && out@[j] == before[j - 1]);
                    lemma_lex_trans(before[i]@, x@, before[j - 1]@);
                } else if i == pos {
                    assert(out@[j] == before[j - 1]);
                } else {
                    assert(out@[i] == before[i - 1] && out@[j] == before[j - 1]);
                }
            }
        }
        k += 1;
    }
    assert(v@.take(n as int) =~= v@);
    out
}

} // verus!
