//! A bounded excerpt of a document body around the first case-insensitive
//! occurrence of the query term.

use vstd::prelude::*;
use crate::text::{chars_of, fold, fold_chars, is_white, string_of, white_space};

verus! {

/// `needle` stands in `hay` at offset `p`.
pub open spec fn occurs_at(hay: Seq<char>, needle: Seq<char>, p: int) -> bool {
    0 <= p && p + needle.len() <= hay.len() && hay.subrange(p, p + needle.len()) == needle
}

/// The first offset at or after `i` where `needle` stands in `hay`.
pub open spec fn first_from(hay: Seq<char>, needle: Seq<char>, i: int) -> Option<int>
    decreases hay.len() + 1 - i,
{
    if i < 0 || i + needle.len() > hay.len() {
        None
    } else if occurs_at(hay, needle, i) {
        Some(i)
    } else {
        first_from(hay, needle, i + 1)
    }
}

/// The index of the first character at or after `i` that is not whitespace.
pub open spec fn skip_white(s: Seq<char>, i: int) -> int
    decreases s.len() - i,
{
    if 0 <= i < s.len() && white_space(s[i]) {
        skip_white(s, i + 1)
    } else {
        i
    }
}

/// The end of `s.subrange(lo, j)` once its trailing whitespace is dropped.
pub open spec fn back_white(s: Seq<char>, lo: int, j: int) -> int
    decreases j - lo,
{
    if lo < j && j <= s.len() && white_space(s[j - 1]) {
        back_white(s, lo, j - 1)
    } else {
        j
    }
}

/// `s` without its leading and trailing whitespace.
pub open spec fn trim(s: Seq<char>) -> Seq<char> {
    let a = skip_white(s, 0);
    s.subrange(a, back_white(s, a, s.len() as int))
}

/// The truncation marker.
pub open spec fn dots() -> Seq<char> {
    seq!['.', '.', '.']
}

/// Start of the window around a match at `p`: a third of the budget before it.
pub open spec fn window_start(p: int, max_length: int) -> int {
    if p > max_length / 3 {
        p - max_length / 3
    } else {
        0
    }
}

/// End of the window around a match at `p` of `term_len` characters: two
/// thirds of the budget after it, cut at the end of the body.
pub open spec fn window_end(len: int, p: int, term_len: int, max_length: int) -> int {
    if p + term_len + 2 * max_length / 3 < len {
        p + term_len + 2 * max_length / 3
    } else {
        len
    }
}

/// The snippet of `body`, given where the term was found (if at all) and
/// the term's length.
pub open spec fn window_snippet(body: Seq<char>, found: Option<int>, term_len: int, max_length: int) -> Seq<char> {
    match found {
        Some(p) => {
            let start = window_start(p, max_length);
            let end = window_end(body.len() as int, p, term_len, max_length);
            (if start > 0 { dots() } else { Seq::empty() })
                + trim(body.subrange(start, end))
                + (if end < body.len() { dots() } else { Seq::empty() })
        },
        None => {
            let end = if max_length < body.len() { max_length } else { body.len() as int };
            trim(body.subrange(0, end))
                + (if body.len() > max_length { dots() } else { Seq::empty() })
        },
    }
}

/// The snippet that `extract_snippet` makes of `body` for `term`.
pub open spec fn snippet_of(body: Seq<char>, term: Seq<char>, max_length: int) -> Seq<char> {
    window_snippet(body, first_from(fold(body), fold(term), 0), term.len() as int, max_length)
}

/// An offset that `first_from` finds is an occurrence, none before it and
/// none before `i`.
pub proof fn lemma_first_from(hay: Seq<char>, needle: Seq<char>, i: int)
    requires
        0 <= i,
    ensures
        match first_from(hay, needle, i) {
            Some(p) => i <= p && occurs_at(hay, needle, p)
                && forall|q: int| i <= q < p ==> !occurs_at(hay, needle, q),
            None => forall|q: int| i <= q ==> !occurs_at(hay, needle, q),
        },
    decreases hay.len() + 1 - i,
{
    if i + needle.len() <= hay.len() && !occurs_at(hay, needle, i) {
        lemma_first_from(hay, needle, i + 1);
    }
}

/// Whether `needle` stands in `hay` at offset `p`.
pub fn occurs_at_exec(hay: &Vec<char>, needle: &Vec<char>, p: usize) -> (r: bool)
    requires
        p + needle@.len() <= hay@.len(),
    ensures
        r == occurs_at(hay@, needle@, p as int),
{
    let n = hay.len();
    let mut k: usize = 0;
    while k < needle.len()
        invariant
            n == hay@.len(),
            p + needle@.len() <= hay@.len(),
            k <= needle@.len(),
            forall|j: int| 0 <= j < k ==> hay@[p + j] == needle@[j],
        decreases needle@.len() - k,
    {
        if hay[p + k] != needle[k] {
            assert(hay@.subrange(p as int, p + needle@.len())[k as int] != needle@[k as int]);
            return false;
        }
        k = k + 1;
    }
    assert(hay@.subrange(p as int, p + needle@.len()) =~= needle@);
    true
}

/// The first offset where `needle` stands in `hay`.
pub fn find_first(hay: &Vec<char>, needle: &Vec<char>) -> (r: Option<usize>)
    ensures
        match r {
            Some(p) => first_from(hay@, needle@, 0) == Some(p as int),
            None => first_from(hay@, needle@, 0) == None::<int>,
        },
{
    if needle.len() > hay.len() {
        return None;
    }
    let last = hay.len() - needle.len();
    let mut i: usize = 0;
    loop
        invariant
            last + needle@.len() == hay@.len(),
            i <= last,
            first_from(hay@, needle@, 0) == first_from(hay@, needle@, i as int),
        decreases last - i,
    {
        if occurs_at_exec(hay, needle, i) {
            return Some(i);
        }
        if i == last {
            assert(first_from(hay@, needle@, i + 1) == None::<int>);
            return None;
        }
        i = i + 1;
    }
}

/// The bounds of `s@.subrange(lo, hi)` once leading and trailing whitespace
/// is dropped.
pub fn trim_bounds(s: &Vec<char>, lo: usize, hi: usize) -> (r: (usize, usize))
    requires
        lo <= hi <= s@.len(),
    ensures
        lo <= r.0 <= r.1 <= hi,
        s@.subrange(r.0 as int, r.1 as int) == trim(s@.subrange(lo as int, hi as int)),
{
    let ghost w = s@.subrange(lo as int, hi as int);
    let mut a: usize = lo;
    while a < hi && is_white(s[a])
        invariant
            lo <= a <= hi <= s@.len(),
            w == s@.subrange(lo as int, hi as int),
            skip_white(w, 0) == skip_white(w, a - lo),
        decreases hi - a,
    {
        a = a + 1;
    }
    let mut b: usize = hi;
    while b > a && is_white(s[b - 1])
        invariant
            lo <= a <= b <= hi <= s@.len(),
            w == s@.subrange(lo as int, hi as int),
            skip_white(w, 0) == a - lo,
            back_white(w, a - lo, w.len() as int) == back_white(w, a - lo, b - lo),
        decreases b - a,
    {
        b = b - 1;
    }
    assert(w.subrange(a - lo, b - lo) =~= s@.subrange(a as int, b as int));
    (a, b)
}

/// Appends `s@.subrange(lo, hi)` to `out`.
fn push_range(out: &mut Vec<char>, s: &Vec<char>, lo: usize, hi: usize)
    requires
        lo <= hi <= s@.len(),
    ensures
        final(out)@ == old(out)@ + s@.subrange(lo as int, hi as int),
{
    let mut i: usize = lo;
    while i < hi
        invariant
            lo <= i <= hi <= s@.len(),
            out@ == old(out)@ + s@.subrange(lo as int, i as int),
        decreases hi - i,
    {
        out.push(s[i]);
        assert(s@.subrange(lo as int, i + 1) =~= s@.subrange(lo as int, i as int).push(s@[i as int]));
        assert(old(out)@ + s@.subrange(lo as int, i + 1) =~= (old(out)@ + s@.subrange(lo as int, i as int)).push(s@[i as int]));
        i = i + 1;
    }
}

/// Appends the truncation marker to `out`.
fn push_dots(out: &mut Vec<char>)
    ensures
        final(out)@ == old(out)@ + dots(),
{
    out.push('.');
    out.push('.');
    out.push('.');
    assert(final(out)@ =~= old(out)@ + dots());
}

/// The snippet of `body` for a term whose folded characters are
/// `folded_term`, searched in `folded_body`, the folded characters of `body`.
pub fn snippet_from_folded(
    body: &Vec<char>,
    folded_body: &Vec<char>,
    folded_term: &Vec<char>,
    max_length: usize,
) -> (r: Vec<char>)
    requires
        folded_body@.len() == body@.len(),
    ensures
        r@ == window_snippet(
            body@,
            first_from(folded_body@, folded_term@, 0),
            folded_term@.len() as int,
            max_length as int,
        ),
{
    let len = body.len();
    let mut out: Vec<char> = Vec::new();
    match find_first(folded_body, folded_term) {
        Some(p) => {
            proof {
                lemma_first_from(folded_body@, folded_term@, 0);
            }
            let tlen = folded_term.len();
            let start: usize = if p > max_length / 3 { p - max_length / 3 } else { 0 };
            let after: u128 = (2 * (max_length as u128)) / 3;
            let reach: u128 = (p as u128) + (tlen as u128) + after;
            let end: usize = if reach < len as u128 { reach as usize } else { len };
            assert(after == 2 * max_length / 3);
            assert(end == window_end(len as int, p as int, tlen as int, max_length as int));
            if start > 0 {
                push_dots(&mut out);
            }
            let (a, b) = trim_bounds(body, start, end);
            push_range(&mut out, body, a, b);
            if end < len {
                push_dots(&mut out);
            }
            assert(out@ =~= window_snippet(body@, Some(p as int), tlen as int, max_length as int));
        },
        None => {
            let end: usize = if max_length < len { max_length } else { len };
            let (a, b) = trim_bounds(body, 0, end);
            push_range(&mut out, body, a, b);
            if len > max_length {
                push_dots(&mut out);
            }
            assert(out@ =~= window_snippet(body@, None, folded_term@.len() as int, max_length as int));
        },
    }
    out
}

/// An excerpt of `content` around the first case-insensitive occurrence of
/// `query`, about `max_length` characters long, with `...` where the body
/// was cut; the beginning of `content` where `query` does not occur.
pub fn extract_snippet(content: &str, query: &str, max_length: usize) -> (r: String)
    ensures
        r@ == snippet_of(content@, query@, max_length as int),
{
    let body = chars_of(content);
    let term = chars_of(query);
    let folded_body = fold_chars(&body);
    let folded_term = fold_chars(&term);
    let out = snippet_from_folded(&body, &folded_body, &folded_term, max_length);
    string_of(&out)
}

/// What `skip_white` skips is whitespace, and it stops on a character that
/// is not.
pub proof fn lemma_skip_white(s: Seq<char>, i: int)
    requires
        0 <= i <= s.len(),
    ensures
        i <= skip_white(s, i) <= s.len(),
        forall|k: int| i <= k < skip_white(s, i) ==> white_space(#[trigger] s[k]),
        skip_white(s, i) < s.len() ==> !white_space(s[skip_white(s, i)]),
    decreases s.len() - i,
{
    if i < s.len() && white_space(s[i]) {
        lemma_skip_white(s, i + 1);
    }
}

/// What `back_white` drops is whitespace, and it stops after a character
/// that is not.
pub proof fn lemma_back_white(s: Seq<char>, lo: int, j: int)
    requires
        0 <= lo <= j <= s.len(),
    ensures
        lo <= back_white(s, lo, j) <= j,
        forall|k: int| back_white(s, lo, j) <= k < j ==> white_space(#[trigger] s[k]),
        back_white(s, lo, j) > lo ==> !white_space(s[back_white(s, lo, j) - 1]),
    decreases j - lo,
{
    if lo < j && white_space(s[j - 1]) {
        lemma_back_white(s, lo, j - 1);
    }
}

/// Trimming keeps a contiguous part of `s`: before it only whitespace.
pub proof fn lemma_trim_bounds(s: Seq<char>)
    ensures
        0 <= skip_white(s, 0) <= back_white(s, skip_white(s, 0), s.len() as int) <= s.len(),
        forall|k: int| 0 <= k < skip_white(s, 0) ==> white_space(#[trigger] s[k]),
        forall|k: int| back_white(s, skip_white(s, 0), s.len() as int) <= k < s.len()
            ==> white_space(#[trigger] s[k]),
{
    lemma_skip_white(s, 0);
    lemma_back_white(s, skip_white(s, 0), s.len() as int);
}

/// Around the first case-insensitive occurrence of `term` in `body`, at
/// `pos`: the window runs from a third of the budget before the match to two
/// thirds after it, within the body, and holds the matched characters; the
/// snippet is that window trimmed, with a leading marker exactly when
/// `pos - max_length / 3 > 0` and a trailing one exactly when the window
/// ends before the body does; it is at most `max_length` characters longer
/// than the term and the two markers, and where the matched characters
/// neither begin nor end with whitespace the snippet holds them.
pub proof fn lemma_snippet_around_match(body: Seq<char>, term: Seq<char>, max_length: int, pos: int)
    requires
        0 <= max_length,
        body.len() > 0,
        first_from(fold(body), fold(term), 0) == Some(pos),
    ensures
        ({
            let start = window_start(pos, max_length);
            let end = window_end(body.len() as int, pos, term.len() as int, max_length);
            let core = trim(body.subrange(start, end));
            let r = snippet_of(body, term, max_length);
            &&& 0 <= start <= pos
            &&& pos + term.len() <= end <= body.len()
            &&& fold(body.subrange(pos, pos + term.len())) == fold(term)
            &&& r == (if pos - max_length / 3 > 0 { dots() } else { Seq::empty() }) + core
                + (if end < body.len() { dots() } else { Seq::empty() })
            &&& r.len() <= max_length + term.len() + 6
            &&& (term.len() > 0 && !white_space(body[pos]) && !white_space(body[pos + term.len() - 1]))
                ==> exists|k: int| 0 <= k && k + term.len() <= core.len()
                    && #[trigger] core.subrange(k, k + term.len()) == body.subrange(pos, pos + term.len())
        }),
{
    lemma_first_from(fold(body), fold(term), 0);
    let t = term.len() as int;
    let start = window_start(pos, max_length);
    let end = window_end(body.len() as int, pos, t, max_length);
    let w = body.subrange(start, end);
    assert(fold(body.subrange(pos, pos + t)) =~= fold(body).subrange(pos, pos + t));
    lemma_trim_bounds(w);
    assert(max_length / 3 + 2 * max_length / 3 <= max_length) by (nonlinear_arith)
        requires
            0 <= max_length,
    ;
    let a = skip_white(w, 0);
    let b = back_white(w, a, w.len() as int);
    let off = pos - start;
    if t > 0 && !white_space(body[pos]) && !white_space(body[pos + t - 1]) {
        assert(w[off] == body[pos]);
        assert(w[off + t - 1] == body[pos + t - 1]);
        assert(trim(w).subrange(off - a, off - a + t) =~= body.subrange(pos, pos + t));
    }
}

/// Where `term` does not occur in `body`, case-insensitively, the snippet
/// is taken from the first `max_length` characters: a contiguous part of
/// them with only whitespace before it, then a trailing marker exactly when
/// the body is longer than `max_length`.
pub proof fn lemma_snippet_without_match(body: Seq<char>, term: Seq<char>, max_length: int)
    requires
        0 <= max_length,
        forall|q: int| !occurs_at(fold(body), fold(term), q),
    ensures
        exists|a: int, b: int|
            0 <= a <= b && b <= max_length && b <= body.len()
            && (forall|k: int| 0 <= k < a ==> white_space(#[trigger] body[k]))
            && snippet_of(body, term, max_length) == #[trigger] body.subrange(a, b)
                + (if body.len() > max_length { dots() } else { Seq::empty() }),
{
    lemma_first_from(fold(body), fold(term), 0);
    let e = if max_length < body.len() { max_length } else { body.len() as int };
    let w = body.subrange(0, e);
    lemma_trim_bounds(w);
    let a = skip_white(w, 0);
    let b = back_white(w, a, w.len() as int);
    assert(trim(w) =~= body.subrange(a, b));
    assert(forall|k: int| 0 <= k < a ==> w[k] == body[k]);
}

} // verus!
