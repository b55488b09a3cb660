//! Finding quoted reference tokens in text.
//!
//! A token is a non-empty run of characters that are neither quotes nor
//! whitespace, opened and closed by a quote character (`'` or `"`, in any
//! combination). Matches are leftmost and do not overlap: after a match the
//! search resumes behind its closing quote.
use vstd::prelude::*;
use vstd::std_specs::iter::IteratorSpec;

verus! {

/// Unicode `White_Space`.
pub open spec fn is_white_space(c: char) -> bool {
    let u = c as u32;
    ||| 0x09 <= u <= 0x0d
    ||| u == 0x20
    ||| u == 0x85
    ||| u == 0xa0
    ||| u == 0x1680
    ||| 0x2000 <= u <= 0x200a
    ||| u == 0x2028
    ||| u == 0x2029
    ||| u == 0x202f
    ||| u == 0x205f
    ||| u == 0x3000
}

pub open spec fn is_quote(c: char) -> bool {
    c == '\'' || c == '"'
}

/// A character that may stand inside a token.
pub open spec fn is_token_char(c: char) -> bool {
    !is_quote(c) && !is_white_space(c)
}

/// The first position at or after `j` that does not hold a token character.
pub open spec fn run_end(s: Seq<char>, j: int) -> int
    decreases s.len() - j,
{
    if j < 0 || j >= s.len() || !is_token_char(s[j]) {
        j
    } else {
        run_end(s, j + 1)
    }
}

/// A token opens at position `i`: its inner span is `(i + 1, run_end(s, i + 1))`.
pub open spec fn token_at(s: Seq<char>, i: int) -> bool {
    &&& 0 <= i < s.len()
    &&& is_quote(s[i])
    &&& run_end(s, i + 1) > i + 1
    &&& run_end(s, i + 1) < s.len()
    &&& is_quote(s[run_end(s, i + 1)])
}

/// The inner spans `(start, end)` of the tokens found from position `i` on.
pub open spec fn tokens_from(s: Seq<char>, i: int) -> Seq<(int, int)>
    decreases s.len() - i,
{
    if i < 0 || i >= s.len() {
        Seq::empty()
    } else if token_at(s, i) {
        seq![(i + 1, run_end(s, i + 1))] + tokens_from(s, run_end(s, i + 1) + 1)
    } else {
        tokens_from(s, i + 1)
    }
}

/// The inner spans of all tokens of `s`, left to right.
pub open spec fn tokens(s: Seq<char>) -> Seq<(int, int)> {
    tokens_from(s, 0)
}

/// Spans lie inside `[lo, len]`, are non-empty, and follow one another
/// without overlap.
pub open spec fn spans_ordered(t: Seq<(int, int)>, lo: int, len: int) -> bool {
    &&& forall|k: int| 0 <= k < t.len() ==> lo <= #[trigger] t[k].0 < t[k].1 <= len
    &&& forall|k: int| 0 < k < t.len() ==> t[k - 1].1 <= #[trigger] t[k].0
}

/// The found spans are ordered and inside the text.
pub proof fn lemma_tokens_ordered(s: Seq<char>, i: int)
    requires
        0 <= i,
    ensures
        spans_ordered(tokens_from(s, i), i, s.len() as int),
    decreases s.len() - i,
{
    if i < s.len() {
        if token_at(s, i) {
            let e = run_end(s, i + 1);
            lemma_tokens_ordered(s, e + 1);
            let rest = tokens_from(s, e + 1);
            let t = seq![(i + 1, e)] + rest;
            assert(tokens_from(s, i) == t);
            assert forall|k: int| 0 < k < t.len() implies t[k - 1].1 <= #[trigger] t[k].0 by {
                if k > 1 {
                    assert(t[k - 1] == rest[k - 2]);
                    assert(t[k] == rest[k - 1]);
                } else {
                    assert(t[k] == rest[0]);
                }
            }
            assert forall|k: int| 0 <= k < t.len() implies i <= #[trigger] t[k].0 < t[k].1
                <= s.len() by {
                if k > 0 {
                    assert(t[k] == rest[k - 1]);
                }
            }
        } else {
            lemma_tokens_ordered(s, i + 1);
        }
    }
}

pub fn is_white_space_char(c: char) -> (r: bool)
    ensures
        r == is_white_space(c),
{
    let u = c as u32;
    (0x09 <= u && u <= 0x0d) || u == 0x20 || u == 0x85 || u == 0xa0 || u == 0x1680 || (0x2000
        <= u && u <= 0x200a) || u == 0x2028 || u == 0x2029 || u == 0x202f || u == 0x205f || u
        == 0x3000
}

pub fn is_quote_char(c: char) -> (r: bool)
    ensures
        r == is_quote(c),
{
    c == '\'' || c == '"'
}

pub fn is_token_character(c: char) -> (r: bool)
    ensures
        r == is_token_char(c),
{
    !is_quote_char(c) && !is_white_space_char(c)
}

/// A token's inner span, in character positions.
#[derive(Clone, Copy, Debug, PartialEq, Eq)]
pub struct Span {
    pub start: usize,
    pub end: usize,
}

pub open spec fn span_views(v: Seq<Span>) -> Seq<(int, int)> {
    v.map_values(|p: Span| (p.start as int, p.end as int))
}

/// The inner spans of every token in `s`, in order.
pub fn find_tokens(s: &Vec<char>) -> (r: Vec<Span>)
    ensures
        span_views(r@) == tokens(s@),
{
    let n = s.len();
    let mut out: Vec<Span> = Vec::new();
    let mut i: usize = 0;
    while i < n
        invariant
            n == s@.len(),
            i <= n,
            span_views(out@) + tokens_from(s@, i as int) == tokens(s@),
        decreases n - i,
    {
        let ghost before = out@;
        if is_quote_char(s[i]) {
            let mut j: usize = i + 1;
            while j < n && is_token_character(s[j])
                invariant
                    n == s@.len(),
                    i < n,
                    i + 1 <= j <= n,
                    run_end(s@, i + 1) == run_end(s@, j as int),
                decreases n - j,
            {
                j = j + 1;
            }
            if j > i + 1 && j < n && is_quote_char(s[j]) {
                out.push(Span { start: i + 1, end: j });
                assert(span_views(out@) =~= span_views(before) + seq![(i + 1, j as int)]);
                assert(tokens_from(s@, i as int) == seq![((i + 1) as int, j as int)]
                    + tokens_from(s@, j + 1));
                assert(span_views(out@) + tokens_from(s@, j + 1) =~= span_views(before)
                    + tokens_from(s@, i as int));
                i = j + 1;
            } else {
                i = i + 1;
            }
        } else {
            i = i + 1;
        }
    }
    assert(span_views(out@) =~= span_views(out@) + tokens_from(s@, i as int));
    out
}

/// The characters of `text`, in order.
pub fn chars_of(text: &str) -> (r: Vec<char>)
    ensures
        r@ == text@,
{
    let mut out: Vec<char> = Vec::new();
    let mut it = text.chars();
    loop
        invariant
            out@ + it.remaining() == text@,
            it.obeys_prophetic_iter_laws(),
            it.decrease() is Some,
        decreases it.decrease()->0,
    {
        match it.next() {
            Some(c) => {
                out.push(c);
                assert(out@ + it.remaining() =~= text@);
            },
            None => {
                assert(out@ =~= text@);
                return out;
            },
        }
    }
}

} // verus!
