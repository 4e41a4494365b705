//! What may lie between tokens: white space and comments, and nothing else.

use vstd::prelude::*;

use crate::lexer::is_space_byte;
use crate::literal::is_newline_byte;

verus! {

/// How many signs `=` `s` starts with.
pub open spec fn eq_run(s: Seq<u8>) -> nat
    decreases s.len(),
{
    if s.len() > 0 && s[0] == 61 {
        1 + eq_run(s.skip(1))
    } else {
        0
    }
}

/// The level of the opening long bracket `[`, `=`..., `[` that `s` starts
/// with, if it starts with one.
pub open spec fn long_open_level(s: Seq<u8>) -> Option<int> {
    if s.len() > 0 && s[0] == 91 && s.len() > eq_run(s.skip(1)) + 1 && s[eq_run(s.skip(1)) as int + 1] == 91 {
        Some(eq_run(s.skip(1)) as int)
    } else {
        None
    }
}

/// A closing long bracket of level `k` starts at `c` in `s`.
pub open spec fn closes_at(s: Seq<u8>, c: int, k: int) -> bool {
    &&& 0 <= c
    &&& c + k + 2 <= s.len()
    &&& s[c] == 93
    &&& forall|j: int| 1 <= j <= k ==> #[trigger] s[c + j] == 61
    &&& s[c + k + 1] == 93
}

/// The first place at or after `from` where a closing long bracket of
/// level `k` starts.
pub open spec fn first_close(s: Seq<u8>, from: int, k: int) -> Option<int>
    decreases s.len() - from,
{
    if from < 0 || k < 0 || from + k + 2 > s.len() {
        None
    } else if closes_at(s, from, k) {
        Some(from)
    } else {
        first_close(s, from + 1, k)
    }
}

/// How many bytes of `s` come before its first newline.
pub open spec fn line_len(s: Seq<u8>) -> nat
    decreases s.len(),
{
    if s.len() == 0 || is_newline_byte(s[0]) {
        0
    } else {
        1 + line_len(s.skip(1))
    }
}

pub proof fn lemma_line_len_bound(s: Seq<u8>)
    ensures
        line_len(s) <= s.len(),
    decreases s.len(),
{
    if s.len() > 0 && !is_newline_byte(s[0]) {
        lemma_line_len_bound(s.skip(1));
    }
}

pub proof fn lemma_first_close_bound(s: Seq<u8>, from: int, k: int)
    ensures
        first_close(s, from, k) matches Some(c) ==> from <= c && c + k + 2 <= s.len(),
    decreases s.len() - from,
{
    if from < 0 || k < 0 || from + k + 2 > s.len() {
    } else if closes_at(s, from, k) {
    } else {
        lemma_first_close_bound(s, from + 1, k);
    }
}

/// `s` is nothing but white space and comments: a comment is `--` and the
/// rest of its line, or `--` and a long bracket up to the first closing
/// bracket of the same level.
pub open spec fn gap_ok(s: Seq<u8>) -> bool
    decreases s.len(),
{
    if s.len() == 0 {
        true
    } else if is_space_byte(s[0]) {
        gap_ok(s.skip(1))
    } else if s.len() >= 2 && s[0] == 45 && s[1] == 45 {
        match long_open_level(s.skip(2)) {
            Some(k) => {
                proof {
                    lemma_first_close_bound(s, k + 4, k);
                }
                match first_close(s, k + 4, k) {
                    Some(c) => gap_ok(s.skip(c + k + 2)),
                    None => false,
                }
            },
            None => {
                proof {
                    lemma_line_len_bound(s.skip(2));
                }
                gap_ok(s.skip(2 + line_len(s.skip(2)) as int))
            },
        }
    } else {
        false
    }
}

/// A space byte begins the rest of a gap.
pub proof fn lemma_gap_space(input: Seq<u8>, o: int, e: int)
    requires
        0 <= o < e <= input.len(),
        is_space_byte(input[o]),
    ensures
        gap_ok(input.subrange(o, e)) == gap_ok(input.subrange(o + 1, e)),
{
    let s = input.subrange(o, e);
    assert(s[0] == input[o]);
    assert(s.skip(1) =~= input.subrange(o + 1, e));
}

/// Nothing is left of an empty range.
pub proof fn lemma_gap_empty(input: Seq<u8>, e: int)
    requires
        0 <= e <= input.len(),
    ensures
        gap_ok(input.subrange(e, e)),
{
    assert(input.subrange(e, e).len() == 0);
}

/// The rest of a line after `--` that opens no long bracket.
pub proof fn lemma_gap_short_comment(input: Seq<u8>, o: int, end: int, e: int)
    requires
        0 <= o,
        o + 2 <= end <= e <= input.len(),
        input[o] == 45,
        input[o + 1] == 45,
        !(o + 2 < input.len() && input[o + 2] == 91 && o + 3 < input.len() && (input[o + 3] == 61 || input[o + 3] == 91)),
        forall|j: int| o + 2 <= j < end ==> !#[trigger] is_newline_byte(input[j]),
        end < e ==> is_newline_byte(input[end]),
    ensures
        gap_ok(input.subrange(o, e)) == gap_ok(input.subrange(end, e)),
{
    let s = input.subrange(o, e);
    assert(s[0] == input[o] && s[1] == input[o + 1]);
    let t = s.skip(2);
    assert(t =~= input.subrange(o + 2, e));
    if t.len() > 0 && t[0] == 91 {
        assert(t[0] == input[o + 2]);
        if t.len() > 1 {
            assert(t[1] == input[o + 3]);
            assert(t.skip(1)[0] == t[1]);
        }
        assert(eq_run(t.skip(1)) == 0);
    }
    assert(long_open_level(t) is None);
    lemma_line_run(input, o + 2, end, e);
    assert(s.skip(2 + line_len(t) as int) =~= input.subrange(end, e));
}

/// A run of bytes without a newline, up to `end`, where one stands.
pub proof fn lemma_line_run(input: Seq<u8>, a: int, end: int, e: int)
    requires
        0 <= a <= end <= e <= input.len(),
        forall|j: int| a <= j < end ==> !#[trigger] is_newline_byte(input[j]),
        end < e ==> is_newline_byte(input[end]),
    ensures
        line_len(input.subrange(a, e)) == end - a,
    decreases end - a,
{
    let s = input.subrange(a, e);
    if a == end {
        if s.len() > 0 {
            assert(s[0] == input[end]);
        }
    } else {
        assert(s[0] == input[a]);
        assert(!is_newline_byte(input[a]));
        assert(s.skip(1) =~= input.subrange(a + 1, e));
        lemma_line_run(input, a + 1, end, e);
    }
}

/// A run of `k` signs `=` from `a`, followed by another byte.
pub proof fn lemma_eq_run(input: Seq<u8>, a: int, k: int, e: int)
    requires
        0 <= a,
        0 <= k,
        a + k < e <= input.len(),
        forall|j: int| a <= j < a + k ==> #[trigger] input[j] == 61,
        input[a + k] != 61,
    ensures
        eq_run(input.subrange(a, e)) == k,
    decreases k,
{
    let s = input.subrange(a, e);
    assert(s[0] == input[a]);
    if k > 0 {
        assert(input[a] == 61);
        assert(s.skip(1) =~= input.subrange(a + 1, e));
        lemma_eq_run(input, a + 1, k - 1, e);
    }
}

/// The first closing bracket is found where the search reaches it.
pub proof fn lemma_first_close_at(s: Seq<u8>, from: int, c: int, k: int)
    requires
        0 <= from <= c,
        0 <= k,
        closes_at(s, c, k),
        forall|d: int| from <= d < c ==> !#[trigger] closes_at(s, d, k),
    ensures
        first_close(s, from, k) == Some(c),
    decreases c - from,
{
    if from < c {
        assert(!closes_at(s, from, k));
        lemma_first_close_at(s, from + 1, c, k);
    }
}

/// `--` and a long bracket of level `k` that first closes at `c`.
pub proof fn lemma_gap_long_comment(input: Seq<u8>, o: int, k: int, c: int, e: int)
    requires
        0 <= o,
        0 <= k,
        o + k + 6 <= c + k + 2 <= e <= input.len(),
        input[o] == 45,
        input[o + 1] == 45,
        input[o + 2] == 91,
        forall|j: int| 1 <= j <= k ==> #[trigger] input[o + 2 + j] == 61,
        input[o + k + 3] == 91,
        closes_at(input, c, k),
        forall|d: int| o + k + 4 <= d < c ==> !#[trigger] closes_at(input, d, k),
    ensures
        gap_ok(input.subrange(o, e)) == gap_ok(input.subrange(c + k + 2, e)),
{
    let s = input.subrange(o, e);
    assert(s[0] == input[o] && s[1] == input[o + 1]);
    let t = s.skip(2);
    assert(t =~= input.subrange(o + 2, e));
    assert(t[0] == input[o + 2]);
    assert forall|j: int| o + 3 <= j < o + 3 + k implies #[trigger] input[j] == 61 by {
        assert(input[o + 2 + (j - o - 2)] == 61);
    }
    lemma_eq_run(input, o + 3, k, e);
    assert(t.skip(1) =~= input.subrange(o + 3, e));
    assert(t[k + 1] == input[o + k + 3]);
    assert(long_open_level(t) == Some(k));
    assert(closes_at(s, c - o, k)) by {
        assert forall|j: int| 1 <= j <= k implies #[trigger] s[c - o + j] == 61 by {
            assert(s[c - o + j] == input[c + j]);
        }
        assert(s[c - o] == input[c]);
        assert(s[c - o + k + 1] == input[c + k + 1]);
    }
    assert forall|d: int| k + 4 <= d < c - o implies !#[trigger] closes_at(s, d, k) by {
        if closes_at(s, d, k) {
            assert forall|j: int| 1 <= j <= k implies #[trigger] input[o + d + j] == 61 by {
                assert(s[d + j] == input[o + d + j]);
            }
            assert(s[d] == input[o + d]);
            assert(s[d + k + 1] == input[o + d + k + 1]);
            assert(closes_at(input, o + d, k));
        }
    }
    lemma_first_close_at(s, k + 4, c - o, k);
    assert(s.skip(c - o + k + 2) =~= input.subrange(c + k + 2, e));
}

} // verus!
