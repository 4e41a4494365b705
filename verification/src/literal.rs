//! What the bytes of a string literal stand for: the escapes of a quoted
//! string and the newline rule of a long bracket.

use vstd::prelude::*;

use crate::cursor::step_len;
use crate::lexer::{decimal_value, hex_digit_value, is_digit_byte, is_space_byte};

verus! {

pub open spec fn is_newline_byte(b: u8) -> bool {
    b == 10 || b == 13
}

/// The length of the newline at the start of `s`: a `\n\r` or `\r\n` pair
/// is one newline.
pub open spec fn newline_len(s: Seq<u8>) -> int {
    if s.len() >= 2 && ((s[0] == 10 && s[1] == 13) || (s[0] == 13 && s[1] == 10)) {
        2
    } else {
        1
    }
}

/// The contents of a long bracket: every byte as it is, every newline as
/// `\n`.
pub open spec fn long_content(s: Seq<u8>) -> Seq<u8>
    decreases s.len(),
{
    if s.len() == 0 {
        Seq::empty()
    } else if is_newline_byte(s[0]) {
        seq![10u8] + long_content(s.skip(newline_len(s)))
    } else {
        seq![s[0]] + long_content(s.skip(1))
    }
}

/// The string a long bracket holds: its contents, less a newline that
/// directly follows the opening bracket.
pub open spec fn long_literal(body: Seq<u8>) -> Seq<u8> {
    if body.len() > 0 && is_newline_byte(body[0]) {
        long_content(body.skip(newline_len(body)))
    } else {
        long_content(body)
    }
}

/// `text` is a long bracket of level `k`: `[`, `k` signs `=`, `[`, the
/// contents, `]`, `k` signs `=`, `]`.
pub open spec fn long_bracketed(text: Seq<u8>, k: int) -> bool {
    &&& k >= 0
    &&& text.len() >= 2 * k + 4
    &&& text[0] == 91
    &&& forall|j: int| 1 <= j <= k ==> #[trigger] text[j] == 61
    &&& text[k + 1] == 91
    &&& text[text.len() - k - 2] == 93
    &&& forall|j: int| 1 <= j <= k ==> #[trigger] text[text.len() - 1 - j] == 61
    &&& text[text.len() - 1] == 93
}

/// The byte a one-letter escape stands for.
pub open spec fn simple_escape(c: u8) -> Option<u8> {
    if c == 97 {
        Some(7u8)
    } else if c == 98 {
        Some(8u8)
    } else if c == 102 {
        Some(12u8)
    } else if c == 110 {
        Some(10u8)
    } else if c == 114 {
        Some(13u8)
    } else if c == 116 {
        Some(9u8)
    } else if c == 118 {
        Some(11u8)
    } else if c == 92 || c == 39 || c == 34 {
        Some(c)
    } else {
        None
    }
}

/// How many bytes of white space `s` starts with.
pub open spec fn space_run(s: Seq<u8>) -> nat
    decreases s.len(),
{
    if s.len() > 0 && is_space_byte(s[0]) {
        1 + space_run(s.skip(1))
    } else {
        0
    }
}

pub proof fn lemma_space_run_bound(s: Seq<u8>)
    ensures
        space_run(s) <= s.len(),
    decreases s.len(),
{
    if s.len() > 0 && is_space_byte(s[0]) {
        lemma_space_run_bound(s.skip(1));
    }
}

/// How many decimal digits, at most three, `s` starts with.
pub open spec fn digit_run(s: Seq<u8>) -> int {
    if s.len() >= 1 && is_digit_byte(s[0]) {
        if s.len() >= 2 && is_digit_byte(s[1]) {
            if s.len() >= 3 && is_digit_byte(s[2]) {
                3
            } else {
                2
            }
        } else {
            1
        }
    } else {
        0
    }
}

/// The string the body of a quoted literal stands for: plain bytes as they
/// are; `\a \b \f \n \r \t \v \\ \' \"` as their bytes; `\xXY` as the byte
/// of two hexadecimal digits; `\z` as nothing, together with the white
/// space after it; one to three decimal digits as the byte of that value;
/// and an escaped newline as `\n`.
pub open spec fn short_body(s: Seq<u8>) -> Seq<u8>
    decreases s.len(),
{
    if s.len() == 0 {
        Seq::empty()
    } else if s[0] != 92 {
        seq![s[0]] + short_body(s.skip(1))
    } else if s.len() < 2 {
        Seq::empty()
    } else if simple_escape(s[1]) is Some {
        seq![simple_escape(s[1])->0] + short_body(s.skip(2))
    } else if s[1] == 120 {
        if s.len() >= 4 {
            seq![(hex_digit_value(s[2]) * 16 + hex_digit_value(s[3])) as u8] + short_body(s.skip(4))
        } else {
            Seq::empty()
        }
    } else if s[1] == 122 {
        proof {
            lemma_space_run_bound(s.skip(2));
        }
        short_body(s.skip(2 + space_run(s.skip(2)) as int))
    } else if is_digit_byte(s[1]) {
        seq![decimal_value(s.subrange(1, 1 + digit_run(s.skip(1)))) as u8] + short_body(s.skip(1 + digit_run(s.skip(1))))
    } else if is_newline_byte(s[1]) {
        seq![10u8] + short_body(s.skip(1 + newline_len(s.skip(1))))
    } else {
        Seq::empty()
    }
}

/// What the text of a string token stands for: a quoted body with its
/// escapes, or the contents of a long bracket.
pub open spec fn string_literal_value(text: Seq<u8>, v: Seq<u8>) -> bool {
    ||| {
        &&& text.len() >= 2
        &&& (text[0] == 34 || text[0] == 39)
        &&& text[text.len() - 1] == text[0]
        &&& v == short_body(text.subrange(1, text.len() - 1))
    }
    ||| exists|k: int| #[trigger] long_bracketed(text, k) && v == long_literal(text.subrange(k + 2, text.len() - k - 2))
}

/// One step over the contents of a long bracket.
pub proof fn lemma_long_step(input: Seq<u8>, o: int, e: int)
    requires
        0 <= o < e <= input.len(),
        o + step_len(input, o) <= e,
    ensures
        long_content(input.subrange(o, e)) == seq![if is_newline_byte(input[o]) { 10u8 } else { input[o] }]
            + long_content(input.subrange(o + step_len(input, o), e)),
{
    let s = input.subrange(o, e);
    assert(s[0] == input[o]);
    if is_newline_byte(input[o]) {
        if s.len() >= 2 {
            assert(s[1] == input[o + 1]);
        }
        assert(newline_len(s) == step_len(input, o));
    }
    assert(s.skip(step_len(input, o)) =~= input.subrange(o + step_len(input, o), e));
}

/// Nothing is left of an empty range.
pub proof fn lemma_empty_range(input: Seq<u8>, e: int)
    requires
        0 <= e <= input.len(),
    ensures
        long_content(input.subrange(e, e)) == Seq::<u8>::empty(),
        short_body(input.subrange(e, e)) == Seq::<u8>::empty(),
{
    assert(input.subrange(e, e).len() == 0);
}

/// A plain byte of a quoted body.
pub proof fn lemma_short_plain(input: Seq<u8>, o: int, e: int)
    requires
        0 <= o < e <= input.len(),
        input[o] != 92,
    ensures
        short_body(input.subrange(o, e)) == seq![input[o]] + short_body(input.subrange(o + 1, e)),
{
    let s = input.subrange(o, e);
    assert(s[0] == input[o]);
    assert(s.skip(1) =~= input.subrange(o + 1, e));
}

/// A one-letter escape.
pub proof fn lemma_short_simple(input: Seq<u8>, o: int, e: int)
    requires
        0 <= o,
        o + 2 <= e <= input.len(),
        input[o] == 92,
        simple_escape(input[o + 1]) is Some,
    ensures
        short_body(input.subrange(o, e)) == seq![simple_escape(input[o + 1])->0] + short_body(input.subrange(o + 2, e)),
{
    let s = input.subrange(o, e);
    assert(s[0] == input[o] && s[1] == input[o + 1]);
    assert(s.skip(2) =~= input.subrange(o + 2, e));
}

/// A hexadecimal escape.
pub proof fn lemma_short_hex(input: Seq<u8>, o: int, e: int)
    requires
        0 <= o,
        o + 4 <= e <= input.len(),
        input[o] == 92,
        input[o + 1] == 120,
    ensures
        short_body(input.subrange(o, e)) == seq![(hex_digit_value(input[o + 2]) * 16 + hex_digit_value(input[o + 3])) as u8]
            + short_body(input.subrange(o + 4, e)),
{
    let s = input.subrange(o, e);
    assert(s[0] == input[o] && s[1] == input[o + 1] && s[2] == input[o + 2] && s[3] == input[o + 3]);
    assert(s.skip(4) =~= input.subrange(o + 4, e));
}

/// White space that runs from `a` up to `b`, where it stops.
pub proof fn lemma_space_run_exact(input: Seq<u8>, a: int, b: int, e: int)
    requires
        0 <= a <= b <= e <= input.len(),
        forall|j: int| a <= j < b ==> #[trigger] is_space_byte(input[j]),
        b < e ==> !is_space_byte(input[b]),
    ensures
        space_run(input.subrange(a, e)) == b - a,
    decreases b - a,
{
    let s = input.subrange(a, e);
    if a == b {
        if s.len() > 0 {
            assert(s[0] == input[b]);
        }
    } else {
        assert(s[0] == input[a]);
        assert(is_space_byte(input[a]));
        assert(s.skip(1) =~= input.subrange(a + 1, e));
        lemma_space_run_exact(input, a + 1, b, e);
    }
}

/// A `\z` escape and the white space after it, up to `b`.
pub proof fn lemma_short_skip(input: Seq<u8>, o: int, b: int, e: int)
    requires
        0 <= o,
        o + 2 <= b <= e <= input.len(),
        input[o] == 92,
        input[o + 1] == 122,
        forall|j: int| o + 2 <= j < b ==> #[trigger] is_space_byte(input[j]),
        b < e ==> !is_space_byte(input[b]),
    ensures
        short_body(input.subrange(o, e)) == short_body(input.subrange(b, e)),
{
    let s = input.subrange(o, e);
    assert(s[0] == input[o] && s[1] == input[o + 1]);
    assert(s.skip(2) =~= input.subrange(o + 2, e));
    lemma_space_run_exact(input, o + 2, b, e);
    assert(s.skip(2 + space_run(s.skip(2)) as int) =~= input.subrange(b, e));
}

/// A decimal escape of `n` digits.
pub proof fn lemma_short_decimal(input: Seq<u8>, o: int, n: int, e: int)
    requires
        0 <= o,
        1 <= n <= 3,
        o + 1 + n <= e <= input.len(),
        input[o] == 92,
        forall|j: int| o + 1 <= j < o + 1 + n ==> #[trigger] is_digit_byte(input[j]),
        n < 3 && o + 1 + n < e ==> !is_digit_byte(input[o + 1 + n]),
    ensures
        short_body(input.subrange(o, e)) == seq![decimal_value(input.subrange(o + 1, o + 1 + n)) as u8]
            + short_body(input.subrange(o + 1 + n, e)),
{
    let s = input.subrange(o, e);
    assert(s[0] == input[o] && s[1] == input[o + 1]);
    assert(is_digit_byte(input[o + 1]));
    assert(simple_escape(s[1]) is None);
    let t = s.skip(1);
    assert(t[0] == input[o + 1]);
    if n >= 2 {
        assert(t[1] == input[o + 2]);
        assert(is_digit_byte(input[o + 2]));
    } else if t.len() >= 2 {
        assert(t[1] == input[o + 2]);
    }
    if n >= 3 {
        assert(t[2] == input[o + 3]);
        assert(is_digit_byte(input[o + 3]));
    } else if n == 2 && t.len() >= 3 {
        assert(t[2] == input[o + 3]);
    }
    assert(digit_run(t) == n);
    assert(s.subrange(1, 1 + n) =~= input.subrange(o + 1, o + 1 + n));
    assert(s.skip(1 + n) =~= input.subrange(o + 1 + n, e));
}

/// An escaped newline.
pub proof fn lemma_short_newline(input: Seq<u8>, o: int, e: int)
    requires
        0 <= o,
        o + 2 <= e <= input.len(),
        input[o] == 92,
        is_newline_byte(input[o + 1]),
        o + 1 + step_len(input, o + 1) <= e,
    ensures
        short_body(input.subrange(o, e)) == seq![10u8] + short_body(input.subrange(o + 1 + step_len(input, o + 1), e)),
{
    let s = input.subrange(o, e);
    assert(s[0] == input[o] && s[1] == input[o + 1]);
    assert(simple_escape(s[1]) is None);
    let t = s.skip(1);
    assert(t[0] == input[o + 1]);
    if t.len() >= 2 {
        assert(t[1] == input[o + 2]);
    }
    assert(newline_len(t) == step_len(input, o + 1));
    assert(s.skip(1 + newline_len(t)) =~= input.subrange(o + 1 + step_len(input, o + 1), e));
}

} // verus!
