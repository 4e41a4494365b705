//! The scanners of each kind of lexical element.
//!
//! Every scanner consumes at least one byte when it succeeds, and adds at
//! most one token, which matches the bytes it consumed.

use vstd::prelude::*;

use crate::cursor::{Cursor, step_len};
use crate::trivia::{closes_at, gap_ok, lemma_gap_long_comment, lemma_gap_short_comment, lemma_gap_space, lemma_gap_empty};
use crate::literal::{
    is_newline_byte, lemma_empty_range, lemma_long_step, lemma_short_decimal, lemma_short_hex,
    lemma_short_newline, lemma_short_plain, lemma_short_simple, lemma_short_skip, long_bracketed,
    long_content, long_literal, newline_len, short_body, simple_escape,
};
use crate::lexer::{
    CompileLimits, Diagnostic, DiagnosticCode, LanguageProfile, Literal, SourcePosition, Span,
    Symbol, Token, TokenKind, all_digits, all_hex_digits, decimal_value, hex_digit_value,
    digit_of, hex_value, integer_numeral_value, numeral_shape, numeral_text, is_digit_byte, is_hex_digit_byte, is_hex_prefix,
    is_name_continue_byte, is_name_start_byte, is_name_text, is_space_byte, keyword_of,
    symbol_text, token_gap_start, token_matches,
};

verus! {

/// `new` is `old` with at most one more token, which matches the input, is
/// not the end of input, and spans from `lo` to `hi`.
pub open spec fn extends_by_token(
    old: Seq<Token>,
    new: Seq<Token>,
    input: Seq<u8>,
    profile: LanguageProfile,
    lo: int,
    hi: int,
) -> bool {
    &&& new.len() == old.len() || new.len() == old.len() + 1
    &&& forall|i: int| 0 <= i < old.len() ==> new[i] == old[i]
    &&& new.len() == old.len() + 1 ==> {
        &&& token_matches(input, profile, new[old.len() as int])
        &&& !(new[old.len() as int].kind is Eof)
        &&& new[old.len() as int].span.start_byte == lo
        &&& new[old.len() as int].span.end_byte == hi
    }
}

pub fn is_space(b: u8) -> (r: bool)
    ensures
        r == is_space_byte(b),
{
    b == 32u8 || b == 9u8 || b == 11u8 || b == 12u8 || b == 10u8 || b == 13u8
}

pub fn is_digit(b: u8) -> (r: bool)
    ensures
        r == is_digit_byte(b),
{
    48u8 <= b && b <= 57u8
}

pub fn is_hex_digit(b: u8) -> (r: bool)
    ensures
        r == is_hex_digit_byte(b),
{
    (48u8 <= b && b <= 57u8) || (97u8 <= b && b <= 102u8) || (65u8 <= b && b <= 70u8)
}

pub fn is_name_start(b: u8) -> (r: bool)
    ensures
        r == is_name_start_byte(b),
{
    (65u8 <= b && b <= 90u8) || (97u8 <= b && b <= 122u8) || b == 95u8
}

pub fn is_name_continue(b: u8) -> (r: bool)
    ensures
        r == is_name_continue_byte(b),
{
    is_name_start(b) || is_digit(b)
}

pub fn hex_digit(b: u8) -> (r: Option<u8>)
    ensures
        r matches Some(v) ==> is_hex_digit_byte(b) && v == hex_digit_value(b) && v < 16,
        r is None ==> !is_hex_digit_byte(b),
{
    if 48u8 <= b && b <= 57u8 {
        Some(b - 48)
    } else if 97u8 <= b && b <= 102u8 {
        Some(b - 87)
    } else if 65u8 <= b && b <= 70u8 {
        Some(b - 55)
    } else {
        None
    }
}

/// A diagnostic from `start` to where the cursor stands.
pub fn diagnostic_at(code: DiagnosticCode, start_byte: usize, start: SourcePosition, cursor: &Cursor, message: &'static str) -> (d: Diagnostic)
    ensures
        d.code == code,
        d.span.start_byte == start_byte,
        d.span.end_byte == cursor.offset,
        d.start == start,
        d.end.line == cursor.line && d.end.column == cursor.column,
{
    Diagnostic { code, span: Span { start_byte, end_byte: cursor.offset() }, start, end: cursor.position(), message }
}

pub fn lex_error(cursor: &Cursor, start_byte: usize, start: SourcePosition, message: &'static str) -> (d: Diagnostic)
    ensures
        d.code == DiagnosticCode::Lex,
        d.span.start_byte == start_byte,
        d.span.end_byte == cursor.offset,
{
    diagnostic_at(DiagnosticCode::Lex, start_byte, start, cursor, message)
}

/// Steps the cursor; the element that started at `start_byte` must stay
/// within the token byte limit.
pub fn advance(cursor: &mut Cursor, limits: &CompileLimits, start_byte: usize, start: SourcePosition) -> (r: Result<(), Diagnostic>)
    requires
        old(cursor).wf(),
    ensures
        final(cursor).wf(),
        final(cursor).input == old(cursor).input,
        final(cursor).profile == old(cursor).profile,
        final(cursor).offset == old(cursor).offset + step_len(old(cursor).input@, old(cursor).offset as int),
        r matches Err(d) ==> lex_diagnostic(d),
{
    let stepped = cursor.advance(limits);
    match stepped {
        Ok(()) => {},
        Err(message) => {
            return Err(diagnostic_at(DiagnosticCode::CompileLimit, start_byte, start, cursor, message));
        },
    }
    if cursor.offset() > start_byte && cursor.offset() - start_byte > limits.max_token_bytes {
        return Err(diagnostic_at(DiagnosticCode::CompileLimit, start_byte, start, cursor, "token 超過編譯限制"));
    }
    Ok(())
}

/// Appends one byte to a literal under the token byte limit.
pub fn push_literal_byte(
    bytes: &mut Vec<u8>,
    byte: u8,
    limits: &CompileLimits,
    cursor: &Cursor,
    start_byte: usize,
    start: SourcePosition,
) -> (r: Result<(), Diagnostic>)
    ensures
        r is Ok ==> final(bytes)@ == old(bytes)@.push(byte),
        r is Err ==> final(bytes)@ == old(bytes)@,
        r matches Err(d) ==> lex_diagnostic(d),
{
    if bytes.len() >= limits.max_token_bytes {
        return Err(diagnostic_at(DiagnosticCode::CompileLimit, start_byte, start, cursor, "literal 超過編譯限制"));
    }
    bytes.push(byte);
    Ok(())
}

/// Appends the byte under the cursor and steps over it; the byte is not a
/// newline.
pub fn consume_byte(
    bytes: &mut Vec<u8>,
    cursor: &mut Cursor,
    limits: &CompileLimits,
    start_byte: usize,
    start: SourcePosition,
) -> (r: Result<(), Diagnostic>)
    requires
        old(cursor).wf(),
        old(cursor).offset < old(cursor).input@.len(),
        old(cursor).input@[old(cursor).offset as int] != 10,
        old(cursor).input@[old(cursor).offset as int] != 13,
    ensures
        final(cursor).wf(),
        final(cursor).input == old(cursor).input,
        final(cursor).profile == old(cursor).profile,
        final(cursor).offset == old(cursor).offset || final(cursor).offset == old(cursor).offset + 1,
        r is Ok ==> final(cursor).offset == old(cursor).offset + 1 && final(bytes)@ == old(bytes)@.push(old(cursor).input@[old(cursor).offset as int]),
        r matches Err(d) ==> lex_diagnostic(d),
{
    let byte = cursor.input[cursor.offset];
    push_literal_byte(bytes, byte, limits, cursor, start_byte, start)?;
    advance(cursor, limits, start_byte, start)
}

/// Adds a token, unless the token limit is reached.
pub fn push_token(tokens: &mut Vec<Token>, token: Token, limits: &CompileLimits, cursor: &Cursor) -> (r: Result<(), Diagnostic>)
    ensures
        r is Ok <==> old(tokens)@.len() < limits.max_tokens,
        r is Ok ==> final(tokens)@ == old(tokens)@.push(token),
        r is Err ==> final(tokens)@ == old(tokens)@ && r->Err_0.code == DiagnosticCode::CompileLimit,
        r matches Err(d) ==> lex_diagnostic(d),
{
    if tokens.len() >= limits.max_tokens {
        return Err(diagnostic_at(DiagnosticCode::CompileLimit, token.span.start_byte, token.start, cursor, "token 數超過編譯限制"));
    }
    tokens.push(token);
    Ok(())
}

/// A lexer error: a lexical error or a limit.
pub open spec fn lex_diagnostic(d: Diagnostic) -> bool {
    d.code == DiagnosticCode::Lex || d.code == DiagnosticCode::CompileLimit
}

/// No token spans more than `max` bytes.
pub open spec fn tokens_bounded(tokens: Seq<Token>, max: usize) -> bool {
    forall|i: int| 0 <= i < tokens.len() ==> (#[trigger] tokens[i]).span.end_byte - tokens[i].span.start_byte <= max
}

/// Adds the token that spans from `start_byte` to the cursor, within the
/// token byte limit.
pub fn emit(
    tokens: &mut Vec<Token>,
    cursor: &Cursor,
    limits: &CompileLimits,
    start_byte: usize,
    start: SourcePosition,
    kind: TokenKind,
    literal: Option<Literal>,
) -> (r: Result<(), Diagnostic>)
    requires
        cursor.wf(),
        start_byte <= cursor.offset,
        token_matches(cursor.input@, cursor.profile, Token { kind, span: Span { start_byte, end_byte: cursor.offset }, start, end: SourcePosition { line: cursor.line, column: cursor.column }, literal }),
        !(kind is Eof),
    ensures
        extends_by_token(old(tokens)@, final(tokens)@, cursor.input@, cursor.profile, start_byte as int, cursor.offset as int),
        r is Ok ==> final(tokens)@.len() == old(tokens)@.len() + 1,
        final(tokens)@.len() <= old(tokens)@.len() + 1,
        r is Ok ==> final(tokens)@.len() <= limits.max_tokens,
        tokens_bounded(old(tokens)@, limits.max_token_bytes) ==> tokens_bounded(final(tokens)@, limits.max_token_bytes),
        r matches Err(d) ==> lex_diagnostic(d),
{
    if cursor.offset() - start_byte > limits.max_token_bytes {
        return Err(diagnostic_at(DiagnosticCode::CompileLimit, start_byte, start, cursor, "token 超過編譯限制"));
    }
    let token = Token { kind, span: Span { start_byte, end_byte: cursor.offset() }, start, end: cursor.position(), literal };
    push_token(tokens, token, limits, cursor)
}

/// The common promise of every scanner: the cursor stays on the same input,
/// it moves forward, and the tokens grow by at most one matching token.
pub open spec fn scanned(
    old_cursor: Cursor,
    new_cursor: Cursor,
    old_tokens: Seq<Token>,
    new_tokens: Seq<Token>,
) -> bool {
    &&& new_cursor.wf()
    &&& new_cursor.input == old_cursor.input
    &&& new_cursor.profile == old_cursor.profile
    &&& new_cursor.offset >= old_cursor.offset
    &&& extends_by_token(old_tokens, new_tokens, old_cursor.input@, old_cursor.profile, old_cursor.offset as int, new_cursor.offset as int)
}

/// A name or a keyword.
pub fn scan_name(cursor: &mut Cursor, limits: &CompileLimits, tokens: &mut Vec<Token>) -> (r: Result<(), Diagnostic>)
    requires
        old(cursor).wf(),
        old(cursor).at(0) matches Some(b) && is_name_start_byte(b),
    ensures
        scanned(*old(cursor), *final(cursor), old(tokens)@, final(tokens)@),
        tokens_bounded(old(tokens)@, limits.max_token_bytes) ==> tokens_bounded(final(tokens)@, limits.max_token_bytes),
        r is Ok ==> final(cursor).offset > old(cursor).offset && final(tokens)@.len() <= limits.max_tokens
            && final(tokens)@.len() == old(tokens)@.len() + 1,
        r matches Err(d) ==> lex_diagnostic(d),
{
    let start = cursor.position();
    let start_byte = cursor.offset();
    let ghost input = cursor.input@;
    let mut bytes: Vec<u8> = Vec::new();
    loop
        invariant
            cursor.wf(),
            cursor.input@ == input,
            cursor.input == old(cursor).input,
            cursor.profile == old(cursor).profile,
            start_byte == old(cursor).offset,
            start_byte <= cursor.offset,
            start_byte < input.len(),
            is_name_start_byte(input[start_byte as int]),
            bytes@ == input.subrange(start_byte as int, cursor.offset as int),
            forall|i: int| 0 <= i < bytes@.len() ==> is_name_continue_byte(#[trigger] bytes@[i]),
            tokens@ == old(tokens)@,
        ensures
            bytes@.len() > 0,
            crate::lexer::ends_word(input, cursor.offset as int),
        decreases input.len() - cursor.offset,
    {
        let next = cursor.peek();
        let continues = match next {
            Some(b) => is_name_continue(b),
            None => false,
        };
        if !continues {
            assert(cursor.offset != start_byte);
            break;
        }
        let ghost before = bytes@;
        consume_byte(&mut bytes, cursor, limits, start_byte, start)?;
        assert(bytes@ =~= input.subrange(start_byte as int, cursor.offset as int));
    }
    assert(bytes@[0] == input[start_byte as int]);
    assert(is_name_text(bytes@));
    let found = crate::lexer::keyword(&bytes, cursor.profile());
    match found {
        Some(k) => emit(tokens, cursor, limits, start_byte, start, TokenKind::Keyword(k), None),
        None => emit(tokens, cursor, limits, start_byte, start, TokenKind::Name, Some(Literal::Name(bytes))),
    }
}

/// Every symbol is one to three bytes long, and those of two or three
/// bytes are these.
proof fn lemma_symbol_shapes(s: Symbol)
    ensures
        1 <= symbol_text(s).len() <= 3,
        symbol_text(s).len() >= 2 ==> {
            ||| symbol_text(s) == seq![47u8, 47u8]
            ||| symbol_text(s) == seq![60u8, 60u8]
            ||| symbol_text(s) == seq![62u8, 62u8]
            ||| symbol_text(s) == seq![61u8, 61u8]
            ||| symbol_text(s) == seq![126u8, 61u8]
            ||| symbol_text(s) == seq![60u8, 61u8]
            ||| symbol_text(s) == seq![62u8, 61u8]
            ||| symbol_text(s) == seq![58u8, 58u8]
            ||| symbol_text(s) == seq![46u8, 46u8]
            ||| symbol_text(s) == seq![46u8, 46u8, 46u8]
        },
{
}

/// The symbol that starts at the cursor and its length in bytes.
pub fn symbol_at(cursor: &Cursor) -> (r: Option<(Symbol, usize)>)
    requires
        cursor.wf(),
    ensures
        r matches Some((sym, n)) ==> n == symbol_text(sym).len() && n >= 1 && forall|k: int| 0 <= k < n ==> cursor.at(k) == Some(#[trigger] symbol_text(sym)[k]),
        r matches Some((sym, n)) ==> (cursor.at(n as int) matches Some(b) ==> forall|s2: Symbol| #[trigger] symbol_text(s2) != symbol_text(sym).push(b)),
{
    let first = match cursor.peek() {
        Some(b) => b,
        None => {
            return None;
        },
    };
    let second = cursor.peek_n(1);
    let third = cursor.peek_n(2);
    let r = if first == 47u8 {
        if second == Some(47u8) { Some((Symbol::FloorSlash, 2)) } else { Some((Symbol::Slash, 1)) }
    } else if first == 126u8 {
        if second == Some(61u8) { Some((Symbol::NotEqual, 2)) } else { Some((Symbol::Tilde, 1)) }
    } else if first == 60u8 {
        if second == Some(61u8) { Some((Symbol::LessEqual, 2)) } else if second == Some(60u8) { Some((Symbol::ShiftLeft, 2)) } else { Some((Symbol::Less, 1)) }
    } else if first == 62u8 {
        if second == Some(61u8) { Some((Symbol::GreaterEqual, 2)) } else if second == Some(62u8) { Some((Symbol::ShiftRight, 2)) } else { Some((Symbol::Greater, 1)) }
    } else if first == 61u8 {
        if second == Some(61u8) { Some((Symbol::EqualEqual, 2)) } else { Some((Symbol::Assign, 1)) }
    } else if first == 58u8 {
        if second == Some(58u8) { Some((Symbol::DoubleColon, 2)) } else { Some((Symbol::Colon, 1)) }
    } else if first == 46u8 {
        if second == Some(46u8) && third == Some(46u8) { Some((Symbol::Vararg, 3)) } else if second == Some(46u8) { Some((Symbol::Concat, 2)) } else { Some((Symbol::Dot, 1)) }
    } else if first == 43u8 {
        Some((Symbol::Plus, 1))
    } else if first == 45u8 {
        Some((Symbol::Minus, 1))
    } else if first == 42u8 {
        Some((Symbol::Star, 1))
    } else if first == 37u8 {
        Some((Symbol::Percent, 1))
    } else if first == 94u8 {
        Some((Symbol::Caret, 1))
    } else if first == 35u8 {
        Some((Symbol::Hash, 1))
    } else if first == 38u8 {
        Some((Symbol::Ampersand, 1))
    } else if first == 124u8 {
        Some((Symbol::Pipe, 1))
    } else if first == 40u8 {
        Some((Symbol::OpenParen, 1))
    } else if first == 41u8 {
        Some((Symbol::CloseParen, 1))
    } else if first == 123u8 {
        Some((Symbol::OpenBrace, 1))
    } else if first == 125u8 {
        Some((Symbol::CloseBrace, 1))
    } else if first == 91u8 {
        Some((Symbol::OpenBracket, 1))
    } else if first == 93u8 {
        Some((Symbol::CloseBracket, 1))
    } else if first == 59u8 {
        Some((Symbol::Semicolon, 1))
    } else if first == 44u8 {
        Some((Symbol::Comma, 1))
    } else {
        None
    };
    proof {
        if let Some((sym, n)) = r {
            assert forall|k: int| 0 <= k < n implies cursor.at(k) == Some(#[trigger] symbol_text(sym)[k]) by {
                if k == 0 {
                    assert(cursor.at(0) == Some(first));
                }
            }
            if let Some(b) = cursor.at(n as int) {
                assert forall|s2: Symbol| #[trigger] symbol_text(s2) != symbol_text(sym).push(b) by {
                    lemma_symbol_shapes(s2);
                    let t = symbol_text(sym).push(b);
                    if symbol_text(s2) == t {
                        assert(t.len() == n + 1);
                        assert(t[0] == first);
                        assert(t[n as int] == b);
                        if n >= 2 {
                            assert(t[1] == symbol_text(sym)[1]);
                        }
                    }
                }
            }
        }
    }
    r
}

/// A punctuation or operator symbol; an unknown byte is an error after it.
pub fn scan_symbol(cursor: &mut Cursor, limits: &CompileLimits, tokens: &mut Vec<Token>) -> (r: Result<(), Diagnostic>)
    requires
        old(cursor).wf(),
        old(cursor).at(0) matches Some(b) && !is_space_byte(b),
    ensures
        scanned(*old(cursor), *final(cursor), old(tokens)@, final(tokens)@),
        tokens_bounded(old(tokens)@, limits.max_token_bytes) ==> tokens_bounded(final(tokens)@, limits.max_token_bytes),
        r is Ok ==> final(cursor).offset > old(cursor).offset && final(tokens)@.len() <= limits.max_tokens
            && final(tokens)@.len() == old(tokens)@.len() + 1,
        r matches Err(d) ==> lex_diagnostic(d),
{
    let start = cursor.position();
    let start_byte = cursor.offset();
    let ghost input = cursor.input@;
    let found = symbol_at(cursor);
    match found {
        None => {
            advance(cursor, limits, start_byte, start)?;
            Err(lex_error(cursor, start_byte, start, "未知詞法元素"))
        },
        Some((sym, n)) => {
            let mut i: usize = 0;
            while i < n
                invariant
                    cursor.wf(),
                    cursor.input@ == input,
                    cursor.input == old(cursor).input,
                    cursor.profile == old(cursor).profile,
                    start_byte == old(cursor).offset,
                    i <= n,
                    n == symbol_text(sym).len(),
                    cursor.offset == start_byte + i,
                    forall|k: int| 0 <= k < n ==> start_byte + k < input.len() && input[start_byte + k] == #[trigger] symbol_text(sym)[k],
                    tokens@ == old(tokens)@,
                decreases n - i,
            {
                assert(input[start_byte + i] == symbol_text(sym)[i as int]);
                assert(symbol_text(sym)[i as int] != 10 && symbol_text(sym)[i as int] != 13);
                advance(cursor, limits, start_byte, start)?;
                i = i + 1;
            }
            assert(input.subrange(start_byte as int, cursor.offset as int) =~= symbol_text(sym));
            emit(tokens, cursor, limits, start_byte, start, TokenKind::Symbol(sym), None)
        },
    }
}

pub open spec fn word_modulus() -> int {
    0x1_0000_0000_0000_0000
}

proof fn lemma_hex_step(hv: int, d: int)
    requires
        hv >= 0,
        0 <= d < 16,
    ensures
        ((hv % word_modulus()) * 16 + d) % word_modulus() == (hv * 16 + d) % word_modulus(),
{
    let m = word_modulus();
    vstd::arithmetic::div_mod::lemma_mul_mod_noop_left(hv, 16, m);
    vstd::arithmetic::div_mod::lemma_add_mod_noop(hv * 16, d, m);
    vstd::arithmetic::div_mod::lemma_add_mod_noop((hv % m) * 16, d, m);
}

proof fn lemma_decimal_value_nonneg(s: Seq<u8>)
    requires
        all_digits(s),
    ensures
        decimal_value(s) >= 0,
    decreases s.len(),
{
    if s.len() > 0 {
        assert(all_digits(s.drop_last()));
        lemma_decimal_value_nonneg(s.drop_last());
        assert(is_digit_byte(s.last()));
    }
}

proof fn lemma_hex_value_nonneg(s: Seq<u8>)
    requires
        all_hex_digits(s),
    ensures
        hex_value(s) >= 0,
    decreases s.len(),
{
    if s.len() > 0 {
        assert(all_hex_digits(s.drop_last()));
        lemma_hex_value_nonneg(s.drop_last());
        assert(is_hex_digit_byte(s.last()));
    }
}

proof fn lemma_decimal_value_grows(s: Seq<u8>, i: int)
    requires
        all_digits(s),
        0 <= i <= s.len(),
    ensures
        decimal_value(s.take(i)) <= decimal_value(s),
    decreases s.len(),
{
    if i < s.len() {
        assert(all_digits(s.drop_last()));
        lemma_decimal_value_grows(s.drop_last(), i);
        assert(s.drop_last().take(i) =~= s.take(i));
        lemma_decimal_value_nonneg(s.drop_last());
        assert(is_digit_byte(s.last()));
    } else {
        assert(s.take(i) =~= s);
    }
}

/// The payload of a numeral: an integer when the numeral is an integer
/// numeral, else its text as a float numeral.
pub fn parse_number(text: Vec<u8>) -> (r: Result<Literal, &'static str>)
    ensures
        r matches Ok(Literal::Integer(v)) ==> integer_numeral_value(text@, v),
        r matches Ok(Literal::Float(t)) ==> t@ == text@ && forall|w: i64| !integer_numeral_value(text@, w),
        r matches Ok(l) ==> l is Integer || l is Float,
{
    let n = text.len();
    let hexadecimal = n >= 2 && text[0] == 48u8 && (text[1] == 120u8 || text[1] == 88u8);
    if hexadecimal {
        let mut float_form = false;
        let mut i: usize = 2;
        while i < n
            invariant
                n == text@.len(),
                2 <= i <= n,
                float_form <==> exists|k: int| 2 <= k < i && (text@[k] == 46 || text@[k] == 112 || text@[k] == 80),
            decreases n - i,
        {
            if text[i] == 46u8 || text[i] == 112u8 || text[i] == 80u8 {
                float_form = true;
            }
            i = i + 1;
        }
        let ghost body = text@.subrange(2, n as int);
        if !float_form {
            let mut acc: u64 = 0;
            let mut j: usize = 2;
            while j < n
                invariant
                    n == text@.len(),
                    body == text@.subrange(2, n as int),
                    2 <= j <= n,
                    all_hex_digits(text@.subrange(2, j as int)),
                    acc == hex_value(text@.subrange(2, j as int)) % word_modulus(),
                decreases n - j,
            {
                let ghost prefix = text@.subrange(2, j as int);
                match hex_digit(text[j]) {
                    None => {
                        return Err("十六進位 numeral 不合法");
                    },
                    Some(d) => {
                        let wide: u128 = (acc as u128) * 16 + (d as u128);
                        let next_acc = (wide % 0x1_0000_0000_0000_0000u128) as u64;
                        proof {
                            let next = text@.subrange(2, j + 1);
                            assert(next.drop_last() =~= prefix);
                            assert(next.last() == text@[j as int]);
                            lemma_hex_value_nonneg(prefix);
                            lemma_hex_step(hex_value(prefix), d as int);
                            assert(all_hex_digits(next));
                        }
                        acc = next_acc;
                    },
                }
                j = j + 1;
            }
            let v: i64 = if acc >= 0x8000_0000_0000_0000u64 {
                -((18446744073709551615u64 - acc) as i64) - 1
            } else {
                acc as i64
            };
            proof {
                assert(text@.subrange(2, n as int) == body);
                assert(is_hex_prefix(text@));
            }
            return Ok(Literal::Integer(v));
        }
        let mut e: usize = 2;
        while e < n && text[e] != 112u8 && text[e] != 80u8
            invariant
                n == text@.len(),
                2 <= e <= n,
            decreases n - e,
        {
            e = e + 1;
        }
        if e < n {
            let mut k: usize = e + 1;
            let mut negative = false;
            if k < n && (text[k] == 43u8 || text[k] == 45u8) {
                negative = text[k] == 45u8;
                k = k + 1;
            }
            if k >= n {
                return Err("十六進位 exponent 不合法");
            }
            let mut magnitude: u64 = 0;
            while k < n
                invariant
                    n == text@.len(),
                    k <= n,
                    magnitude <= 2147483648,
                decreases n - k,
            {
                if !is_digit(text[k]) {
                    return Err("十六進位 exponent 不合法");
                }
                magnitude = magnitude * 10 + (text[k] - 48u8) as u64;
                let limit: u64 = if negative { 2147483648 } else { 2147483647 };
                if magnitude > limit {
                    return Err("十六進位 exponent 不合法");
                }
                k = k + 1;
            }
        }
        let mut dots: usize = 0;
        let mut m: usize = 2;
        while m < e
            invariant
                n == text@.len(),
                e <= n,
                2 <= m <= e,
                dots <= 1,
            decreases e - m,
        {
            if text[m] == 46u8 {
                if dots == 1 {
                    return Err("十六進位小數點不合法");
                }
                dots = 1;
            } else if hex_digit(text[m]).is_none() {
                return Err("十六進位 numeral 不合法");
            }
            m = m + 1;
        }
        proof {
            assert forall|w: i64| !integer_numeral_value(text@, w) by {
                let k = choose|k: int| 2 <= k < n && (text@[k] == 46 || text@[k] == 112 || text@[k] == 80);
                assert(!is_digit_byte(text@[1]));
                assert(!is_hex_digit_byte(text@.subrange(2, n as int)[k - 2]));
            }
        }
        return Ok(Literal::Float(text));
    }
    let mut i: usize = 0;
    let mut float_form = false;
    while i < n
        invariant
            n == text@.len(),
            i <= n,
            float_form <==> exists|k: int| 0 <= k < i && (text@[k] == 46 || text@[k] == 101 || text@[k] == 69),
        decreases n - i,
    {
        if text[i] == 46u8 || text[i] == 101u8 || text[i] == 69u8 {
            float_form = true;
        }
        i = i + 1;
    }
    if float_form {
        proof {
            assert forall|w: i64| !integer_numeral_value(text@, w) by {
                let k = choose|k: int| 0 <= k < n && (text@[k] == 46 || text@[k] == 101 || text@[k] == 69);
                assert(!is_digit_byte(text@[k]));
            }
        }
        return Ok(Literal::Float(text));
    }
    let mut acc: u64 = 0;
    let mut j: usize = 0;
    while j < n
        invariant
            n == text@.len(),
            j <= n,
            all_digits(text@.take(j as int)),
            acc == decimal_value(text@.take(j as int)),
            acc <= 9223372036854775807,
            !hexadecimal,
            hexadecimal == is_hex_prefix(text@),
        decreases n - j,
    {
        let b = text[j];
        if !is_digit(b) {
            return Err("整數 numeral 不合法");
        }
        let d = (b - 48u8) as u64;
        let ghost prefix = text@.take(j as int);
        let ghost next = text@.take(j + 1);
        proof {
            assert(next.drop_last() =~= prefix);
            assert(next.last() == b);
            assert(all_digits(next));
        }
        if acc > (9223372036854775807u64 - d) / 10 {
            proof {
                assert(acc * 10 + d > 9223372036854775807) by (nonlinear_arith)
                    requires acc > (9223372036854775807 - d) / 10, d <= 9;
                assert(decimal_value(next) > 9223372036854775807);
                assert forall|w: i64| !integer_numeral_value(text@, w) by {
                    if all_digits(text@) {
                        lemma_decimal_value_grows(text@, j + 1);
                    }
                }
            }
            return Ok(Literal::Float(text));
        }
        assert(acc * 10 + d <= 9223372036854775807) by (nonlinear_arith)
            requires acc <= (9223372036854775807 - d) / 10, d <= 9;
        acc = acc * 10 + d;
        j = j + 1;
    }
    proof {
        assert(text@.take(n as int) =~= text@);
    }
    if n == 0 {
        return Err("整數 numeral 不合法");
    }
    Ok(Literal::Integer(acc as i64))
}

/// The facts kept while a numeral is read: its bytes so far are the input
/// from where it starts to the cursor.
pub open spec fn numeral_progress(cursor: Cursor, input: Seq<u8>, start_byte: int, bytes: Seq<u8>) -> bool {
    &&& cursor.wf()
    &&& cursor.input@ == input
    &&& start_byte <= cursor.offset
    &&& bytes == input.subrange(start_byte, cursor.offset as int)
}

/// Reads the byte under the cursor into the numeral when it satisfies the
/// test that the caller made.
fn take_numeral_byte(
    bytes: &mut Vec<u8>,
    cursor: &mut Cursor,
    limits: &CompileLimits,
    start_byte: usize,
    start: SourcePosition,
) -> (r: Result<(), Diagnostic>)
    requires
        numeral_progress(*old(cursor), old(cursor).input@, start_byte as int, old(bytes)@),
        old(cursor).offset < old(cursor).input@.len(),
        old(cursor).input@[old(cursor).offset as int] != 10,
        old(cursor).input@[old(cursor).offset as int] != 13,
    ensures
        final(cursor).input == old(cursor).input,
        final(cursor).profile == old(cursor).profile,
        final(cursor).wf(),
        final(cursor).offset == old(cursor).offset || final(cursor).offset == old(cursor).offset + 1,
        r is Ok ==> final(cursor).offset == old(cursor).offset + 1 && numeral_progress(*final(cursor), old(cursor).input@, start_byte as int, final(bytes)@),
        r matches Err(d) ==> lex_diagnostic(d),
{
    let ghost input = cursor.input@;
    let ghost before = bytes@;
    consume_byte(bytes, cursor, limits, start_byte, start)?;
    assert(bytes@ =~= input.subrange(start_byte as int, cursor.offset as int));
    Ok(())
}

/// Whether the byte under the cursor is a decimal digit.
fn at_digit(cursor: &Cursor) -> (r: bool)
    requires
        cursor.wf(),
    ensures
        r == (cursor.at(0) matches Some(b) && is_digit_byte(b)),
{
    match cursor.peek() {
        Some(b) => is_digit(b),
        None => false,
    }
}

fn at_hex_digit(cursor: &Cursor) -> (r: bool)
    requires
        cursor.wf(),
    ensures
        r == (cursor.at(0) matches Some(b) && is_hex_digit_byte(b)),
{
    match cursor.peek() {
        Some(b) => is_hex_digit(b),
        None => false,
    }
}

/// A numeral: decimal or hexadecimal, integer or float; a numeral glued to
/// a name is an error.
/// The positions a numeral scan passes through give the shape of its text:
/// prefix up to `s0`, digits up to `pi`, a fraction up to `pj`, and, when
/// `pe` is short of `end`, an exponent marker at `pe`, an optional sign,
/// and digits from `pd`.
proof fn lemma_numeral_witness(input: Seq<u8>, start: int, end: int, s0: int, hex: bool, pi: int, pj: int, pe: int, pd: int)
    requires
        0 <= start <= s0 <= pi <= pj <= pe <= pd <= end <= input.len(),
        s0 == start + (if hex { 2int } else { 0int }),
        hex ==> input[start] == 48 && (input[start + 1] == 120 || input[start + 1] == 88),
        !hex ==> !(end - start >= 2 && input[start] == 48 && (input[start + 1] == 120 || input[start + 1] == 88)),
        forall|k: int| s0 <= k < pi ==> digit_of(#[trigger] input[k], hex),
        pj == pi || (input[pi] == 46 && forall|k: int| pi + 1 <= k < pj ==> digit_of(#[trigger] input[k], hex)),
        (pi - s0) + (if pj > pi { pj - pi - 1 } else { 0 }) >= 1,
        pe == pj,
        pe == end || {
            &&& (if hex { input[pe] == 112 || input[pe] == 80 } else { input[pe] == 101 || input[pe] == 69 })
            &&& (pd == pe + 1 || (pd == pe + 2 && (input[pe + 1] == 43 || input[pe + 1] == 45)))
            &&& pd < end
            &&& forall|k: int| pd <= k < end ==> is_digit_byte(#[trigger] input[k])
        },
    ensures
        numeral_shape(input.subrange(start, end), s0 - start, hex, pi - start, pj - start),
        numeral_text(input.subrange(start, end)),
{
    let t = input.subrange(start, end);
    if t.len() >= 2 {
        assert(t[0] == input[start] && t[1] == input[start + 1]);
    }
    assert forall|k: int| s0 - start <= k < pi - start implies digit_of(#[trigger] t[k], hex) by {
        assert(t[k] == input[k + start]);
    }
    if pj > pi {
        assert(t[pi - start] == input[pi]);
        assert forall|k: int| pi - start + 1 <= k < pj - start implies digit_of(#[trigger] t[k], hex) by {
            assert(t[k] == input[k + start]);
        }
    }
    if pe < end {
        assert(t[pe - start] == input[pe]);
        if pd == pe + 2 {
            assert(t[pe - start + 1] == input[pe + 1]);
        }
        assert forall|k: int| pd - start <= k < t.len() implies digit_of(#[trigger] t[k], false) by {
            assert(t[k] == input[k + start]);
        }
    }
    assert(numeral_shape(t, s0 - start, hex, pi - start, pj - start));
    assert(crate::lexer::is_hex_prefix(t) == hex);
}

#[verifier::spinoff_prover]
#[verifier::rlimit(100)]
pub fn scan_number(cursor: &mut Cursor, limits: &CompileLimits, tokens: &mut Vec<Token>) -> (r: Result<(), Diagnostic>)
    requires
        old(cursor).wf(),
        old(cursor).at(0) matches Some(b) && (is_digit_byte(b) || (b == 46 && (old(cursor).at(1) matches Some(c) && is_digit_byte(c)))),
    ensures
        scanned(*old(cursor), *final(cursor), old(tokens)@, final(tokens)@),
        tokens_bounded(old(tokens)@, limits.max_token_bytes) ==> tokens_bounded(final(tokens)@, limits.max_token_bytes),
        r is Ok ==> final(cursor).offset > old(cursor).offset && final(tokens)@.len() <= limits.max_tokens
            && final(tokens)@.len() == old(tokens)@.len() + 1,
        r matches Err(d) ==> lex_diagnostic(d),
{
    let start = cursor.position();
    let start_byte = cursor.offset();
    let ghost input = cursor.input@;
    let ghost first_cursor = *cursor;
    let mut bytes: Vec<u8> = Vec::new();
    assert(bytes@ =~= input.subrange(start_byte as int, cursor.offset as int));
    let hexadecimal = cursor.peek() == Some(48u8) && (cursor.peek_n(1) == Some(120u8) || cursor.peek_n(1) == Some(88u8));
    if hexadecimal {
        take_numeral_byte(&mut bytes, cursor, limits, start_byte, start)?;
        take_numeral_byte(&mut bytes, cursor, limits, start_byte, start)?;
        let ghost s0 = cursor.offset as int;
        let mut seen_digit = false;
        while at_hex_digit(cursor)
            invariant
                numeral_progress(*cursor, input, start_byte as int, bytes@),
                start_byte == old(cursor).offset,
                cursor.input == old(cursor).input,
                cursor.profile == old(cursor).profile,
                cursor.offset > start_byte,
                tokens@ == old(tokens)@,
                s0 <= cursor.offset,
                forall|k: int| s0 <= k < cursor.offset ==> is_hex_digit_byte(#[trigger] input[k]),
                seen_digit == (cursor.offset > s0),
            decreases input.len() - cursor.offset,
        {
            seen_digit = true;
            take_numeral_byte(&mut bytes, cursor, limits, start_byte, start)?;
        }
        let ghost pi = cursor.offset as int;
        let ghost mut pj = cursor.offset as int;
        if cursor.peek() == Some(46u8) && cursor.peek_n(1) != Some(46u8) {
            take_numeral_byte(&mut bytes, cursor, limits, start_byte, start)?;
            while at_hex_digit(cursor)
                invariant
                    numeral_progress(*cursor, input, start_byte as int, bytes@),
                    start_byte == old(cursor).offset,
                    cursor.input == old(cursor).input,
                    cursor.profile == old(cursor).profile,
                    cursor.offset > start_byte,
                    tokens@ == old(tokens)@,
                    pi + 1 <= cursor.offset,
                    input[pi] == 46,
                    forall|k: int| pi + 1 <= k < cursor.offset ==> is_hex_digit_byte(#[trigger] input[k]),
                    seen_digit == (pi > s0 || cursor.offset > pi + 1),
                decreases input.len() - cursor.offset,
            {
                seen_digit = true;
                take_numeral_byte(&mut bytes, cursor, limits, start_byte, start)?;
            }
            proof {
                pj = cursor.offset as int;
            }
        }
        if !seen_digit {
            return Err(lex_error(cursor, start_byte, start, "十六進位 numeral 缺少數字"));
        }
        let ghost pe = cursor.offset as int;
        if cursor.peek() == Some(112u8) || cursor.peek() == Some(80u8) {
            take_numeral_byte(&mut bytes, cursor, limits, start_byte, start)?;
            if cursor.peek() == Some(43u8) || cursor.peek() == Some(45u8) {
                take_numeral_byte(&mut bytes, cursor, limits, start_byte, start)?;
            }
            let ghost pd = cursor.offset as int;
            let exponent_start = bytes.len();
            while at_digit(cursor)
                invariant
                    numeral_progress(*cursor, input, start_byte as int, bytes@),
                    start_byte == old(cursor).offset,
                    cursor.input == old(cursor).input,
                    cursor.profile == old(cursor).profile,
                    cursor.offset > start_byte,
                    exponent_start <= bytes@.len(),
                    exponent_start == pd - start_byte,
                    pd <= cursor.offset,
                    forall|k: int| pd <= k < cursor.offset ==> is_digit_byte(#[trigger] input[k]),
                    tokens@ == old(tokens)@,
                decreases input.len() - cursor.offset,
            {
                take_numeral_byte(&mut bytes, cursor, limits, start_byte, start)?;
            }
            if bytes.len() == exponent_start {
                return Err(lex_error(cursor, start_byte, start, "十六進位 exponent 不合法"));
            }
            proof {
                lemma_numeral_witness(input, start_byte as int, cursor.offset as int, s0, true, pi, pj, pe, pd);
            }
        } else {
            proof {
                lemma_numeral_witness(input, start_byte as int, cursor.offset as int, s0, true, pi, pj, pe, pe);
            }
        }
    } else {
        let ghost s0 = start_byte as int;
        while at_digit(cursor)
            invariant
                numeral_progress(*cursor, input, start_byte as int, bytes@),
                start_byte == old(cursor).offset,
                cursor.input == old(cursor).input,
                cursor.profile == old(cursor).profile,
                tokens@ == old(tokens)@,
                forall|k: int| s0 <= k < cursor.offset ==> is_digit_byte(#[trigger] input[k]),
            decreases input.len() - cursor.offset,
        {
            take_numeral_byte(&mut bytes, cursor, limits, start_byte, start)?;
        }
        let ghost pi = cursor.offset as int;
        let ghost mut pj = cursor.offset as int;
        if cursor.peek() == Some(46u8) && cursor.peek_n(1) != Some(46u8) {
            take_numeral_byte(&mut bytes, cursor, limits, start_byte, start)?;
            while at_digit(cursor)
                invariant
                    numeral_progress(*cursor, input, start_byte as int, bytes@),
                    start_byte == old(cursor).offset,
                    cursor.input == old(cursor).input,
                    cursor.profile == old(cursor).profile,
                    cursor.offset > start_byte,
                    tokens@ == old(tokens)@,
                    pi + 1 <= cursor.offset,
                    input[pi] == 46,
                    forall|k: int| pi + 1 <= k < cursor.offset ==> is_digit_byte(#[trigger] input[k]),
                decreases input.len() - cursor.offset,
            {
                take_numeral_byte(&mut bytes, cursor, limits, start_byte, start)?;
            }
            proof {
                pj = cursor.offset as int;
            }
        }
        proof {
            // The first byte is a digit, or a point before a digit.
            assert((pi - s0) + (if pj > pi { pj - pi - 1 } else { 0 }) >= 1);
        }
        let ghost pe = cursor.offset as int;
        if cursor.peek() == Some(101u8) || cursor.peek() == Some(69u8) {
            take_numeral_byte(&mut bytes, cursor, limits, start_byte, start)?;
            if cursor.peek() == Some(43u8) || cursor.peek() == Some(45u8) {
                take_numeral_byte(&mut bytes, cursor, limits, start_byte, start)?;
            }
            let ghost pd = cursor.offset as int;
            let exponent_start = bytes.len();
            while at_digit(cursor)
                invariant
                    numeral_progress(*cursor, input, start_byte as int, bytes@),
                    start_byte == old(cursor).offset,
                    cursor.input == old(cursor).input,
                    cursor.profile == old(cursor).profile,
                    exponent_start <= bytes@.len(),
                    exponent_start == pd - start_byte,
                    pd <= cursor.offset,
                    forall|k: int| pd <= k < cursor.offset ==> is_digit_byte(#[trigger] input[k]),
                    tokens@ == old(tokens)@,
                decreases input.len() - cursor.offset,
            {
                take_numeral_byte(&mut bytes, cursor, limits, start_byte, start)?;
            }
            if bytes.len() == exponent_start {
                return Err(lex_error(cursor, start_byte, start, "decimal exponent 不合法"));
            }
            proof {
                lemma_numeral_witness(input, start_byte as int, cursor.offset as int, s0, false, pi, pj, pe, pd);
            }
        } else {
            proof {
                lemma_numeral_witness(input, start_byte as int, cursor.offset as int, s0, false, pi, pj, pe, pe);
            }
        }
    }
    proof {
        assert(cursor.offset > start_byte) by {
            if cursor.offset == start_byte {
                assert(*cursor == first_cursor || cursor.offset == first_cursor.offset);
            }
        }
    }
    let glued = match cursor.peek() {
        Some(b) => is_name_start(b),
        None => false,
    };
    if glued {
        loop
            invariant
                numeral_progress(*cursor, input, start_byte as int, bytes@),
                start_byte == old(cursor).offset,
                cursor.input == old(cursor).input,
                cursor.profile == old(cursor).profile,
                tokens@ == old(tokens)@,
            decreases input.len() - cursor.offset,
        {
            let more = match cursor.peek() {
                Some(b) => is_name_continue(b),
                None => false,
            };
            if !more {
                break;
            }
            take_numeral_byte(&mut bytes, cursor, limits, start_byte, start)?;
        }
        return Err(lex_error(cursor, start_byte, start, "numeral 不可黏接識別字"));
    }
    let ghost text = bytes@;
    let literal = match parse_number(bytes) {
        Ok(l) => l,
        Err(message) => {
            return Err(lex_error(cursor, start_byte, start, message));
        },
    };
    let kind = match &literal {
        Literal::Integer(_) => TokenKind::Integer,
        _ => TokenKind::Float,
    };
    emit(tokens, cursor, limits, start_byte, start, kind, Some(literal))
}

/// The opening of a long bracket at the cursor: `[`, `equals` times `=`,
/// then `[`.  Equals signs without the second `[` are an error.
pub fn long_opening_separator(cursor: &Cursor) -> (r: Result<Option<usize>, ()>)
    requires
        cursor.wf(),
    ensures
        r matches Ok(Some(e)) ==> {
            &&& cursor.at(0) == Some(91u8)
            &&& forall|k: int| 1 <= k <= e ==> #[trigger] cursor.at(k) == Some(61u8)
            &&& cursor.at(e + 1) == Some(91u8)
        },
        r matches Ok(None) ==> cursor.at(0) != Some(91u8) || (cursor.at(1) != Some(61u8) && cursor.at(1) != Some(91u8)),
{
    if cursor.peek() != Some(91u8) {
        return Ok(None);
    }
    let mut distance: usize = 1;
    let mut equals: usize = 0;
    while cursor.peek_n(distance) == Some(61u8)
        invariant
            cursor.wf(),
            cursor.at(0) == Some(91u8),
            distance == equals + 1,
            forall|k: int| 1 <= k <= equals ==> #[trigger] cursor.at(k) == Some(61u8),
        decreases cursor.input@.len() - cursor.offset - distance,
    {
        equals = equals + 1;
        distance = distance + 1;
    }
    if cursor.peek_n(distance) == Some(91u8) {
        Ok(Some(equals))
    } else if equals > 0 {
        Err(())
    } else {
        Ok(None)
    }
}

/// Whether the closing long bracket of `equals` signs is at the cursor.
pub fn long_closing_separator(cursor: &Cursor, equals: usize) -> (r: bool)
    requires
        cursor.wf(),
    ensures
        r ==> {
            &&& cursor.at(0) == Some(93u8)
            &&& forall|k: int| 1 <= k <= equals ==> #[trigger] cursor.at(k) == Some(61u8)
            &&& cursor.at(equals + 1) == Some(93u8)
        },
        !r ==> !closes_at(cursor.input@, cursor.offset as int, equals as int),
{
    if cursor.peek() != Some(93u8) {
        return false;
    }
    if equals >= usize::MAX {
        return false;
    }
    let mut distance: usize = 1;
    while distance <= equals
        invariant
            cursor.wf(),
            1 <= distance <= equals + 1,
            equals < usize::MAX,
            forall|k: int| 1 <= k < distance ==> #[trigger] cursor.at(k) == Some(61u8),
        decreases equals + 1 - distance,
    {
        if cursor.peek_n(distance) != Some(61u8) {
            proof {
                if closes_at(cursor.input@, cursor.offset as int, equals as int) {
                    assert(cursor.input@[cursor.offset + distance] == 61);
                }
            }
            return false;
        }
        distance = distance + 1;
    }
    cursor.peek_n(equals + 1) == Some(93u8)
}

/// The byte `k` places after the cursor exists and is not a newline.
pub open spec fn plain_byte_at(c: Cursor, k: int) -> bool {
    c.at(k) matches Some(b) && b != 10 && b != 13
}

/// Steps over a long bracket of `equals` signs, none of whose bytes is a
/// newline.
pub fn consume_long_separator(
    cursor: &mut Cursor,
    limits: &CompileLimits,
    start_byte: usize,
    start: SourcePosition,
    equals: usize,
) -> (r: Result<(), Diagnostic>)
    requires
        old(cursor).wf(),
        forall|k: int| 0 <= k < equals + 2 ==> #[trigger] plain_byte_at(*old(cursor), k),
    ensures
        final(cursor).wf(),
        final(cursor).input == old(cursor).input,
        final(cursor).profile == old(cursor).profile,
        old(cursor).offset <= final(cursor).offset <= old(cursor).offset + equals + 2,
        r is Ok ==> final(cursor).offset == old(cursor).offset + equals + 2,
        r matches Err(d) ==> lex_diagnostic(d),
{
    let ghost first = old(cursor).offset;
    proof {
        assert(plain_byte_at(*old(cursor), equals + 1));
    }
    let length = equals + 2;
    let mut i: usize = 0;
    while i < length
        invariant
            cursor.wf(),
            cursor.input == old(cursor).input,
            cursor.profile == old(cursor).profile,
            length == equals + 2,
            i <= length,
            cursor.offset == first + i,
            forall|k: int| 0 <= k < equals + 2 ==> #[trigger] plain_byte_at(*old(cursor), k),
            first == old(cursor).offset,
            first + length <= cursor.input@.len(),
        decreases length - i,
    {
        assert(plain_byte_at(*old(cursor), i as int));
        assert(cursor.input@[cursor.offset as int] == old(cursor).input@[first + i]);
        advance(cursor, limits, start_byte, start)?;
        i = i + 1;
    }
    Ok(())
}

/// A long string after its opening bracket, up to the closing bracket of
/// the same level; a newline right after the opening is dropped.
pub fn scan_long_string(cursor: &mut Cursor, limits: &CompileLimits, tokens: &mut Vec<Token>, equals: usize) -> (r: Result<(), Diagnostic>)
    requires
        old(cursor).wf(),
        old(cursor).at(0) == Some(91u8),
        forall|k: int| 1 <= k <= equals ==> #[trigger] old(cursor).at(k) == Some(61u8),
        old(cursor).at(equals + 1) == Some(91u8),
    ensures
        scanned(*old(cursor), *final(cursor), old(tokens)@, final(tokens)@),
        tokens_bounded(old(tokens)@, limits.max_token_bytes) ==> tokens_bounded(final(tokens)@, limits.max_token_bytes),
        r is Ok ==> final(cursor).offset > old(cursor).offset && final(tokens)@.len() <= limits.max_tokens
            && final(tokens)@.len() == old(tokens)@.len() + 1,
        r matches Err(d) ==> lex_diagnostic(d),
{
    let start = cursor.position();
    let start_byte = cursor.offset();
    proof {
        assert forall|k: int| 0 <= k < equals + 2 implies #[trigger] plain_byte_at(*cursor, k) by {
            if 1 <= k <= equals {
                assert(cursor.at(k) == Some(61u8));
            }
        }
    }
    consume_long_separator(cursor, limits, start_byte, start, equals)?;
    let ghost input = cursor.input@;
    let ghost open_end = cursor.offset as int;
    let newline = match cursor.peek() {
        Some(b) => b == 10u8 || b == 13u8,
        None => false,
    };
    if newline {
        advance(cursor, limits, start_byte, start)?;
    }
    let ghost content_start = cursor.offset as int;
    let mut bytes: Vec<u8> = Vec::new();
    proof {
        assert forall|e: int| content_start <= e <= input.len() implies
            #[trigger] long_content(input.subrange(content_start, e)) == bytes@ + long_content(input.subrange(content_start, e)) by {
            assert(bytes@ + long_content(input.subrange(content_start, e)) =~= long_content(input.subrange(content_start, e)));
        }
    }
    loop
        invariant
            cursor.wf(),
            cursor.input == old(cursor).input,
            input == cursor.input@,
            cursor.profile == old(cursor).profile,
            start_byte == old(cursor).offset,
            cursor.offset > start_byte,
            tokens@ == old(tokens)@,
            content_start <= cursor.offset,
            open_end == start_byte + equals + 2,
            open_end <= content_start,
            content_start == open_end || (open_end < input.len() && is_newline_byte(input[open_end])
                && content_start == open_end + step_len(input, open_end)),
            content_start == open_end ==> !(open_end < input.len() && is_newline_byte(input[open_end])),
            old(cursor).at(0) == Some(91u8),
            forall|k: int| 1 <= k <= equals ==> #[trigger] old(cursor).at(k) == Some(61u8),
            old(cursor).at(equals + 1) == Some(91u8),
            forall|e: int| cursor.offset <= e <= input.len() ==>
                #[trigger] long_content(input.subrange(content_start, e)) == bytes@ + long_content(input.subrange(cursor.offset as int, e)),
        decreases cursor.input@.len() - cursor.offset,
    {
        let byte = match cursor.peek() {
            Some(b) => b,
            None => {
                return Err(lex_error(cursor, start_byte, start, "long 字串未結束"));
            },
        };
        if byte == 93u8 && long_closing_separator(cursor, equals) {
            let ghost close = cursor.offset as int;
            proof {
                assert forall|k: int| 0 <= k < equals + 2 implies #[trigger] plain_byte_at(*cursor, k) by {
                    if 1 <= k <= equals {
                        assert(cursor.at(k) == Some(61u8));
                    }
                }
                lemma_empty_range(input, close);
                assert(bytes@ =~= long_content(input.subrange(content_start, close)));
                assert forall|j: int| 1 <= j <= equals implies #[trigger] input[close + j] == 61 by {
                    assert(cursor.at(j) == Some(61u8));
                }
                assert(cursor.at(equals + 1) == Some(93u8));
            }
            consume_long_separator(cursor, limits, start_byte, start, equals)?;
            proof {
                assert forall|j: int| 1 <= j <= equals implies #[trigger] input[start_byte + j] == 61 by {
                    assert(old(cursor).at(j) == Some(61u8));
                }
                lemma_long_token(input, start_byte as int, equals as int, open_end, content_start, close, bytes@);
            }
            return emit(tokens, cursor, limits, start_byte, start, TokenKind::String, Some(Literal::String(bytes)));
        }
        let ghost o = cursor.offset as int;
        let ghost before = bytes@;
        if byte == 10u8 || byte == 13u8 {
            push_literal_byte(&mut bytes, 10u8, limits, cursor, start_byte, start)?;
        } else {
            push_literal_byte(&mut bytes, byte, limits, cursor, start_byte, start)?;
        }
        advance(cursor, limits, start_byte, start)?;
        proof {
            assert forall|e: int| cursor.offset <= e <= input.len() implies
                #[trigger] long_content(input.subrange(content_start, e)) == bytes@ + long_content(input.subrange(cursor.offset as int, e)) by {
                lemma_long_step(input, o, e);
                assert(long_content(input.subrange(content_start, e)) == before + long_content(input.subrange(o, e)));
                assert(bytes@ + long_content(input.subrange(cursor.offset as int, e))
                    =~= before + long_content(input.subrange(o, e)));
            }
        }
    }
}

/// The text of a long string token, from the opening bracket at `start` of
/// `k` signs to the closing bracket at `close`, stands for `value`.
proof fn lemma_long_token(input: Seq<u8>, start: int, k: int, open_end: int, content_start: int, close: int, value: Seq<u8>)
    requires
        0 <= start,
        k >= 0,
        open_end == start + k + 2,
        open_end <= content_start <= close,
        close + k + 2 <= input.len(),
        input[start] == 91,
        forall|j: int| 1 <= j <= k ==> #[trigger] input[start + j] == 61,
        input[start + k + 1] == 91,
        input[close] == 93,
        forall|j: int| 1 <= j <= k ==> #[trigger] input[close + j] == 61,
        input[close + k + 1] == 93,
        content_start == open_end || (open_end < input.len() && is_newline_byte(input[open_end]) && content_start == open_end + step_len(input, open_end)),
        content_start == open_end ==> !(open_end < input.len() && is_newline_byte(input[open_end])),
        value == long_content(input.subrange(content_start, close)),
    ensures
        crate::literal::string_literal_value(input.subrange(start, close + k + 2), value),
{
    let text = input.subrange(start, close + k + 2);
    let len = text.len() as int;
    assert(len == close + k + 2 - start);
    assert forall|j: int| 1 <= j <= k implies #[trigger] text[j] == 61 by {
        assert(text[j] == input[start + j]);
    }
    assert forall|j: int| 1 <= j <= k implies #[trigger] text[len - 1 - j] == 61 by {
        assert(text[len - 1 - j] == input[close + k + 1 - j]);
        assert(input[close + (k + 1 - j)] == 61);
    }
    assert(text[0] == input[start]);
    assert(text[k + 1] == input[start + k + 1]);
    assert(text[len - k - 2] == input[close]);
    assert(text[len - 1] == input[close + k + 1]);
    assert(long_bracketed(text, k));
    let body = text.subrange(k + 2, len - k - 2);
    assert(body =~= input.subrange(open_end, close));
    if content_start == open_end {
        if body.len() > 0 {
            assert(body[0] == input[open_end]);
        }
        assert(long_literal(body) == long_content(body));
    } else {
        assert(body[0] == input[open_end]);
        if body.len() >= 2 {
            assert(body[1] == input[open_end + 1]);
        }
        assert(newline_len(body) == step_len(input, open_end));
        assert(body.skip(newline_len(body)) =~= input.subrange(content_start, close));
    }
}

/// A long comment after its opening bracket.
pub fn scan_long_comment(
    cursor: &mut Cursor,
    limits: &CompileLimits,
    comment_start_byte: usize,
    comment_start: SourcePosition,
    equals: usize,
) -> (r: Result<(), Diagnostic>)
    requires
        old(cursor).wf(),
        old(cursor).at(0) == Some(91u8),
        forall|k: int| 1 <= k <= equals ==> #[trigger] old(cursor).at(k) == Some(61u8),
        old(cursor).at(equals + 1) == Some(91u8),
        comment_start_byte + 2 == old(cursor).offset,
        old(cursor).input@[comment_start_byte as int] == 45,
        old(cursor).input@[comment_start_byte + 1] == 45,
    ensures
        final(cursor).wf(),
        final(cursor).input == old(cursor).input,
        final(cursor).profile == old(cursor).profile,
        final(cursor).offset >= old(cursor).offset,
        r is Ok ==> final(cursor).offset > old(cursor).offset,
        r is Ok ==> forall|e: int| final(cursor).offset <= e <= final(cursor).input@.len() ==>
            #[trigger] gap_ok(final(cursor).input@.subrange(comment_start_byte as int, e)) == gap_ok(final(cursor).input@.subrange(final(cursor).offset as int, e)),
        r matches Err(d) ==> lex_diagnostic(d),
{
    let ghost input = cursor.input@;
    let ghost o = comment_start_byte as int;
    proof {
        assert forall|k: int| 0 <= k < equals + 2 implies #[trigger] plain_byte_at(*cursor, k) by {
            if 1 <= k <= equals {
                assert(cursor.at(k) == Some(61u8));
            }
        }
        assert forall|j: int| 1 <= j <= equals implies #[trigger] input[o + 2 + j] == 61 by {
            assert(old(cursor).at(j) == Some(61u8));
        }
    }
    consume_long_separator(cursor, limits, comment_start_byte, comment_start, equals)?;
    let ghost content_start = cursor.offset as int;
    loop
        invariant
            cursor.wf(),
            cursor.input == old(cursor).input,
            input == cursor.input@,
            cursor.profile == old(cursor).profile,
            cursor.offset > old(cursor).offset,
            content_start == o + equals + 4,
            content_start <= cursor.offset,
            0 <= o,
            o == comment_start_byte,
            o + 2 == old(cursor).offset,
            input[o] == 45,
            input[o + 1] == 45,
            input[o + 2] == 91,
            forall|j: int| 1 <= j <= equals ==> #[trigger] input[o + 2 + j] == 61,
            input[o + equals + 3] == 91,
            forall|d: int| content_start <= d < cursor.offset ==> !#[trigger] closes_at(input, d, equals as int),
        decreases cursor.input@.len() - cursor.offset,
    {
        let ghost here = cursor.offset as int;
        let byte = match cursor.peek() {
            Some(b) => b,
            None => {
                return Err(lex_error(cursor, comment_start_byte, comment_start, "long 註解未結束"));
            },
        };
        if byte == 93u8 && long_closing_separator(cursor, equals) {
            proof {
                assert forall|k: int| 0 <= k < equals + 2 implies #[trigger] plain_byte_at(*cursor, k) by {
                    if 1 <= k <= equals {
                        assert(cursor.at(k) == Some(61u8));
                    }
                }
                assert forall|j: int| 1 <= j <= equals implies #[trigger] input[here + j] == 61 by {
                    assert(cursor.at(j) == Some(61u8));
                }
                assert(cursor.at(equals + 1) == Some(93u8));
                assert(closes_at(input, here, equals as int));
            }
            consume_long_separator(cursor, limits, comment_start_byte, comment_start, equals)?;
            proof {
                assert forall|e: int| cursor.offset <= e <= input.len() implies
                    #[trigger] gap_ok(input.subrange(o, e)) == gap_ok(input.subrange(cursor.offset as int, e)) by {
                    lemma_gap_long_comment(input, o, equals as int, here, e);
                }
            }
            return Ok(());
        }
        proof {
            assert(!closes_at(input, here, equals as int));
        }
        advance(cursor, limits, comment_start_byte, comment_start)?;
        proof {
            if cursor.offset == here + 2 {
                assert(input[here + 1] == 10 || input[here + 1] == 13);
                assert(!closes_at(input, here + 1, equals as int));
            }
        }
    }
}

/// A comment that starts with `--`: a long comment when a long bracket
/// follows, else the rest of the line.
pub fn scan_short_comment(cursor: &mut Cursor, limits: &CompileLimits) -> (r: Result<(), Diagnostic>)
    requires
        old(cursor).wf(),
        old(cursor).at(0) == Some(45u8),
        old(cursor).at(1) == Some(45u8),
    ensures
        final(cursor).wf(),
        final(cursor).input == old(cursor).input,
        final(cursor).profile == old(cursor).profile,
        final(cursor).offset >= old(cursor).offset,
        r is Ok ==> final(cursor).offset > old(cursor).offset,
        r is Ok ==> forall|e: int| final(cursor).offset <= e <= final(cursor).input@.len() ==>
            #[trigger] gap_ok(final(cursor).input@.subrange(old(cursor).offset as int, e)) == gap_ok(final(cursor).input@.subrange(final(cursor).offset as int, e)),
        r matches Err(d) ==> lex_diagnostic(d),
{
    let ghost input = cursor.input@;
    let start = cursor.position();
    let start_byte = cursor.offset();
    advance(cursor, limits, start_byte, start)?;
    advance(cursor, limits, start_byte, start)?;
    if cursor.peek() == Some(91u8) {
        match long_opening_separator(cursor) {
            Ok(Some(equals)) => {
                return scan_long_comment(cursor, limits, start_byte, start, equals);
            },
            Ok(None) => {},
            Err(()) => {
                return Err(lex_error(cursor, cursor.offset(), cursor.position(), "long delimiter 不合法"));
            },
        }
    }
    let ghost after_dashes = cursor.offset as int;
    loop
        invariant
            cursor.wf(),
            cursor.input == old(cursor).input,
            input == cursor.input@,
            cursor.profile == old(cursor).profile,
            cursor.offset > old(cursor).offset,
            after_dashes == start_byte + 2,
            after_dashes <= cursor.offset,
            input[start_byte as int] == 45,
            input[start_byte + 1] == 45,
            !(after_dashes < input.len() && input[after_dashes] == 91 && after_dashes + 1 < input.len()
                && (input[after_dashes + 1] == 61 || input[after_dashes + 1] == 91)),
            forall|j: int| after_dashes <= j < cursor.offset ==> !#[trigger] is_newline_byte(input[j]),
        ensures
            cursor.offset == input.len() || is_newline_byte(input[cursor.offset as int]),
        decreases cursor.input@.len() - cursor.offset,
    {
        let more = match cursor.peek() {
            Some(b) => b != 10u8 && b != 13u8,
            None => false,
        };
        if !more {
            break;
        }
        advance(cursor, limits, start_byte, start)?;
    }
    proof {
        assert forall|e: int| cursor.offset <= e <= input.len() implies
            #[trigger] gap_ok(input.subrange(start_byte as int, e)) == gap_ok(input.subrange(cursor.offset as int, e)) by {
            lemma_gap_short_comment(input, start_byte as int, cursor.offset as int, e);
        }
    }
    Ok(())
}

/// A quoted string with its escapes.
pub fn scan_short_string(cursor: &mut Cursor, limits: &CompileLimits, tokens: &mut Vec<Token>) -> (r: Result<(), Diagnostic>)
    requires
        old(cursor).wf(),
        old(cursor).at(0) matches Some(q) && (q == 39 || q == 34),
    ensures
        scanned(*old(cursor), *final(cursor), old(tokens)@, final(tokens)@),
        tokens_bounded(old(tokens)@, limits.max_token_bytes) ==> tokens_bounded(final(tokens)@, limits.max_token_bytes),
        r is Ok ==> final(cursor).offset > old(cursor).offset && final(tokens)@.len() <= limits.max_tokens
            && final(tokens)@.len() == old(tokens)@.len() + 1,
        r matches Err(d) ==> lex_diagnostic(d),
{
    let start = cursor.position();
    let start_byte = cursor.offset();
    let quote = cursor.input[cursor.offset];
    let ghost input = cursor.input@;
    advance(cursor, limits, start_byte, start)?;
    let ghost body_start = cursor.offset as int;
    let mut bytes: Vec<u8> = Vec::new();
    proof {
        assert forall|e: int| body_start <= e <= input.len() implies
            #[trigger] short_body(input.subrange(body_start, e)) == bytes@ + short_body(input.subrange(body_start, e)) by {
            assert(bytes@ + short_body(input.subrange(body_start, e)) =~= short_body(input.subrange(body_start, e)));
        }
    }
    loop
        invariant
            cursor.wf(),
            cursor.input == old(cursor).input,
            input == cursor.input@,
            cursor.profile == old(cursor).profile,
            start_byte == old(cursor).offset,
            cursor.offset > start_byte,
            tokens@ == old(tokens)@,
            body_start == start_byte + 1,
            body_start <= cursor.offset,
            input[start_byte as int] == quote,
            quote == 39 || quote == 34,
            forall|e: int| cursor.offset <= e <= input.len() ==>
                #[trigger] short_body(input.subrange(body_start, e)) == bytes@ + short_body(input.subrange(cursor.offset as int, e)),
        decreases cursor.input@.len() - cursor.offset,
    {
        let ghost o = cursor.offset as int;
        let ghost before = bytes@;
        let byte = match cursor.peek() {
            Some(b) => b,
            None => {
                return Err(lex_error(cursor, start_byte, start, "短字串未結束"));
            },
        };
        if byte == quote {
            proof {
                lemma_empty_range(input, o);
                assert(bytes@ =~= short_body(input.subrange(body_start, o)));
            }
            advance(cursor, limits, start_byte, start)?;
            proof {
                let text = input.subrange(start_byte as int, o + 1);
                assert(text[0] == input[start_byte as int]);
                assert(text[text.len() - 1] == input[o]);
                assert(text.subrange(1, text.len() - 1) =~= input.subrange(body_start, o));
            }
            return emit(tokens, cursor, limits, start_byte, start, TokenKind::String, Some(Literal::String(bytes)));
        }
        if byte == 10u8 || byte == 13u8 {
            return Err(lex_error(cursor, start_byte, start, "短字串含未轉義換行"));
        }
        if byte != 92u8 {
            push_literal_byte(&mut bytes, byte, limits, cursor, start_byte, start)?;
            advance(cursor, limits, start_byte, start)?;
            proof {
                assert forall|e: int| cursor.offset <= e <= input.len() implies
                    #[trigger] short_body(input.subrange(body_start, e)) == bytes@ + short_body(input.subrange(cursor.offset as int, e)) by {
                    lemma_short_plain(input, o, e);
                    assert(bytes@ + short_body(input.subrange(cursor.offset as int, e)) =~= before + short_body(input.subrange(o, e)));
                }
            }
            continue;
        }
        advance(cursor, limits, start_byte, start)?;
        let escape = match cursor.peek() {
            Some(b) => b,
            None => {
                return Err(lex_error(cursor, start_byte, start, "短字串 escape 未結束"));
            },
        };
        let simple = if escape == 97u8 {
            Some(7u8)
        } else if escape == 98u8 {
            Some(8u8)
        } else if escape == 102u8 {
            Some(12u8)
        } else if escape == 110u8 {
            Some(10u8)
        } else if escape == 114u8 {
            Some(13u8)
        } else if escape == 116u8 {
            Some(9u8)
        } else if escape == 118u8 {
            Some(11u8)
        } else if escape == 92u8 || escape == 39u8 || escape == 34u8 {
            Some(escape)
        } else {
            None
        };
        if let Some(value) = simple {
            push_literal_byte(&mut bytes, value, limits, cursor, start_byte, start)?;
            advance(cursor, limits, start_byte, start)?;
            proof {
                assert(simple_escape(input[o + 1]) == Some(value));
                assert forall|e: int| cursor.offset <= e <= input.len() implies
                    #[trigger] short_body(input.subrange(body_start, e)) == bytes@ + short_body(input.subrange(cursor.offset as int, e)) by {
                    lemma_short_simple(input, o, e);
                    assert(bytes@ + short_body(input.subrange(cursor.offset as int, e)) =~= before + short_body(input.subrange(o, e)));
                }
            }
        } else if escape == 120u8 {
            advance(cursor, limits, start_byte, start)?;
            let high = match cursor.peek() {
                Some(b) => hex_digit(b),
                None => None,
            };
            let high = match high {
                Some(v) => v,
                None => {
                    return Err(lex_error(cursor, start_byte, start, "十六進位 escape 不合法"));
                },
            };
            advance(cursor, limits, start_byte, start)?;
            let low = match cursor.peek() {
                Some(b) => hex_digit(b),
                None => None,
            };
            let low = match low {
                Some(v) => v,
                None => {
                    return Err(lex_error(cursor, start_byte, start, "十六進位 escape 不合法"));
                },
            };
            push_literal_byte(&mut bytes, high * 16 + low, limits, cursor, start_byte, start)?;
            advance(cursor, limits, start_byte, start)?;
            proof {
                assert forall|e: int| cursor.offset <= e <= input.len() implies
                    #[trigger] short_body(input.subrange(body_start, e)) == bytes@ + short_body(input.subrange(cursor.offset as int, e)) by {
                    lemma_short_hex(input, o, e);
                    assert(bytes@ + short_body(input.subrange(cursor.offset as int, e)) =~= before + short_body(input.subrange(o, e)));
                }
            }
        } else if escape == 122u8 {
            advance(cursor, limits, start_byte, start)?;
            loop
                invariant
                    cursor.wf(),
                    cursor.input == old(cursor).input,
                    input == cursor.input@,
                    cursor.profile == old(cursor).profile,
                    start_byte == old(cursor).offset,
                    tokens@ == old(tokens)@,
                    body_start == start_byte + 1,
                    body_start <= o,
                    o + 2 <= cursor.offset,
                    input[o] == 92,
                    input[o + 1] == 122,
                    input[start_byte as int] == quote,
                    quote == 39 || quote == 34,
                    bytes@ == before,
                    forall|j: int| o + 2 <= j < cursor.offset ==> #[trigger] is_space_byte(input[j]),
                    forall|e: int| o <= e <= input.len() ==>
                        #[trigger] short_body(input.subrange(body_start, e)) == bytes@ + short_body(input.subrange(o, e)),
                ensures
                    cursor.offset == input.len() || !is_space_byte(input[cursor.offset as int]),
                decreases cursor.input@.len() - cursor.offset,
            {
                let space = match cursor.peek() {
                    Some(b) => is_space(b),
                    None => false,
                };
                if !space {
                    break;
                }
                advance(cursor, limits, start_byte, start)?;
            }
            proof {
                assert forall|e: int| cursor.offset <= e <= input.len() implies
                    #[trigger] short_body(input.subrange(body_start, e)) == bytes@ + short_body(input.subrange(cursor.offset as int, e)) by {
                    lemma_short_skip(input, o, cursor.offset as int, e);
                }
            }
        } else if 48u8 <= escape && escape <= 57u8 {
            let mut value: u16 = 0;
            let mut count: usize = 0;
            while count < 3
                invariant
                    cursor.wf(),
                    cursor.input == old(cursor).input,
                    input == cursor.input@,
                    cursor.profile == old(cursor).profile,
                    start_byte == old(cursor).offset,
                    tokens@ == old(tokens)@,
                    count <= 3,
                    value <= 255,
                    cursor.offset == o + 1 + count,
                    start_byte < o,
                    o + 1 < input.len(),
                    input[o + 1] == escape,
                    is_digit_byte(escape),
                    forall|j: int| o + 1 <= j < o + 1 + count ==> #[trigger] is_digit_byte(input[j]),
                    value == decimal_value(input.subrange(o + 1, o + 1 + count)),
                ensures
                    count >= 1,
                    count == 3 || cursor.offset == input.len() || !is_digit_byte(input[cursor.offset as int]),
                decreases 3 - count,
            {
                let digit = match cursor.peek() {
                    Some(b) => b,
                    None => {
                        break;
                    },
                };
                if !(48u8 <= digit && digit <= 57u8) {
                    break;
                }
                proof {
                    let run = input.subrange(o + 1, o + 2 + count);
                    assert(run.drop_last() =~= input.subrange(o + 1, o + 1 + count));
                    assert(run.last() == digit);
                }
                value = value * 10 + (digit - 48u8) as u16;
                if value > 255 {
                    return Err(lex_error(cursor, start_byte, start, "十進位 escape 超過 255"));
                }
                advance(cursor, limits, start_byte, start)?;
                count = count + 1;
            }
            push_literal_byte(&mut bytes, value as u8, limits, cursor, start_byte, start)?;
            proof {
                assert forall|e: int| cursor.offset <= e <= input.len() implies
                    #[trigger] short_body(input.subrange(body_start, e)) == bytes@ + short_body(input.subrange(cursor.offset as int, e)) by {
                    lemma_short_decimal(input, o, count as int, e);
                    assert(bytes@ + short_body(input.subrange(cursor.offset as int, e)) =~= before + short_body(input.subrange(o, e)));
                }
            }
        } else if escape == 10u8 || escape == 13u8 {
            push_literal_byte(&mut bytes, 10u8, limits, cursor, start_byte, start)?;
            advance(cursor, limits, start_byte, start)?;
            proof {
                assert forall|e: int| cursor.offset <= e <= input.len() implies
                    #[trigger] short_body(input.subrange(body_start, e)) == bytes@ + short_body(input.subrange(cursor.offset as int, e)) by {
                    lemma_short_newline(input, o, e);
                    assert(bytes@ + short_body(input.subrange(cursor.offset as int, e)) =~= before + short_body(input.subrange(o, e)));
                }
            }
        } else {
            return Err(lex_error(cursor, start_byte, start, "短字串 escape 不合法"));
        }
    }
}

/// One byte or newline of white space.
fn consume_space(cursor: &mut Cursor, limits: &CompileLimits) -> (r: Result<(), Diagnostic>)
    requires
        old(cursor).wf(),
        old(cursor).offset < old(cursor).input@.len(),
    ensures
        final(cursor).wf(),
        final(cursor).input == old(cursor).input,
        final(cursor).profile == old(cursor).profile,
        final(cursor).offset > old(cursor).offset,
        final(cursor).offset == old(cursor).offset + step_len(old(cursor).input@, old(cursor).offset as int),
        r matches Err(d) ==> lex_diagnostic(d),
{
    let start = cursor.position();
    let start_byte = cursor.offset();
    advance(cursor, limits, start_byte, start)
}

/// The tokens read so far: each matches the input, none is the end of
/// input, and they come in order before `offset`.
pub open spec fn tokens_before(input: Seq<u8>, profile: LanguageProfile, tokens: Seq<Token>, offset: int) -> bool {
    &&& forall|i: int| 0 <= i < tokens.len() ==> token_matches(input, profile, #[trigger] tokens[i])
    &&& forall|i: int| 0 <= i < tokens.len() ==> !((#[trigger] tokens[i]).kind is Eof) && tokens[i].span.end_byte <= offset
    &&& forall|i: int, j: int| 0 <= i < j < tokens.len() ==> (#[trigger] tokens[i]).span.end_byte <= (#[trigger] tokens[j]).span.start_byte
}

proof fn lemma_tokens_step(input: Seq<u8>, profile: LanguageProfile, old: Seq<Token>, new: Seq<Token>, lo: int, hi: int)
    requires
        tokens_before(input, profile, old, lo),
        extends_by_token(old, new, input, profile, lo, hi),
        lo <= hi,
    ensures
        tokens_before(input, profile, new, hi),
{
    if new.len() == old.len() {
        assert(new =~= old);
    } else {
        assert forall|i: int, j: int| 0 <= i < j < new.len() implies (#[trigger] new[i]).span.end_byte <= (#[trigger] new[j]).span.start_byte by {
            if j == old.len() {
                assert(new[i] == old[i]);
            } else {
                assert(new[i] == old[i] && new[j] == old[j]);
            }
        }
        assert forall|i: int| 0 <= i < new.len() implies token_matches(input, profile, #[trigger] new[i]) by {
            if i < old.len() {
                assert(new[i] == old[i]);
            }
        }
        assert forall|i: int| 0 <= i < new.len() implies !((#[trigger] new[i]).kind is Eof) && new[i].span.end_byte <= hi by {
            if i < old.len() {
                assert(new[i] == old[i]);
            }
        }
    }
}

/// The gaps before the tokens read so far hold nothing but white space and
/// comments, and the gap after the last of them does up to `offset`.
pub open spec fn gaps_before(input: Seq<u8>, tokens: Seq<Token>, offset: int) -> bool {
    &&& token_gap_start(tokens, tokens.len() as int) <= offset
    &&& forall|i: int| 0 <= i < tokens.len() ==> gap_ok(input.subrange(token_gap_start(tokens, i), (#[trigger] tokens[i]).span.start_byte as int))
    &&& forall|e: int| offset <= e <= input.len() ==>
        #[trigger] gap_ok(input.subrange(token_gap_start(tokens, tokens.len() as int), e)) == gap_ok(input.subrange(offset, e))
}

/// A token read at `o` up to `o2` closes the gap before it.
proof fn lemma_gap_token(input: Seq<u8>, old: Seq<Token>, new: Seq<Token>, o: int, o2: int)
    requires
        gaps_before(input, old, o),
        0 <= o <= o2 <= input.len(),
        token_gap_start(old, old.len() as int) >= 0,
        new.len() == old.len() + 1,
        forall|i: int| 0 <= i < old.len() ==> new[i] == old[i],
        new[old.len() as int].span.start_byte == o,
        new[old.len() as int].span.end_byte == o2,
    ensures
        gaps_before(input, new, o2),
{
    let gs = token_gap_start(old, old.len() as int);
    lemma_gap_empty(input, o);
    assert(gap_ok(input.subrange(gs, o)) == gap_ok(input.subrange(o, o)));
    assert forall|i: int| 0 <= i < new.len() implies gap_ok(input.subrange(token_gap_start(new, i), (#[trigger] new[i]).span.start_byte as int)) by {
        if i < old.len() {
            assert(new[i] == old[i]);
            if i > 0 {
                assert(new[i - 1] == old[i - 1]);
            }
            assert(token_gap_start(new, i) == token_gap_start(old, i));
        } else {
            if i > 0 {
                assert(new[i - 1] == old[i - 1]);
            }
            assert(token_gap_start(new, i) == gs);
        }
    }
}

/// Bytes from `o` to `o2` that belong to the gap.
proof fn lemma_gap_skip(input: Seq<u8>, tokens: Seq<Token>, o: int, o2: int)
    requires
        gaps_before(input, tokens, o),
        o <= o2 <= input.len(),
        forall|e: int| o2 <= e <= input.len() ==> #[trigger] gap_ok(input.subrange(o, e)) == gap_ok(input.subrange(o2, e)),
    ensures
        gaps_before(input, tokens, o2),
{
    assert forall|e: int| o2 <= e <= input.len() implies
        #[trigger] gap_ok(input.subrange(token_gap_start(tokens, tokens.len() as int), e)) == gap_ok(input.subrange(o2, e)) by {
        assert(gap_ok(input.subrange(token_gap_start(tokens, tokens.len() as int), e)) == gap_ok(input.subrange(o, e)));
        assert(gap_ok(input.subrange(o, e)) == gap_ok(input.subrange(o2, e)));
    }
}

/// Scans the whole input into tokens that end with the end of input.
pub fn scan(cursor: &mut Cursor, limits: &CompileLimits) -> (r: Result<crate::lexer::LexedChunk, Diagnostic>)
    requires
        old(cursor).wf(),
        old(cursor).offset == 0,
    ensures
        r matches Ok(c) ==> {
            &&& c.profile == old(cursor).profile
            &&& c.source_len == old(cursor).input@.len()
            &&& crate::lexer::tokens_match(old(cursor).input@, old(cursor).profile, c.tokens@)
            &&& 1 <= c.tokens@.len() <= limits.max_tokens
            &&& tokens_bounded(c.tokens@, limits.max_token_bytes)
        },
        old(cursor).input@.len() == 0 && old(cursor).line == 1 && old(cursor).column == 1 && limits.max_tokens >= 1 ==> (r matches Ok(c)
            && c.tokens@.len() == 1 && c.tokens@[0].kind is Eof && c.tokens@[0].span == (Span { start_byte: 0, end_byte: 0 })
            && c.tokens@[0].start == (SourcePosition { line: 1, column: 1 })),
        r matches Err(d) ==> lex_diagnostic(d),
{
    let ghost input = cursor.input@;
    let ghost profile = cursor.profile;
    let mut tokens: Vec<Token> = Vec::new();
    let len = cursor.input.len();
    while cursor.offset < len
        invariant
            cursor.wf(),
            cursor.input@ == input,
            cursor.input == old(cursor).input,
            cursor.profile == profile,
            profile == old(cursor).profile,
            len == input.len(),
            tokens_before(input, profile, tokens@, cursor.offset as int),
            gaps_before(input, tokens@, cursor.offset as int),
            token_gap_start(tokens@, tokens@.len() as int) >= 0,
            tokens@.len() <= limits.max_tokens,
            tokens_bounded(tokens@, limits.max_token_bytes),
            len == 0 ==> tokens@.len() == 0 && cursor.line == old(cursor).line && cursor.column == old(cursor).column,
        decreases len - cursor.offset,
    {
        let ghost before_cursor = *cursor;
        let ghost before_tokens = tokens@;
        let ghost o = cursor.offset as int;
        let byte = cursor.input[cursor.offset];
        if is_space(byte) {
            consume_space(cursor, limits)?;
            proof {
                lemma_tokens_step(input, profile, before_tokens, tokens@, before_cursor.offset as int, cursor.offset as int);
                assert forall|e: int| cursor.offset <= e <= input.len() implies #[trigger] gap_ok(input.subrange(o, e)) == gap_ok(input.subrange(cursor.offset as int, e)) by {
                    lemma_gap_space(input, o, e);
                    if cursor.offset == o + 2 {
                        lemma_gap_space(input, o + 1, e);
                    }
                }
                lemma_gap_skip(input, tokens@, o, cursor.offset as int);
            }
        } else if byte == 45u8 && cursor.peek_n(1) == Some(45u8) {
            scan_short_comment(cursor, limits)?;
            proof {
                lemma_tokens_step(input, profile, before_tokens, tokens@, before_cursor.offset as int, cursor.offset as int);
                lemma_gap_skip(input, tokens@, o, cursor.offset as int);
            }
        } else {
            if byte == 91u8 {
                match long_opening_separator(cursor) {
                    Ok(Some(equals)) => {
                        scan_long_string(cursor, limits, &mut tokens, equals)?;
                    },
                    Ok(None) => {
                        scan_symbol(cursor, limits, &mut tokens)?;
                    },
                    Err(()) => {
                        let start = cursor.position();
                        let start_byte = cursor.offset();
                        advance(cursor, limits, start_byte, start)?;
                        return Err(lex_error(cursor, start_byte, start, "long delimiter 不合法"));
                    },
                }
            } else if is_name_start(byte) {
                scan_name(cursor, limits, &mut tokens)?;
            } else if is_digit(byte) || (byte == 46u8 && match cursor.peek_n(1) {
                Some(next) => is_digit(next),
                None => false,
            }) {
                scan_number(cursor, limits, &mut tokens)?;
            } else if byte == 39u8 || byte == 34u8 {
                scan_short_string(cursor, limits, &mut tokens)?;
            } else {
                scan_symbol(cursor, limits, &mut tokens)?;
            }
            proof {
                lemma_tokens_step(input, profile, before_tokens, tokens@, before_cursor.offset as int, cursor.offset as int);
                lemma_gap_token(input, before_tokens, tokens@, o, cursor.offset as int);
            }
        }
    }
    let position = cursor.position();
    let end_token = Token {
        kind: TokenKind::Eof,
        span: Span { start_byte: cursor.offset(), end_byte: cursor.offset() },
        start: position,
        end: position,
        literal: None,
    };
    let ghost before_tokens = tokens@;
    push_token(&mut tokens, end_token, limits, cursor)?;
    proof {
        let ts = tokens@;
        assert(ts.len() == before_tokens.len() + 1);
        assert forall|i: int| 0 <= i < ts.len() implies token_matches(input, profile, #[trigger] ts[i]) by {
            if i < before_tokens.len() {
                assert(ts[i] == before_tokens[i]);
            }
        }
        assert forall|i: int, j: int| 0 <= i < j < ts.len() implies (#[trigger] ts[i]).span.end_byte <= (#[trigger] ts[j]).span.start_byte by {
            assert(ts[i] == before_tokens[i]);
            if j < before_tokens.len() {
                assert(ts[j] == before_tokens[j]);
            }
        }
        assert forall|i: int| 0 <= i < ts.len() implies ((#[trigger] ts[i]).kind is Eof <==> i == ts.len() - 1) by {
            if i < before_tokens.len() {
                assert(ts[i] == before_tokens[i]);
            }
        }
        lemma_gap_token(input, before_tokens, ts, len as int, len as int);
        assert forall|i: int| 0 <= i < ts.len() implies (#[trigger] ts[i]).span.end_byte - ts[i].span.start_byte <= limits.max_token_bytes by {
            if i < before_tokens.len() {
                assert(ts[i] == before_tokens[i]);
            }
        }
    }
    Ok(crate::lexer::LexedChunk { profile: cursor.profile(), source_len: cursor.offset(), tokens })
}

} // verus!
