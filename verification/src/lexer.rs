//! The byte-level Lua lexer: source limits, diagnostics, tokens and the
//! cursor that tracks byte offsets, lines and columns.

use vstd::prelude::*;

verus! {

/// A supported Lua language profile.
#[derive(Clone, Copy, Debug, PartialEq, Eq, Structural)]
pub enum LanguageProfile {
    Lua55,
    Lua54,
}

/// Fixed limits on untrusted compiler input.
#[derive(Clone, Copy, Debug, PartialEq, Eq, Structural)]
pub struct CompileLimits {
    pub max_source_bytes: usize,
    pub max_token_bytes: usize,
    pub max_tokens: usize,
    pub max_lines: usize,
    pub max_statements: usize,
    pub max_parse_depth: usize,
    pub max_list_entries: usize,
    pub max_ast_nodes: usize,
    pub max_parameters: usize,
    pub max_scope_depth: usize,
    pub max_gotos: usize,
    pub max_labels: usize,
    pub max_bindings_per_function: usize,
    pub max_upvalues_per_function: usize,
}

impl CompileLimits {
    /// The default limits.
    pub fn default_limits() -> (r: Self)
        ensures
            r.max_source_bytes == 1024 * 1024,
            r.max_token_bytes == 64 * 1024,
            r.max_tokens == 100_000,
            r.max_lines == 100_000,
            r.max_statements == 100_000,
            r.max_parse_depth == 200,
            r.max_list_entries == 100_000,
            r.max_ast_nodes == 1_000_000,
            r.max_parameters == 250,
            r.max_scope_depth == 200,
            r.max_gotos == 100_000,
            r.max_labels == 100_000,
            r.max_bindings_per_function == 100_000,
            r.max_upvalues_per_function == 255,
    {
        CompileLimits {
            max_source_bytes: 1024 * 1024,
            max_token_bytes: 64 * 1024,
            max_tokens: 100_000,
            max_lines: 100_000,
            max_statements: 100_000,
            max_parse_depth: 200,
            max_list_entries: 100_000,
            max_ast_nodes: 1_000_000,
            max_parameters: 250,
            max_scope_depth: 200,
            max_gotos: 100_000,
            max_labels: 100_000,
            max_bindings_per_function: 100_000,
            max_upvalues_per_function: 255,
        }
    }
}

impl Default for CompileLimits {
    fn default() -> (r: Self)
        ensures
            r.max_source_bytes == 1024 * 1024,
            r.max_token_bytes == 64 * 1024,
            r.max_tokens == 100_000,
            r.max_lines == 100_000,
            r.max_statements == 100_000,
            r.max_parse_depth == 200,
            r.max_list_entries == 100_000,
            r.max_ast_nodes == 1_000_000,
            r.max_parameters == 250,
            r.max_scope_depth == 200,
            r.max_gotos == 100_000,
            r.max_labels == 100_000,
            r.max_bindings_per_function == 100_000,
            r.max_upvalues_per_function == 255,
    {
        CompileLimits::default_limits()
    }
}

/// The class of a compiler diagnostic.
#[derive(Clone, Copy, Debug, PartialEq, Eq, Structural)]
pub enum DiagnosticCode {
    Lex,
    Parse,
    Resolve,
    CompileLimit,
}

/// A half-open range of source bytes.
#[derive(Clone, Copy, Debug, PartialEq, Eq, Structural)]
pub struct Span {
    pub start_byte: usize,
    pub end_byte: usize,
}

/// A one-based source position.
#[derive(Clone, Copy, Debug, PartialEq, Eq, Structural)]
pub struct SourcePosition {
    pub line: usize,
    pub column: usize,
}

/// A compiler diagnostic; it does not hold the input.
#[derive(Clone, Copy, Debug, PartialEq, Eq)]
pub struct Diagnostic {
    pub code: DiagnosticCode,
    pub span: Span,
    pub start: SourcePosition,
    pub end: SourcePosition,
    pub message: &'static str,
}

#[derive(Clone, Copy, Debug, PartialEq, Eq, Structural)]
pub enum Keyword {
    And,
    Break,
    Do,
    Else,
    ElseIf,
    End,
    False,
    For,
    Function,
    Goto,
    If,
    In,
    Local,
    Nil,
    Not,
    Or,
    Repeat,
    Return,
    Then,
    True,
    Until,
    While,
    Global,
}

#[derive(Clone, Copy, Debug, PartialEq, Eq, Structural)]
pub enum Symbol {
    Plus,
    Minus,
    Star,
    Slash,
    FloorSlash,
    Percent,
    Caret,
    Hash,
    Ampersand,
    Pipe,
    Tilde,
    ShiftLeft,
    ShiftRight,
    EqualEqual,
    NotEqual,
    Less,
    LessEqual,
    Greater,
    GreaterEqual,
    Assign,
    OpenParen,
    CloseParen,
    OpenBrace,
    CloseBrace,
    OpenBracket,
    CloseBracket,
    Semicolon,
    Colon,
    DoubleColon,
    Comma,
    Dot,
    Concat,
    Vararg,
}

/// The payload of a name, numeral or string token.  A float numeral keeps
/// its text; its value as a double is computed outside the lexer.
#[derive(Clone, Debug, PartialEq, Eq)]
pub enum Literal {
    Name(Vec<u8>),
    Integer(i64),
    Float(Vec<u8>),
    String(Vec<u8>),
}

#[derive(Clone, Copy, Debug, PartialEq, Eq, Structural)]
pub enum TokenKind {
    Eof,
    Keyword(Keyword),
    Name,
    Integer,
    Float,
    String,
    Symbol(Symbol),
}

#[derive(Clone, Debug, PartialEq, Eq)]
pub struct Token {
    pub kind: TokenKind,
    pub span: Span,
    pub start: SourcePosition,
    pub end: SourcePosition,
    pub literal: Option<Literal>,
}

/// The tokens of one successful lex; the last one is the end of input.
#[derive(Clone, Debug, PartialEq, Eq)]
pub struct LexedChunk {
    pub profile: LanguageProfile,
    pub source_len: usize,
    pub tokens: Vec<Token>,
}

pub open spec fn is_space_byte(b: u8) -> bool {
    b == 32 || b == 9 || b == 11 || b == 12 || b == 10 || b == 13
}

pub open spec fn is_digit_byte(b: u8) -> bool {
    48 <= b <= 57
}

pub open spec fn is_hex_digit_byte(b: u8) -> bool {
    is_digit_byte(b) || (97 <= b <= 102) || (65 <= b <= 70)
}

pub open spec fn is_name_start_byte(b: u8) -> bool {
    (65 <= b <= 90) || (97 <= b <= 122) || b == 95
}

pub open spec fn is_name_continue_byte(b: u8) -> bool {
    is_name_start_byte(b) || is_digit_byte(b)
}

/// A Lua name: a letter or underscore, then letters, digits and underscores.
pub open spec fn is_name_text(text: Seq<u8>) -> bool {
    &&& text.len() > 0
    &&& is_name_start_byte(text[0])
    &&& forall|i: int| 0 <= i < text.len() ==> is_name_continue_byte(#[trigger] text[i])
}

/// The keyword a name spells under a profile; `global` is a keyword of
/// Lua 5.5 only.
pub open spec fn keyword_of(text: Seq<u8>, profile: LanguageProfile) -> Option<Keyword> {
    if text == seq![97u8, 110u8, 100u8] {
        Some(Keyword::And)
    } else if text == seq![98u8, 114u8, 101u8, 97u8, 107u8] {
        Some(Keyword::Break)
    } else if text == seq![100u8, 111u8] {
        Some(Keyword::Do)
    } else if text == seq![101u8, 108u8, 115u8, 101u8] {
        Some(Keyword::Else)
    } else if text == seq![101u8, 108u8, 115u8, 101u8, 105u8, 102u8] {
        Some(Keyword::ElseIf)
    } else if text == seq![101u8, 110u8, 100u8] {
        Some(Keyword::End)
    } else if text == seq![102u8, 97u8, 108u8, 115u8, 101u8] {
        Some(Keyword::False)
    } else if text == seq![102u8, 111u8, 114u8] {
        Some(Keyword::For)
    } else if text == seq![102u8, 117u8, 110u8, 99u8, 116u8, 105u8, 111u8, 110u8] {
        Some(Keyword::Function)
    } else if text == seq![103u8, 111u8, 116u8, 111u8] {
        Some(Keyword::Goto)
    } else if text == seq![105u8, 102u8] {
        Some(Keyword::If)
    } else if text == seq![105u8, 110u8] {
        Some(Keyword::In)
    } else if text == seq![108u8, 111u8, 99u8, 97u8, 108u8] {
        Some(Keyword::Local)
    } else if text == seq![110u8, 105u8, 108u8] {
        Some(Keyword::Nil)
    } else if text == seq![110u8, 111u8, 116u8] {
        Some(Keyword::Not)
    } else if text == seq![111u8, 114u8] {
        Some(Keyword::Or)
    } else if text == seq![114u8, 101u8, 112u8, 101u8, 97u8, 116u8] {
        Some(Keyword::Repeat)
    } else if text == seq![114u8, 101u8, 116u8, 117u8, 114u8, 110u8] {
        Some(Keyword::Return)
    } else if text == seq![116u8, 104u8, 101u8, 110u8] {
        Some(Keyword::Then)
    } else if text == seq![116u8, 114u8, 117u8, 101u8] {
        Some(Keyword::True)
    } else if text == seq![117u8, 110u8, 116u8, 105u8, 108u8] {
        Some(Keyword::Until)
    } else if text == seq![119u8, 104u8, 105u8, 108u8, 101u8] {
        Some(Keyword::While)
    } else if text == seq![103u8, 108u8, 111u8, 98u8, 97u8, 108u8] && profile == LanguageProfile::Lua55 {
        Some(Keyword::Global)
    } else {
        None
    }
}

/// The spelling of a symbol.
pub open spec fn symbol_text(s: Symbol) -> Seq<u8> {
    match s {
        Symbol::Plus => seq![43u8],
        Symbol::Minus => seq![45u8],
        Symbol::Star => seq![42u8],
        Symbol::Slash => seq![47u8],
        Symbol::FloorSlash => seq![47u8, 47u8],
        Symbol::Percent => seq![37u8],
        Symbol::Caret => seq![94u8],
        Symbol::Hash => seq![35u8],
        Symbol::Ampersand => seq![38u8],
        Symbol::Pipe => seq![124u8],
        Symbol::Tilde => seq![126u8],
        Symbol::ShiftLeft => seq![60u8, 60u8],
        Symbol::ShiftRight => seq![62u8, 62u8],
        Symbol::EqualEqual => seq![61u8, 61u8],
        Symbol::NotEqual => seq![126u8, 61u8],
        Symbol::Less => seq![60u8],
        Symbol::LessEqual => seq![60u8, 61u8],
        Symbol::Greater => seq![62u8],
        Symbol::GreaterEqual => seq![62u8, 61u8],
        Symbol::Assign => seq![61u8],
        Symbol::OpenParen => seq![40u8],
        Symbol::CloseParen => seq![41u8],
        Symbol::OpenBrace => seq![123u8],
        Symbol::CloseBrace => seq![125u8],
        Symbol::OpenBracket => seq![91u8],
        Symbol::CloseBracket => seq![93u8],
        Symbol::Semicolon => seq![59u8],
        Symbol::Colon => seq![58u8],
        Symbol::DoubleColon => seq![58u8, 58u8],
        Symbol::Comma => seq![44u8],
        Symbol::Dot => seq![46u8],
        Symbol::Concat => seq![46u8, 46u8],
        Symbol::Vararg => seq![46u8, 46u8, 46u8],
    }
}

/// The value of a run of decimal digits.
pub open spec fn decimal_value(digits: Seq<u8>) -> int
    decreases digits.len(),
{
    if digits.len() == 0 {
        0
    } else {
        decimal_value(digits.drop_last()) * 10 + (digits.last() - 48)
    }
}

pub open spec fn hex_digit_value(b: u8) -> int {
    if is_digit_byte(b) {
        b - 48
    } else if 97 <= b <= 102 {
        b - 87
    } else {
        b - 55
    }
}

/// The value of a run of hexadecimal digits.
pub open spec fn hex_value(digits: Seq<u8>) -> int
    decreases digits.len(),
{
    if digits.len() == 0 {
        0
    } else {
        hex_value(digits.drop_last()) * 16 + hex_digit_value(digits.last())
    }
}

pub open spec fn all_digits(text: Seq<u8>) -> bool {
    forall|i: int| 0 <= i < text.len() ==> is_digit_byte(#[trigger] text[i])
}

pub open spec fn all_hex_digits(text: Seq<u8>) -> bool {
    forall|i: int| 0 <= i < text.len() ==> is_hex_digit_byte(#[trigger] text[i])
}

/// `0x` or `0X`.
pub open spec fn is_hex_prefix(text: Seq<u8>) -> bool {
    text.len() >= 2 && text[0] == 48 && (text[1] == 120 || text[1] == 88)
}

/// The integer value of an integer numeral: decimal digits that fit in 64
/// bits, or hexadecimal digits taken modulo 2^64 as a two's-complement value.
pub open spec fn integer_numeral_value(text: Seq<u8>, v: i64) -> bool {
    ||| (text.len() > 0 && all_digits(text) && decimal_value(text) <= i64::MAX && v == decimal_value(text))
    ||| (is_hex_prefix(text) && all_hex_digits(text.subrange(2, text.len() as int))
        && v as int == (if hex_value(text.subrange(2, text.len() as int)) % 0x1_0000_0000_0000_0000 >= 0x8000_0000_0000_0000 {
            hex_value(text.subrange(2, text.len() as int)) % 0x1_0000_0000_0000_0000 - 0x1_0000_0000_0000_0000
        } else {
            hex_value(text.subrange(2, text.len() as int)) % 0x1_0000_0000_0000_0000
        }))
}

/// A decimal digit, or a hexadecimal one when `hex`.
pub open spec fn digit_of(b: u8, hex: bool) -> bool {
    if hex { is_hex_digit_byte(b) } else { is_digit_byte(b) }
}

/// `t[lo..hi]` is a run of digits.
pub open spec fn run_of(t: Seq<u8>, lo: int, hi: int, hex: bool) -> bool {
    &&& 0 <= lo <= hi <= t.len()
    &&& forall|k: int| lo <= k < hi ==> digit_of(#[trigger] t[k], hex)
}

/// An exponent from `j` to the end of `t`: `e` or `E` (`p` or `P` after
/// `0x`), an optional sign, and at least one decimal digit.
pub open spec fn exponent_at(t: Seq<u8>, j: int, hex: bool) -> bool {
    &&& 0 <= j < t.len()
    &&& (if hex { t[j] == 112 || t[j] == 80 } else { t[j] == 101 || t[j] == 69 })
    &&& {
        ||| (j + 1 < t.len() && (t[j + 1] == 43 || t[j + 1] == 45) && j + 2 < t.len() && run_of(t, j + 2, t.len() as int, false))
        ||| (j + 1 < t.len() && run_of(t, j + 1, t.len() as int, false))
    }
}

/// The shape of a numeral after its prefix (which ends at `s`): digits up
/// to `i`, then either nothing or a point and digits up to `j`, with at
/// least one digit in all, then either the end or an exponent.
pub open spec fn numeral_shape(t: Seq<u8>, s: int, hex: bool, i: int, j: int) -> bool {
    &&& run_of(t, s, i, hex)
    &&& (j == i || (i < j && t[i] == 46 && run_of(t, i + 1, j, hex)))
    &&& (i - s) + (if j > i { j - i - 1 } else { 0 }) >= 1
    &&& (j == t.len() || exponent_at(t, j, hex))
}

/// A Lua numeral: `0x` or `0X` and hexadecimal digits with an optional
/// fraction and binary exponent, or decimal digits with an optional
/// fraction and exponent.
pub open spec fn numeral_text(t: Seq<u8>) -> bool {
    if is_hex_prefix(t) {
        exists|i: int, j: int| numeral_shape(t, 2, true, i, j)
    } else {
        exists|i: int, j: int| numeral_shape(t, 0, false, i, j)
    }
}

/// No name byte follows position `end`: a name, keyword or numeral that
/// ends there takes its whole word.
pub open spec fn ends_word(input: Seq<u8>, end: int) -> bool {
    end == input.len() || !is_name_continue_byte(input[end])
}

/// No longer symbol begins with symbol `s` and the byte at `end`.
pub open spec fn ends_symbol(input: Seq<u8>, s: Symbol, end: int) -> bool {
    end == input.len() || forall|s2: Symbol| #[trigger] symbol_text(s2) != symbol_text(s).push(input[end])
}

/// A token matches the input: its range holds exactly its text, a name,
/// keyword, numeral or symbol is the longest one that starts there, and its
/// value is what the text denotes.
pub open spec fn token_matches(input: Seq<u8>, profile: LanguageProfile, t: Token) -> bool {
    let text = input.subrange(t.span.start_byte as int, t.span.end_byte as int);
    let end = t.span.end_byte as int;
    &&& t.span.start_byte <= t.span.end_byte <= input.len()
    &&& match t.kind {
        TokenKind::Eof => t.span.start_byte == input.len() && t.literal is None,
        TokenKind::Keyword(k) => keyword_of(text, profile) == Some(k) && is_name_text(text) && t.literal is None && ends_word(input, end),
        TokenKind::Name => is_name_text(text) && keyword_of(text, profile) is None && (t.literal matches Some(Literal::Name(v)) && v@ == text)
            && ends_word(input, end),
        TokenKind::Integer => t.literal matches Some(Literal::Integer(v)) && integer_numeral_value(text, v) && ends_word(input, end),
        TokenKind::Float => t.literal matches Some(Literal::Float(v)) && v@ == text && numeral_text(text)
            && (forall|w: i64| !integer_numeral_value(text, w)) && ends_word(input, end),
        TokenKind::String => t.literal matches Some(Literal::String(v)) && crate::literal::string_literal_value(text, v@),
        TokenKind::Symbol(s) => text == symbol_text(s) && t.literal is None && ends_symbol(input, s, end),
    }
}

/// Where the gap before token `i` starts: at the start of the input, or
/// where the token before it ends.
pub open spec fn token_gap_start(tokens: Seq<Token>, i: int) -> int {
    if i == 0 {
        0
    } else {
        tokens[i - 1].span.end_byte as int
    }
}

/// A token stream of one input: every token matches the input, the tokens
/// come in order without overlapping, nothing but white space and comments
/// lies before each of them, and the end of input is the last token and
/// only the last.
pub open spec fn tokens_match(input: Seq<u8>, profile: LanguageProfile, tokens: Seq<Token>) -> bool {
    &&& forall|i: int| 0 <= i < tokens.len() ==> token_matches(input, profile, #[trigger] tokens[i])
    &&& forall|i: int, j: int| 0 <= i < j < tokens.len() ==> (#[trigger] tokens[i]).span.end_byte <= (#[trigger] tokens[j]).span.start_byte
    &&& forall|i: int| 0 <= i < tokens.len() ==> ((#[trigger] tokens[i]).kind is Eof <==> i == tokens.len() - 1)
    &&& forall|i: int| 0 <= i < tokens.len() ==> crate::trivia::gap_ok(input.subrange(token_gap_start(tokens, i), (#[trigger] tokens[i]).span.start_byte as int))
}

/// Whether `name` holds exactly the bytes of `lit`.
pub(crate) fn bytes_equal(name: &Vec<u8>, lit: &[u8]) -> (r: bool)
    ensures
        r == (name@ == lit@),
{
    if name.len() != lit.len() {
        return false;
    }
    let mut i: usize = 0;
    while i < name.len()
        invariant
            name@.len() == lit@.len(),
            i <= name@.len(),
            forall|k: int| 0 <= k < i ==> name@[k] == lit@[k],
        decreases name.len() - i,
    {
        if name[i] != lit[i] {
            return false;
        }
        i = i + 1;
    }
    assert(name@ =~= lit@);
    true
}

/// The keyword that `name` spells under `profile`.
pub(crate) fn keyword(name: &Vec<u8>, profile: LanguageProfile) -> (r: Option<Keyword>)
    ensures
        r == keyword_of(name@, profile),
{
    if bytes_equal(name, &[97u8, 110u8, 100u8]) {
        return Some(Keyword::And);
    }
    if bytes_equal(name, &[98u8, 114u8, 101u8, 97u8, 107u8]) {
        return Some(Keyword::Break);
    }
    if bytes_equal(name, &[100u8, 111u8]) {
        return Some(Keyword::Do);
    }
    if bytes_equal(name, &[101u8, 108u8, 115u8, 101u8]) {
        return Some(Keyword::Else);
    }
    if bytes_equal(name, &[101u8, 108u8, 115u8, 101u8, 105u8, 102u8]) {
        return Some(Keyword::ElseIf);
    }
    if bytes_equal(name, &[101u8, 110u8, 100u8]) {
        return Some(Keyword::End);
    }
    if bytes_equal(name, &[102u8, 97u8, 108u8, 115u8, 101u8]) {
        return Some(Keyword::False);
    }
    if bytes_equal(name, &[102u8, 111u8, 114u8]) {
        return Some(Keyword::For);
    }
    if bytes_equal(name, &[102u8, 117u8, 110u8, 99u8, 116u8, 105u8, 111u8, 110u8]) {
        return Some(Keyword::Function);
    }
    if bytes_equal(name, &[103u8, 111u8, 116u8, 111u8]) {
        return Some(Keyword::Goto);
    }
    if bytes_equal(name, &[105u8, 102u8]) {
        return Some(Keyword::If);
    }
    if bytes_equal(name, &[105u8, 110u8]) {
        return Some(Keyword::In);
    }
    if bytes_equal(name, &[108u8, 111u8, 99u8, 97u8, 108u8]) {
        return Some(Keyword::Local);
    }
    if bytes_equal(name, &[110u8, 105u8, 108u8]) {
        return Some(Keyword::Nil);
    }
    if bytes_equal(name, &[110u8, 111u8, 116u8]) {
        return Some(Keyword::Not);
    }
    if bytes_equal(name, &[111u8, 114u8]) {
        return Some(Keyword::Or);
    }
    if bytes_equal(name, &[114u8, 101u8, 112u8, 101u8, 97u8, 116u8]) {
        return Some(Keyword::Repeat);
    }
    if bytes_equal(name, &[114u8, 101u8, 116u8, 117u8, 114u8, 110u8]) {
        return Some(Keyword::Return);
    }
    if bytes_equal(name, &[116u8, 104u8, 101u8, 110u8]) {
        return Some(Keyword::Then);
    }
    if bytes_equal(name, &[116u8, 114u8, 117u8, 101u8]) {
        return Some(Keyword::True);
    }
    if bytes_equal(name, &[117u8, 110u8, 116u8, 105u8, 108u8]) {
        return Some(Keyword::Until);
    }
    if bytes_equal(name, &[119u8, 104u8, 105u8, 108u8, 101u8]) {
        return Some(Keyword::While);
    }
    if bytes_equal(name, &[103u8, 108u8, 111u8, 98u8, 97u8, 108u8]) && profile == LanguageProfile::Lua55 {
        return Some(Keyword::Global);
    }
    None
}

/// Scans raw bytes into tokens; the input is not required to be UTF-8.
/// Every token matches the bytes it spans and spans at most the token byte
/// limit, the tokens come in order with nothing but white space and
/// comments before each of them, and the last one is the end of input.
pub fn lex(input: &[u8], profile: LanguageProfile, limits: &CompileLimits) -> (r: Result<LexedChunk, Diagnostic>)
    ensures
        input@.len() > limits.max_source_bytes ==> (r matches Err(d) && d.code == DiagnosticCode::CompileLimit
            && d.span == (Span { start_byte: 0, end_byte: 0 })
            && d.start == (SourcePosition { line: 1, column: 1 }) && d.end == (SourcePosition { line: 1, column: 1 })),
        r matches Err(d) ==> d.code == DiagnosticCode::Lex || d.code == DiagnosticCode::CompileLimit,
        input@.len() == 0 && limits.max_tokens >= 1 ==> (r matches Ok(c) && c.tokens@.len() == 1
            && c.tokens@[0].kind is Eof && c.tokens@[0].span == (Span { start_byte: 0, end_byte: 0 })
            && c.tokens@[0].start == (SourcePosition { line: 1, column: 1 })),
        r matches Ok(c) ==> {
            &&& input@.len() <= limits.max_source_bytes
            &&& c.profile == profile
            &&& c.source_len == input@.len()
            &&& tokens_match(input@, profile, c.tokens@)
            &&& 1 <= c.tokens@.len() <= limits.max_tokens
            &&& forall|i: int| 0 <= i < c.tokens@.len() ==> (#[trigger] c.tokens@[i]).span.end_byte - c.tokens@[i].span.start_byte <= limits.max_token_bytes
        },
{
    if input.len() > limits.max_source_bytes {
        return Err(Diagnostic {
            code: DiagnosticCode::CompileLimit,
            span: Span { start_byte: 0, end_byte: 0 },
            start: SourcePosition { line: 1, column: 1 },
            end: SourcePosition { line: 1, column: 1 },
            message: "來源超過編譯限制",
        });
    }
    let mut cursor = crate::cursor::Cursor::new(input, profile);
    crate::scanner::scan(&mut cursor, limits)
}

} // verus!
