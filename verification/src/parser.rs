//! The recursive-descent parser: it consumes the token stream of one lex and
//! builds the syntax tree, within the parse limits.

use vstd::prelude::*;
use crate::ast::{
    Attribute, BinaryOp, Block, Expr, FieldSeparator, FunctionBody, GlobalDeclaration, LocalName,
    MethodName, Module, Stmt, TableField, UnaryOp, Vararg, block_wf, body_wf, expr_span, expr_wf,
    exprs_wf, field_wf, is_assignable, stmt_wf, binary_priority, operand_fits, right_associative, unary_spelling,
    binary_spelling,
};
use crate::lexer::{
    CompileLimits, Diagnostic, DiagnosticCode, Keyword, LanguageProfile, LexedChunk, Literal,
    SourcePosition, Span, Symbol, Token, TokenKind, symbol_text, token_matches, tokens_match,
};

verus! {

/// A numeral or string token carries its payload.
pub open spec fn payload_present(t: Token) -> bool {
    (t.kind is Integer || t.kind is Float || t.kind is String) ==> t.literal is Some
}

/// What the parser needs of a token stream: a non-empty stream ends with
/// the end of input, and every numeral and string token has its payload.
/// Every stream that `lex` returns is such a stream.
pub open spec fn stream_well_formed(tokens: Seq<Token>) -> bool {
    &&& tokens.len() > 0 ==> tokens.last().kind is Eof
    &&& forall|i: int| 0 <= i < tokens.len() ==> payload_present(#[trigger] tokens[i])
}

/// Every token stream that `lex` can return is one the parser accepts as
/// input: lexing and parsing compose without a further check.
pub proof fn lemma_lexed_stream_well_formed(input: Seq<u8>, profile: LanguageProfile, tokens: Seq<Token>)
    requires
        tokens_match(input, profile, tokens),
    ensures
        stream_well_formed(tokens),
{
    if tokens.len() > 0 {
        assert(tokens[tokens.len() - 1].kind is Eof);
    }
    assert forall|i: int| 0 <= i < tokens.len() implies payload_present(#[trigger] tokens[i]) by {
        assert(token_matches(input, profile, tokens[i]));
    }
}

/// A statement begins with the token that names its kind: its keyword, `::`
/// for a label, `;` for an empty statement; an assignment or a call begins
/// with none of these.
pub open spec fn leads(k: TokenKind, s: Stmt) -> bool {
    match s {
        Stmt::While { .. } => k == TokenKind::Keyword(Keyword::While),
        Stmt::Repeat { .. } => k == TokenKind::Keyword(Keyword::Repeat),
        Stmt::If { .. } => k == TokenKind::Keyword(Keyword::If),
        Stmt::NumericFor { .. } | Stmt::GenericFor { .. } => k == TokenKind::Keyword(Keyword::For),
        Stmt::Function { .. } => k == TokenKind::Keyword(Keyword::Function),
        Stmt::Local { .. } | Stmt::LocalFunction { .. } => k == TokenKind::Keyword(Keyword::Local),
        Stmt::Global { .. } => k == TokenKind::Keyword(Keyword::Global),
        Stmt::Do { .. } => k == TokenKind::Keyword(Keyword::Do),
        Stmt::Return { .. } => k == TokenKind::Keyword(Keyword::Return),
        Stmt::Break { .. } => k == TokenKind::Keyword(Keyword::Break),
        Stmt::Goto { .. } => k == TokenKind::Keyword(Keyword::Goto),
        Stmt::Label { .. } => k == TokenKind::Symbol(Symbol::DoubleColon),
        Stmt::Empty { .. } => k == TokenKind::Symbol(Symbol::Semicolon),
        Stmt::Assignment { .. } | Stmt::Call { .. } => {
            &&& k != TokenKind::Keyword(Keyword::While) && k != TokenKind::Keyword(Keyword::Repeat)
            &&& k != TokenKind::Keyword(Keyword::If) && k != TokenKind::Keyword(Keyword::For)
            &&& k != TokenKind::Keyword(Keyword::Function) && k != TokenKind::Keyword(Keyword::Local)
            &&& k != TokenKind::Keyword(Keyword::Global) && k != TokenKind::Keyword(Keyword::Do)
            &&& k != TokenKind::Keyword(Keyword::Return) && k != TokenKind::Keyword(Keyword::Break)
            &&& k != TokenKind::Keyword(Keyword::Goto) && k != TokenKind::Symbol(Symbol::DoubleColon)
            &&& k != TokenKind::Symbol(Symbol::Semicolon)
        },
    }
}

/// The bytes of a symbol or of an operator keyword (`not`, `and`, `or`).
pub open spec fn token_spelling(k: TokenKind) -> Option<Seq<u8>> {
    match k {
        TokenKind::Symbol(s) => Some(symbol_text(s)),
        TokenKind::Keyword(Keyword::Not) => Some(seq![110u8, 111u8, 116u8]),
        TokenKind::Keyword(Keyword::And) => Some(seq![97u8, 110u8, 100u8]),
        TokenKind::Keyword(Keyword::Or) => Some(seq![111u8, 114u8]),
        _ => None,
    }
}

/// Statement `s` begins at a token of `tokens` that names its kind.
pub open spec fn statement_led(tokens: Seq<Token>, s: Stmt) -> bool {
    exists|j: int| 0 <= j < tokens.len() && tokens[j].span.start_byte == crate::ast::stmt_span(s).start_byte
        && #[trigger] leads(tokens[j].kind, s)
}

/// The diagnostics the parser can give.
pub open spec fn parse_diagnostic(d: Diagnostic) -> bool {
    d.code is Parse || d.code is CompileLimit
}

struct Parser<'a> {
    tokens: &'a [Token],
    index: usize,
    limits: CompileLimits,
    nodes: usize,
    depth: usize,
    statements: usize,
    profile: LanguageProfile,
}

impl<'a> Parser<'a> {
    /// The position stays on a token of a well-formed stream and every
    /// counter stays within its limit.
    spec fn inv(&self) -> bool {
        &&& 1 <= self.tokens@.len() <= usize::MAX
        &&& stream_well_formed(self.tokens@)
        &&& self.index < self.tokens@.len()
        &&& self.depth <= self.limits.max_parse_depth
        &&& self.nodes <= self.limits.max_ast_nodes
        &&& self.statements <= self.limits.max_statements
    }

    spec fn token(&self) -> Token {
        self.tokens@[self.index as int]
    }
}

/// One parser state follows another: same input, limits and profile, the
/// invariant kept, and the position and counters never move back.
spec fn moved_on(before: Parser, after: Parser) -> bool {
    &&& after.tokens == before.tokens
    &&& after.limits == before.limits
    &&& after.profile == before.profile
    &&& after.inv()
    &&& before.index <= after.index
    &&& before.nodes <= after.nodes
    &&& before.statements <= after.statements
}

fn join(a: Span, b: Span) -> (r: Span)
    ensures
        r == (Span { start_byte: a.start_byte, end_byte: b.end_byte }),
{
    Span { start_byte: a.start_byte, end_byte: b.end_byte }
}

fn diagnostic(t: Option<&Token>, code: DiagnosticCode, message: &'static str) -> (r: Diagnostic)
    ensures
        r.code == code,
        t matches Some(t) ==> r.span == t.span,
        t is None ==> r.span == (Span { start_byte: 0, end_byte: 0 }),
{
    match t {
        Some(t) => Diagnostic { code, span: t.span, start: t.start, end: t.end, message },
        None => Diagnostic {
            code,
            span: Span { start_byte: 0, end_byte: 0 },
            start: SourcePosition { line: 1, column: 1 },
            end: SourcePosition { line: 1, column: 1 },
            message,
        },
    }
}

/// The name a name token carries, if it carries one.
fn name_payload(t: &Token) -> (r: Option<Vec<u8>>) {
    match &t.literal {
        Some(Literal::Name(n)) => Some(n.clone()),
        _ => None,
    }
}

/// The payload of a numeral or string token.
fn token_literal(t: &Token) -> (r: Literal)
    requires
        t.literal is Some,
{
    match &t.literal {
        Some(Literal::Name(v)) => Literal::Name(v.clone()),
        Some(Literal::Integer(v)) => Literal::Integer(*v),
        Some(Literal::Float(v)) => Literal::Float(v.clone()),
        Some(Literal::String(v)) => Literal::String(v.clone()),
        None => Literal::Integer(0),
    }
}

/// The binary operator a token stands for, if any.
pub open spec fn operator_of(kind: TokenKind) -> Option<BinaryOp> {
    match kind {
        TokenKind::Keyword(Keyword::Or) => Some(BinaryOp::Or),
        TokenKind::Keyword(Keyword::And) => Some(BinaryOp::And),
        TokenKind::Symbol(s) => match s {
            Symbol::Caret => Some(BinaryOp::Power),
            Symbol::Concat => Some(BinaryOp::Concat),
            Symbol::Plus => Some(BinaryOp::Add),
            Symbol::Minus => Some(BinaryOp::Subtract),
            Symbol::Star => Some(BinaryOp::Multiply),
            Symbol::Slash => Some(BinaryOp::Divide),
            Symbol::FloorSlash => Some(BinaryOp::FloorDivide),
            Symbol::Percent => Some(BinaryOp::Modulo),
            Symbol::EqualEqual => Some(BinaryOp::Equal),
            Symbol::NotEqual => Some(BinaryOp::NotEqual),
            Symbol::Less => Some(BinaryOp::Less),
            Symbol::LessEqual => Some(BinaryOp::LessEqual),
            Symbol::Greater => Some(BinaryOp::Greater),
            Symbol::GreaterEqual => Some(BinaryOp::GreaterEqual),
            Symbol::Pipe => Some(BinaryOp::Pipe),
            Symbol::Tilde => Some(BinaryOp::BitXor),
            Symbol::Ampersand => Some(BinaryOp::Ampersand),
            Symbol::ShiftLeft => Some(BinaryOp::ShiftLeft),
            Symbol::ShiftRight => Some(BinaryOp::ShiftRight),
            _ => None,
        },
        _ => None,
    }
}

/// A token stands for a binary operator exactly when it is spelled as one,
/// and then for the operator so spelled.
pub proof fn lemma_spelled_operator(kind: TokenKind)
    ensures
        forall|op: BinaryOp| operator_of(kind) == Some(op) <==> token_spelling(kind) == Some(#[trigger] binary_spelling(op)),
{
    assert forall|op: BinaryOp| operator_of(kind) == Some(op) <==> token_spelling(kind) == Some(#[trigger] binary_spelling(op)) by {
        if token_spelling(kind) == Some(binary_spelling(op)) {
            let t = binary_spelling(op);
            match kind {
                TokenKind::Symbol(s) => {
                    assert(symbol_text(s) == t);
                    assert(symbol_text(s).len() == t.len());
                    assert(symbol_text(s)[0] == t[0]);
                    if t.len() >= 2 {
                        assert(symbol_text(s)[1] == t[1]);
                    }
                    if symbol_text(s).len() >= 2 {
                        assert(symbol_text(s)[1] == t[1]);
                    }
                },
                TokenKind::Keyword(w) => {
                    assert(t.len() >= 2 ==> t[1] == token_spelling(kind).unwrap()[1]);
                    assert(t[0] == token_spelling(kind).unwrap()[0]);
                },
                _ => {},
            }
        }
    }
}

/// A token spells at most one unary operator: `-`, `not`, `#` and `~` are
/// four different spellings.
pub proof fn lemma_spelled_unary(kind: TokenKind, a: UnaryOp, b: UnaryOp)
    requires
        token_spelling(kind) == Some(unary_spelling(a)),
        token_spelling(kind) == Some(unary_spelling(b)),
    ensures
        a == b,
{
    assert(unary_spelling(a)[0] == unary_spelling(b)[0]);
}

/// The operator, priority and right associativity of a binary operator
/// token.
fn binary_operator(kind: TokenKind) -> (r: Option<(BinaryOp, u8, bool)>)
    ensures
        r == (match operator_of(kind) {
            Some(op) => Some((op, binary_priority(op) as u8, right_associative(op))),
            None => None,
        }),
        r matches Some(t) ==> 1 <= t.1 <= 13,
        r matches Some(t) ==> token_spelling(kind) == Some(binary_spelling(t.0)),
        (exists|op: BinaryOp| token_spelling(kind) == Some(#[trigger] binary_spelling(op))) ==> r is Some,
{
    proof {
        lemma_spelled_operator(kind);
    }
    match kind {
        TokenKind::Keyword(Keyword::Or) => Some((BinaryOp::Or, 1, false)),
        TokenKind::Keyword(Keyword::And) => Some((BinaryOp::And, 2, false)),
        TokenKind::Symbol(s) => match s {
            Symbol::Caret => Some((BinaryOp::Power, 13, true)),
            Symbol::Concat => Some((BinaryOp::Concat, 8, true)),
            Symbol::Plus => Some((BinaryOp::Add, 9, false)),
            Symbol::Minus => Some((BinaryOp::Subtract, 9, false)),
            Symbol::Star => Some((BinaryOp::Multiply, 10, false)),
            Symbol::Slash => Some((BinaryOp::Divide, 10, false)),
            Symbol::FloorSlash => Some((BinaryOp::FloorDivide, 10, false)),
            Symbol::Percent => Some((BinaryOp::Modulo, 10, false)),
            Symbol::EqualEqual => Some((BinaryOp::Equal, 3, false)),
            Symbol::NotEqual => Some((BinaryOp::NotEqual, 3, false)),
            Symbol::Less => Some((BinaryOp::Less, 3, false)),
            Symbol::LessEqual => Some((BinaryOp::LessEqual, 3, false)),
            Symbol::Greater => Some((BinaryOp::Greater, 3, false)),
            Symbol::GreaterEqual => Some((BinaryOp::GreaterEqual, 3, false)),
            Symbol::Pipe => Some((BinaryOp::Pipe, 4, false)),
            Symbol::Tilde => Some((BinaryOp::BitXor, 5, false)),
            Symbol::Ampersand => Some((BinaryOp::Ampersand, 6, false)),
            Symbol::ShiftLeft => Some((BinaryOp::ShiftLeft, 7, false)),
            Symbol::ShiftRight => Some((BinaryOp::ShiftRight, 7, false)),
            _ => None,
        },
        _ => None,
    }
}

/// Whether every target can stand on the left of `=`.
fn all_assignable(targets: &Vec<Expr>) -> (r: bool)
    ensures
        r == (forall|i: int| 0 <= i < targets@.len() ==> is_assignable(#[trigger] targets@[i])),
{
    let mut i: usize = 0;
    while i < targets.len()
        invariant
            i <= targets@.len(),
            forall|k: int| 0 <= k < i ==> is_assignable(#[trigger] targets@[k]),
        decreases targets.len() - i,
    {
        let ok = match &targets[i] {
            Expr::Name { .. } => true,
            Expr::Field { .. } => true,
            Expr::Index { .. } => true,
            _ => false,
        };
        if !ok {
            return false;
        }
        i = i + 1;
    }
    true
}

impl<'a> Parser<'a> {
    fn current(&self) -> (r: &Token)
        requires
            self.inv(),
        ensures
            *r == self.token(),
    {
        &self.tokens[self.index]
    }

    fn previous(&self) -> (r: &Token)
        requires
            self.inv(),
    {
        if self.index == 0 {
            &self.tokens[0]
        } else {
            &self.tokens[self.index - 1]
        }
    }

    fn eof(&self) -> (r: bool)
        requires
            self.inv(),
        ensures
            r == (self.token().kind is Eof),
    {
        match self.current().kind {
            TokenKind::Eof => true,
            _ => false,
        }
    }

    fn advance(&mut self)
        requires
            old(self).inv(),
        ensures
            moved_on(*old(self), *final(self)),
            final(self).depth == old(self).depth,
            final(self).nodes == old(self).nodes,
            final(self).statements == old(self).statements,
            old(self).token().kind is Eof ==> final(self).index == old(self).index,
            !(old(self).token().kind is Eof) ==> final(self).index == old(self).index + 1,
    {
        if !self.eof() {
            assert(self.tokens@.last() == self.tokens@[self.tokens@.len() - 1]);
            self.index = self.index + 1;
        }
    }

    fn take_keyword(&mut self, k: Keyword) -> (r: bool)
        requires
            old(self).inv(),
        ensures
            moved_on(*old(self), *final(self)),
            final(self).depth == old(self).depth,
            final(self).nodes == old(self).nodes,
            final(self).statements == old(self).statements,
            r == (old(self).token().kind == TokenKind::Keyword(k)),
            r ==> final(self).index == old(self).index + 1,
            !r ==> final(self).index == old(self).index,
    {
        if self.current().kind == TokenKind::Keyword(k) {
            self.advance();
            true
        } else {
            false
        }
    }

    fn take_symbol(&mut self, s: Symbol) -> (r: bool)
        requires
            old(self).inv(),
        ensures
            moved_on(*old(self), *final(self)),
            final(self).depth == old(self).depth,
            final(self).nodes == old(self).nodes,
            final(self).statements == old(self).statements,
            r == (old(self).token().kind == TokenKind::Symbol(s)),
            r ==> final(self).index == old(self).index + 1,
            !r ==> final(self).index == old(self).index,
    {
        if self.current().kind == TokenKind::Symbol(s) {
            self.advance();
            true
        } else {
            false
        }
    }

    fn at_terminator(&self, terminators: &[Keyword]) -> (r: bool)
        requires
            self.inv(),
        ensures
            r == exists|i: int| 0 <= i < terminators@.len() && self.token().kind == TokenKind::Keyword(#[trigger] terminators@[i]),
    {
        let kind = self.current().kind;
        let mut i: usize = 0;
        while i < terminators.len()
            invariant
                i <= terminators@.len(),
                kind == self.token().kind,
                forall|k: int| 0 <= k < i ==> kind != TokenKind::Keyword(#[trigger] terminators@[k]),
            decreases terminators.len() - i,
        {
            if kind == TokenKind::Keyword(terminators[i]) {
                return true;
            }
            i = i + 1;
        }
        false
    }

    fn error(&self, message: &'static str) -> (r: Diagnostic)
        requires
            self.inv(),
        ensures
            r.code == DiagnosticCode::Parse,
            r.span == self.token().span,
    {
        diagnostic(Some(self.current()), DiagnosticCode::Parse, message)
    }

    fn limit(&self, message: &'static str) -> (r: Diagnostic)
        requires
            self.inv(),
        ensures
            r.code == DiagnosticCode::CompileLimit,
            r.span == self.token().span,
    {
        diagnostic(Some(self.current()), DiagnosticCode::CompileLimit, message)
    }

    fn finish(&self, start: Span) -> (r: Span)
        requires
            self.inv(),
        ensures
            r.start_byte == start.start_byte,
    {
        join(start, self.previous().span)
    }

    fn expect(&mut self, s: Symbol) -> (r: Result<(), Diagnostic>)
        requires
            old(self).inv(),
        ensures
            moved_on(*old(self), *final(self)),
            final(self).depth == old(self).depth,
            r matches Err(d) ==> parse_diagnostic(d),
    {
        if self.take_symbol(s) {
            Ok(())
        } else {
            Err(self.error("缺少結束符號"))
        }
    }

    fn expect_keyword(&mut self, k: Keyword) -> (r: Result<(), Diagnostic>)
        requires
            old(self).inv(),
        ensures
            moved_on(*old(self), *final(self)),
            final(self).depth == old(self).depth,
            r matches Err(d) ==> parse_diagnostic(d),
    {
        if self.take_keyword(k) {
            Ok(())
        } else {
            Err(self.error("缺少結束關鍵字"))
        }
    }

    /// Counts one more tree node, within the node limit.
    fn reserve_node(&mut self) -> (r: Result<(), Diagnostic>)
        requires
            old(self).inv(),
        ensures
            moved_on(*old(self), *final(self)),
            final(self).depth == old(self).depth,
            final(self).index == old(self).index,
            r is Ok ==> final(self).nodes == old(self).nodes + 1,
            r is Ok <==> old(self).nodes < old(self).limits.max_ast_nodes,
            final(self).limits == old(self).limits,
            r matches Err(d) ==> parse_diagnostic(d),
    {
        if self.nodes >= self.limits.max_ast_nodes {
            Err(self.limit("AST node 超過編譯限制"))
        } else {
            self.nodes = self.nodes + 1;
            Ok(())
        }
    }

    fn name(&mut self) -> (r: Result<Vec<u8>, Diagnostic>)
        requires
            old(self).inv(),
        ensures
            moved_on(*old(self), *final(self)),
            final(self).depth == old(self).depth,
            r is Ok ==> final(self).index > old(self).index,
            r matches Err(d) ==> parse_diagnostic(d),
    {
        if !(self.current().kind == TokenKind::Name) {
            return Err(self.error("預期名稱"));
        }
        let payload = name_payload(self.current());
        self.advance();
        match payload {
            Some(n) => Ok(n),
            None => Err(self.error("名稱 token 不完整")),
        }
    }
}

impl<'a> Parser<'a> {
    /// A comma-separated list of expressions, within the list limit.
    fn list_expr(&mut self) -> (r: Result<Vec<Expr>, Diagnostic>)
        requires
            old(self).inv(),
        ensures
            moved_on(*old(self), *final(self)),
            r is Ok ==> final(self).depth == old(self).depth,
            r matches Ok(v) ==> exprs_wf(v@, old(self).profile, old(self).limits),
            r matches Err(d) ==> parse_diagnostic(d),
        decreases old(self).limits.max_parse_depth - old(self).depth, 1int,
    {
        let ghost start = *self;
        let mut out: Vec<Expr> = Vec::new();
        if self.eof() {
            return Ok(out);
        }
        loop
            invariant
                moved_on(start, *self),
                start == *old(self),
                self.depth == start.depth,
                exprs_wf(out@, start.profile, start.limits),
            decreases self.limits.max_list_entries - out@.len(),
        {
            if out.len() >= self.limits.max_list_entries {
                return Err(self.limit("list 超過編譯限制"));
            }
            let e = self.expr(0)?;
            out.push(e);
            if !self.take_symbol(Symbol::Comma) {
                break;
            }
        }
        Ok(out)
    }

    /// An expression whose binary operators all bind at least as tightly as
    /// `min`.
    fn expr(&mut self, min: u8) -> (r: Result<Expr, Diagnostic>)
        requires
            old(self).inv(),
        ensures
            moved_on(*old(self), *final(self)),
            r is Ok ==> final(self).depth == old(self).depth,
            r matches Ok(e) ==> expr_wf(e, old(self).profile, old(self).limits) && operand_fits(e, min as nat),
            r is Ok ==> (operator_of(final(self).token().kind) matches Some(next) ==> binary_priority(next) < min),
            r matches Ok(e) ==> (e matches Expr::Binary { op, .. } ==> exists|j: int| old(self).index <= j < final(self).index
                && token_spelling(#[trigger] old(self).tokens@[j].kind) == Some(binary_spelling(op))),
            r matches Err(d) ==> parse_diagnostic(d),
        decreases old(self).limits.max_parse_depth - old(self).depth, 0int,
    {
        let ghost start = *self;
        if self.depth >= self.limits.max_parse_depth {
            return Err(self.limit("解析深度超過編譯限制"));
        }
        self.depth = self.depth + 1;
        let first = self.prefix()?;
        let mut left = self.postfix(first)?;
        loop
            invariant
                moved_on(start, *self),
                start == *old(self),
                self.depth == start.depth + 1,
                expr_wf(left, start.profile, start.limits),
                operand_fits(left, min as nat),
                left matches Expr::Binary { op: lo, .. } ==> (operator_of(self.token().kind) matches Some(next)
                    ==> binary_priority(next) < binary_priority(lo) + (if right_associative(lo) { 0nat } else { 1nat })),
                left matches Expr::Binary { op: lo, .. } ==> exists|j: int| start.index <= j < self.index
                    && token_spelling(#[trigger] start.tokens@[j].kind) == Some(binary_spelling(lo)),
            ensures
                operator_of(self.token().kind) matches Some(next) ==> binary_priority(next) < min,
            decreases self.limits.max_ast_nodes - self.nodes,
        {
            let (op, prec, right) = match binary_operator(self.current().kind) {
                Some(t) => t,
                None => {
                    break;
                },
            };
            if prec < min {
                break;
            }
            let ghost at = self.index as int;
            self.advance();
            let rhs = self.expr(if right { prec } else { prec + 1 })?;
            self.reserve_node()?;
            let span = join(left.span(), rhs.span());
            left = Expr::Binary { op, left: Box::new(left), right: Box::new(rhs), span };
            assert(token_spelling(start.tokens@[at].kind) == Some(binary_spelling(op)));
        }
        self.depth = self.depth - 1;
        Ok(left)
    }

    /// Calls, method calls, fields and indexing after a prefix expression.
    fn postfix(&mut self, base: Expr) -> (r: Result<Expr, Diagnostic>)
        requires
            old(self).inv(),
            expr_wf(base, old(self).profile, old(self).limits),
        ensures
            moved_on(*old(self), *final(self)),
            r is Ok ==> final(self).depth == old(self).depth,
            r matches Ok(e) ==> expr_wf(e, old(self).profile, old(self).limits),
            r matches Ok(e) ==> (!(base is Binary) ==> !(e is Binary)),
            r matches Err(d) ==> parse_diagnostic(d),
        decreases old(self).limits.max_parse_depth - old(self).depth, 4int,
    {
        let ghost start = *self;
        let ghost start_base = base;
        let mut base = base;
        loop
            invariant
                moved_on(start, *self),
                start == *old(self),
                self.depth == start.depth,
                expr_wf(base, start.profile, start.limits),
                !(start_base is Binary) ==> !(base is Binary),
            decreases self.limits.max_ast_nodes - self.nodes,
        {
            if self.take_symbol(Symbol::OpenParen) {
                let arguments = if self.take_symbol(Symbol::CloseParen) {
                    Vec::new()
                } else {
                    let values = self.list_expr()?;
                    self.expect(Symbol::CloseParen)?;
                    values
                };
                base = Expr::Call { span: join(base.span(), self.previous().span), callee: Box::new(base), arguments };
                self.reserve_node()?;
            } else if match self.current().kind {
                TokenKind::String => true,
                TokenKind::Symbol(Symbol::OpenBrace) => true,
                _ => false,
            } {
                if self.limits.max_list_entries == 0 {
                    return Err(self.limit("list 超過編譯限制"));
                }
                let argument = self.prefix()?;
                self.reserve_node()?;
                let span = join(base.span(), argument.span());
                let mut arguments = Vec::new();
                arguments.push(argument);
                base = Expr::Call { span, callee: Box::new(base), arguments };
            } else if self.take_symbol(Symbol::Dot) {
                let name = self.name()?;
                base = Expr::Field { span: join(base.span(), self.previous().span), base: Box::new(base), name };
                self.reserve_node()?;
            } else if self.take_symbol(Symbol::OpenBracket) {
                let index = self.expr(0)?;
                self.expect(Symbol::CloseBracket)?;
                base = Expr::Index { span: join(base.span(), self.previous().span), base: Box::new(base), index: Box::new(index) };
                self.reserve_node()?;
            } else if self.take_symbol(Symbol::Colon) {
                let method = self.name()?;
                let arguments = if self.take_symbol(Symbol::OpenParen) {
                    if self.take_symbol(Symbol::CloseParen) {
                        Vec::new()
                    } else {
                        let values = self.list_expr()?;
                        self.expect(Symbol::CloseParen)?;
                        values
                    }
                } else if match self.current().kind {
                    TokenKind::String => true,
                    TokenKind::Symbol(Symbol::OpenBrace) => true,
                    _ => false,
                } {
                    if self.limits.max_list_entries == 0 {
                        return Err(self.limit("list 超過編譯限制"));
                    }
                    let argument = self.prefix()?;
                    let mut one = Vec::new();
                    one.push(argument);
                    one
                } else {
                    return Err(self.error("方法呼叫缺少引數"));
                };
                base = Expr::MethodCall {
                    span: join(base.span(), self.previous().span),
                    receiver: Box::new(base),
                    method,
                    arguments,
                };
                self.reserve_node()?;
            } else {
                break;
            }
        }
        Ok(base)
    }

    /// A unary operation on the operand that follows it.
    fn unary(&mut self, op: UnaryOp, start: Span) -> (r: Result<Expr, Diagnostic>)
        requires
            old(self).inv(),
        ensures
            moved_on(*old(self), *final(self)),
            r is Ok ==> final(self).depth == old(self).depth,
            r matches Ok(e) ==> expr_wf(e, old(self).profile, old(self).limits) && e is Unary,
            r matches Ok(e) ==> (e matches Expr::Unary { op: o, .. } && o == op),
            r matches Err(d) ==> parse_diagnostic(d),
        decreases old(self).limits.max_parse_depth - old(self).depth, 1int,
    {
        let e = self.expr(12)?;
        Ok(Expr::Unary { op, span: join(start, e.span()), expression: Box::new(e) })
    }

    /// A literal, name, parenthesized expression, table, function or unary
    /// operation.
    fn prefix(&mut self) -> (r: Result<Expr, Diagnostic>)
        requires
            old(self).inv(),
        ensures
            moved_on(*old(self), *final(self)),
            r is Ok ==> final(self).depth == old(self).depth,
            r matches Ok(e) ==> expr_wf(e, old(self).profile, old(self).limits) && !(e is Binary),
            r matches Ok(e) ==> (e matches Expr::Unary { op, .. } ==> token_spelling(old(self).token().kind) == Some(unary_spelling(op))),
            r matches Err(d) ==> parse_diagnostic(d),
        decreases old(self).limits.max_parse_depth - old(self).depth, 3int,
    {
        self.reserve_node()?;
        let kind = self.current().kind;
        let span = self.current().span;
        match kind {
            TokenKind::Name => {
                let payload = name_payload(self.current());
                self.advance();
                match payload {
                    Some(name) => Ok(Expr::Name { name, span }),
                    None => Err(self.error("名稱 token 不完整")),
                }
            },
            TokenKind::Integer | TokenKind::Float | TokenKind::String => {
                proof {
                    assert(payload_present(self.tokens@[self.index as int]));
                }
                let literal = token_literal(self.current());
                self.advance();
                Ok(Expr::Literal { literal, span })
            },
            TokenKind::Keyword(Keyword::Nil) => {
                self.advance();
                Ok(Expr::Nil { span })
            },
            TokenKind::Keyword(Keyword::True) => {
                self.advance();
                Ok(Expr::Bool { value: true, span })
            },
            TokenKind::Keyword(Keyword::False) => {
                self.advance();
                Ok(Expr::Bool { value: false, span })
            },
            TokenKind::Symbol(Symbol::Vararg) => {
                self.advance();
                Ok(Expr::Vararg { span })
            },
            TokenKind::Symbol(Symbol::Minus) => {
                self.advance();
                self.unary(UnaryOp::Negate, span)
            },
            TokenKind::Keyword(Keyword::Not) => {
                self.advance();
                self.unary(UnaryOp::Not, span)
            },
            TokenKind::Symbol(Symbol::Hash) => {
                self.advance();
                self.unary(UnaryOp::Length, span)
            },
            TokenKind::Symbol(Symbol::Tilde) => {
                self.advance();
                self.unary(UnaryOp::BitNot, span)
            },
            TokenKind::Symbol(Symbol::OpenParen) => {
                self.advance();
                let e = self.expr(0)?;
                self.expect(Symbol::CloseParen)?;
                Ok(Expr::Paren { span: join(span, self.previous().span), expression: Box::new(e) })
            },
            TokenKind::Symbol(Symbol::OpenBrace) => self.table(),
            TokenKind::Keyword(Keyword::Function) => self.function_expr(),
            _ => Err(self.error("預期運算式")),
        }
    }

    /// A table constructor, from its opening brace.
    fn table(&mut self) -> (r: Result<Expr, Diagnostic>)
        requires
            old(self).inv(),
        ensures
            moved_on(*old(self), *final(self)),
            r is Ok ==> final(self).depth == old(self).depth,
            r matches Ok(e) ==> expr_wf(e, old(self).profile, old(self).limits) && e is TableConstructor,
            r matches Err(d) ==> parse_diagnostic(d),
        decreases old(self).limits.max_parse_depth - old(self).depth, 1int,
    {
        let ghost start_state = *self;
        let start = self.current().span;
        self.advance();
        let mut fields: Vec<TableField> = Vec::new();
        loop
            invariant
                moved_on(start_state, *self),
                start_state == *old(self),
                self.depth == start_state.depth,
                fields@.len() <= self.limits.max_list_entries,
                forall|i: int| 0 <= i < fields@.len() ==> field_wf(#[trigger] fields@[i], start_state.profile, start_state.limits),
            decreases self.limits.max_list_entries - fields@.len(),
        {
            if self.take_symbol(Symbol::CloseBrace) {
                break;
            }
            if self.eof() {
                return Err(self.error("缺少 table 結束符號"));
            }
            if fields.len() >= self.limits.max_list_entries {
                return Err(self.limit("list 超過編譯限制"));
            }
            let field_start = self.current().span;
            let named = self.current().kind == TokenKind::Name && self.index + 1 < self.tokens.len()
                && self.tokens[self.index + 1].kind == TokenKind::Symbol(Symbol::Assign);
            let mut field = if self.take_symbol(Symbol::OpenBracket) {
                let key = self.expr(0)?;
                self.expect(Symbol::CloseBracket)?;
                self.expect(Symbol::Assign)?;
                let value = self.expr(0)?;
                self.reserve_node()?;
                TableField::Indexed { span: join(field_start, value.span()), key, value, separator: None }
            } else if named {
                let name = self.name()?;
                self.expect(Symbol::Assign)?;
                let value = self.expr(0)?;
                self.reserve_node()?;
                TableField::Named { span: join(field_start, value.span()), name, value, separator: None }
            } else {
                let value = self.expr(0)?;
                self.reserve_node()?;
                TableField::Array { span: join(field_start, value.span()), value, separator: None }
            };
            if self.take_symbol(Symbol::Comma) {
                field.set_separator(FieldSeparator::Comma);
            } else if self.take_symbol(Symbol::Semicolon) {
                field.set_separator(FieldSeparator::Semicolon);
            } else {
                self.expect(Symbol::CloseBrace)?;
                fields.push(field);
                break;
            }
            fields.push(field);
        }
        self.reserve_node()?;
        Ok(Expr::TableConstructor { span: join(start, self.previous().span), fields })
    }

    /// An anonymous function, from its `function` keyword.
    fn function_expr(&mut self) -> (r: Result<Expr, Diagnostic>)
        requires
            old(self).inv(),
        ensures
            moved_on(*old(self), *final(self)),
            r is Ok ==> final(self).depth == old(self).depth,
            r matches Ok(e) ==> expr_wf(e, old(self).profile, old(self).limits) && e is Function,
            r matches Err(d) ==> parse_diagnostic(d),
        decreases old(self).limits.max_parse_depth - old(self).depth, 2int,
    {
        let start = self.current().span;
        self.advance();
        let body = self.function_body(start)?;
        let span = join(start, self.previous().span);
        self.reserve_node()?;
        Ok(Expr::Function { span, body })
    }

    /// The name of a function statement: a name, fields, and an optional
    /// method name.
    fn function_name(&mut self) -> (r: Result<(Expr, Option<MethodName>), Diagnostic>)
        requires
            old(self).inv(),
        ensures
            moved_on(*old(self), *final(self)),
            final(self).depth == old(self).depth,
            r matches Ok(p) ==> expr_wf(p.0, old(self).profile, old(self).limits),
            r matches Err(d) ==> parse_diagnostic(d),
    {
        let ghost start = *self;
        let first_span = self.current().span;
        let first = self.name()?;
        let mut value = Expr::Name { name: first, span: first_span };
        let mut method: Option<MethodName> = None;
        loop
            invariant
                moved_on(start, *self),
                start == *old(self),
                self.depth == start.depth,
                expr_wf(value, start.profile, start.limits),
            decreases self.tokens@.len() - self.index,
        {
            if self.take_symbol(Symbol::Dot) {
                let span = self.current().span;
                let name = self.name()?;
                value = Expr::Field { span: join(value.span(), span), base: Box::new(value), name };
            } else if self.take_symbol(Symbol::Colon) {
                let colon_span = self.previous().span;
                let span = self.current().span;
                let name = self.name()?;
                method = Some(MethodName { name: name.clone(), colon_span, span });
                value = Expr::Field { span: join(value.span(), span), base: Box::new(value), name };
                break;
            } else {
                break;
            }
        }
        Ok((value, method))
    }

    /// A parameter list and body, from the opening parenthesis.
    fn function_body(&mut self, start: Span) -> (r: Result<FunctionBody, Diagnostic>)
        requires
            old(self).inv(),
        ensures
            moved_on(*old(self), *final(self)),
            r is Ok ==> final(self).depth == old(self).depth,
            r matches Ok(b) ==> body_wf(b, old(self).profile, old(self).limits),
            r matches Err(d) ==> parse_diagnostic(d),
        decreases old(self).limits.max_parse_depth - old(self).depth, 1int,
    {
        let ghost start_state = *self;
        self.expect(Symbol::OpenParen)?;
        let mut params: Vec<LocalName> = Vec::new();
        let mut vararg: Option<Vararg> = None;
        loop
            invariant
                moved_on(start_state, *self),
                start_state == *old(self),
                self.depth == start_state.depth,
                params@.len() <= self.limits.max_parameters,
                vararg matches Some(v) && v.table_name is Some ==> self.profile == LanguageProfile::Lua55,
            decreases self.limits.max_parameters - params@.len(),
        {
            if self.take_symbol(Symbol::CloseParen) {
                break;
            }
            if params.len() >= self.limits.max_parameters {
                return Err(self.limit("參數超過編譯限制"));
            }
            if self.take_symbol(Symbol::Vararg) {
                let span = self.previous().span;
                let table_name = if self.current().kind == TokenKind::Name {
                    if self.profile != LanguageProfile::Lua55 {
                        return Err(self.error("具名 vararg table 僅支援 lua55"));
                    }
                    let name_span = self.current().span;
                    let name = self.name()?;
                    Some(LocalName { name, attribute: None, span: name_span })
                } else {
                    None
                };
                self.reserve_node()?;
                vararg = Some(Vararg { table_name, span });
                self.expect(Symbol::CloseParen)?;
                break;
            }
            let name_span = self.current().span;
            let name = self.name()?;
            self.reserve_node()?;
            params.push(LocalName { name, attribute: None, span: name_span });
            if !self.take_symbol(Symbol::Comma) {
                self.expect(Symbol::CloseParen)?;
                break;
            }
        }
        let body = self.block_until(&[Keyword::End])?;
        self.expect_keyword(Keyword::End)?;
        let span = join(start, self.previous().span);
        Ok(FunctionBody { parameters: params, vararg, body, span })
    }
}

impl<'a> Parser<'a> {
    /// The statements of a block, up to one of `terminators`, which stays
    /// unconsumed.
    fn block_until(&mut self, terminators: &[Keyword]) -> (r: Result<Block, Diagnostic>)
        requires
            old(self).inv(),
        ensures
            moved_on(*old(self), *final(self)),
            r is Ok ==> final(self).depth == old(self).depth,
            r matches Ok(b) ==> block_wf(b, old(self).profile, old(self).limits) && b.terminator is Some,
            r matches Err(d) ==> parse_diagnostic(d),
        decreases old(self).limits.max_parse_depth - old(self).depth, 0int,
    {
        let ghost start_state = *self;
        self.reserve_node()?;
        if self.depth >= self.limits.max_parse_depth {
            return Err(self.limit("解析深度超過編譯限制"));
        }
        self.depth = self.depth + 1;
        let start = self.current().span;
        let mut statements: Vec<Stmt> = Vec::new();
        loop
            invariant_except_break
                statements@.len() > 0 ==> !(statements@.last() is Return),
            invariant
                moved_on(start_state, *self),
                start_state == *old(self),
                self.depth == start_state.depth + 1,
                statements@.len() <= self.statements,
                forall|i: int| 0 <= i < statements@.len() ==> stmt_wf(#[trigger] statements@[i], start_state.profile, start_state.limits),
                forall|i: int| 0 <= i < statements@.len() - 1 ==> !(#[trigger] statements@[i] is Return),
            decreases self.limits.max_statements - self.statements,
        {
            if self.eof() || self.at_terminator(terminators) {
                break;
            }
            if self.statements >= self.limits.max_statements {
                return Err(self.limit("陳述式數超過編譯限制"));
            }
            self.statements = self.statements + 1;
            let statement = self.statement()?;
            let returned = match &statement {
                Stmt::Return { .. } => true,
                _ => false,
            };
            statements.push(statement);
            if returned {
                self.take_symbol(Symbol::Semicolon);
                if !self.at_terminator(terminators) {
                    return Err(self.error("return 必須為 block 最後陳述式"));
                }
                break;
            }
        }
        if self.eof() {
            return Err(self.error("缺少 block 結束關鍵字"));
        }
        self.depth = self.depth - 1;
        let end = self.current().span;
        Ok(Block { span: join(start, end), statements, terminator: Some(end) })
    }

    /// One statement.
    fn statement(&mut self) -> (r: Result<Stmt, Diagnostic>)
        requires
            old(self).inv(),
        ensures
            moved_on(*old(self), *final(self)),
            r is Ok ==> final(self).depth == old(self).depth,
            r matches Ok(s) ==> stmt_wf(s, old(self).profile, old(self).limits),
            r matches Err(d) ==> parse_diagnostic(d),
            r matches Ok(s) ==> crate::ast::stmt_span(s).start_byte == old(self).token().span.start_byte,
            r matches Ok(s) ==> leads(old(self).token().kind, s),
        decreases old(self).limits.max_parse_depth - old(self).depth, 3int,
    {
        self.reserve_node()?;
        let start = self.current().span;
        if self.take_symbol(Symbol::DoubleColon) {
            let name_span = self.current().span;
            let name = self.name()?;
            self.expect(Symbol::DoubleColon)?;
            self.reserve_node()?;
            return Ok(Stmt::Label { name, name_span, span: join(start, self.previous().span) });
        }
        if self.take_keyword(Keyword::Function) {
            let (name, method) = self.function_name()?;
            let body = self.function_body(start)?;
            return Ok(Stmt::Function { name, method, body, span: join(start, self.previous().span) });
        }
        if self.take_keyword(Keyword::Do) {
            let body = self.block_until(&[Keyword::End])?;
            self.expect_keyword(Keyword::End)?;
            return Ok(Stmt::Do { span: join(start, self.previous().span), body });
        }
        if self.take_keyword(Keyword::While) {
            let condition = self.expr(0)?;
            self.expect_keyword(Keyword::Do)?;
            let body = self.block_until(&[Keyword::End])?;
            self.expect_keyword(Keyword::End)?;
            return Ok(Stmt::While { condition, body, span: join(start, self.previous().span) });
        }
        if self.take_keyword(Keyword::Repeat) {
            let body = self.block_until(&[Keyword::Until])?;
            self.expect_keyword(Keyword::Until)?;
            let condition = self.expr(0)?;
            return Ok(Stmt::Repeat { body, condition, span: join(start, self.previous().span) });
        }
        if self.take_keyword(Keyword::If) {
            return self.if_rest(start);
        }
        if self.take_keyword(Keyword::For) {
            return self.for_rest(start);
        }
        if self.take_keyword(Keyword::Return) {
            let ends = match self.current().kind {
                TokenKind::Eof => true,
                TokenKind::Symbol(Symbol::Semicolon) => true,
                TokenKind::Keyword(Keyword::End) => true,
                TokenKind::Keyword(Keyword::Else) => true,
                TokenKind::Keyword(Keyword::ElseIf) => true,
                TokenKind::Keyword(Keyword::Until) => true,
                _ => false,
            };
            let values = if ends {
                Vec::new()
            } else {
                self.list_expr()?
            };
            return Ok(Stmt::Return { values, span: self.finish(start) });
        }
        if self.take_keyword(Keyword::Break) {
            return Ok(Stmt::Break { span: self.finish(start) });
        }
        if self.take_keyword(Keyword::Goto) {
            let name = self.name()?;
            let name_span = self.previous().span;
            return Ok(Stmt::Goto { name, name_span, span: self.finish(start) });
        }
        if self.take_symbol(Symbol::Semicolon) {
            return Ok(Stmt::Empty { span: start });
        }
        if self.take_keyword(Keyword::Local) {
            return self.local_rest(start);
        }
        if self.take_keyword(Keyword::Global) {
            return self.global_rest(start);
        }
        self.expression_statement(start)
    }

    /// An `if` statement after its keyword.
    fn if_rest(&mut self, start: Span) -> (r: Result<Stmt, Diagnostic>)
        requires
            old(self).inv(),
        ensures
            moved_on(*old(self), *final(self)),
            r is Ok ==> final(self).depth == old(self).depth,
            r matches Ok(s) ==> stmt_wf(s, old(self).profile, old(self).limits),
            r matches Err(d) ==> parse_diagnostic(d),
            r matches Ok(s) ==> crate::ast::stmt_span(s).start_byte == start.start_byte,
            r matches Ok(s) ==> s is If,
        decreases old(self).limits.max_parse_depth - old(self).depth, 2int,
    {
        let ghost start_state = *self;
        let condition = self.expr(0)?;
        self.expect_keyword(Keyword::Then)?;
        let body = self.block_until(&[Keyword::ElseIf, Keyword::Else, Keyword::End])?;
        let mut clauses: Vec<(Expr, Block)> = Vec::new();
        clauses.push((condition, body));
        loop
            invariant
                moved_on(start_state, *self),
                start_state == *old(self),
                self.depth == start_state.depth,
                1 <= clauses@.len() <= self.limits.max_list_entries + 1,
                clauses@.len() == 1 || clauses@.len() <= self.limits.max_list_entries,
                forall|i: int| 0 <= i < clauses@.len() ==> expr_wf((#[trigger] clauses@[i]).0, start_state.profile, start_state.limits),
                forall|i: int| 0 <= i < clauses@.len() ==> block_wf((#[trigger] clauses@[i]).1, start_state.profile, start_state.limits),
            decreases self.limits.max_list_entries + 1 - clauses@.len(),
        {
            if !self.take_keyword(Keyword::ElseIf) {
                break;
            }
            let c = self.expr(0)?;
            self.expect_keyword(Keyword::Then)?;
            let b = self.block_until(&[Keyword::ElseIf, Keyword::Else, Keyword::End])?;
            if clauses.len() >= self.limits.max_list_entries {
                return Err(self.limit("list 超過編譯限制"));
            }
            clauses.push((c, b));
        }
        let else_block = if self.take_keyword(Keyword::Else) {
            Some(self.block_until(&[Keyword::End])?)
        } else {
            None
        };
        self.expect_keyword(Keyword::End)?;
        Ok(Stmt::If { clauses, else_block, span: join(start, self.previous().span) })
    }

    /// A numeric or generic `for` statement after its keyword.
    fn for_rest(&mut self, start: Span) -> (r: Result<Stmt, Diagnostic>)
        requires
            old(self).inv(),
        ensures
            moved_on(*old(self), *final(self)),
            r is Ok ==> final(self).depth == old(self).depth,
            r matches Ok(s) ==> stmt_wf(s, old(self).profile, old(self).limits),
            r matches Err(d) ==> parse_diagnostic(d),
            r matches Ok(s) ==> crate::ast::stmt_span(s).start_byte == start.start_byte,
            r matches Ok(s) ==> s is NumericFor || s is GenericFor,
        decreases old(self).limits.max_parse_depth - old(self).depth, 2int,
    {
        let ghost start_state = *self;
        let name_start = self.current().span;
        let name = self.name()?;
        self.reserve_node()?;
        let local = LocalName { name, attribute: None, span: name_start };
        if self.take_symbol(Symbol::Assign) {
            let initial = self.expr(0)?;
            self.expect(Symbol::Comma)?;
            let limit = self.expr(0)?;
            let step = if self.take_symbol(Symbol::Comma) {
                Some(self.expr(0)?)
            } else {
                None
            };
            self.expect_keyword(Keyword::Do)?;
            let body = self.block_until(&[Keyword::End])?;
            self.expect_keyword(Keyword::End)?;
            return Ok(Stmt::NumericFor { name: local, initial, limit, step, body, span: join(start, self.previous().span) });
        }
        let mut names: Vec<LocalName> = Vec::new();
        names.push(local);
        loop
            invariant
                moved_on(start_state, *self),
                start_state == *old(self),
                self.depth == start_state.depth,
                1 <= names@.len() <= self.limits.max_list_entries + 1,
                names@.len() == 1 || names@.len() <= self.limits.max_list_entries,
            decreases self.limits.max_list_entries + 1 - names@.len(),
        {
            if !self.take_symbol(Symbol::Comma) {
                break;
            }
            if names.len() >= self.limits.max_list_entries {
                return Err(self.limit("list 超過編譯限制"));
            }
            let span = self.current().span;
            self.reserve_node()?;
            let name = self.name()?;
            names.push(LocalName { name, attribute: None, span });
        }
        self.expect_keyword(Keyword::In)?;
        let values = self.list_expr()?;
        self.expect_keyword(Keyword::Do)?;
        let body = self.block_until(&[Keyword::End])?;
        self.expect_keyword(Keyword::End)?;
        Ok(Stmt::GenericFor { names, values, body, span: join(start, self.previous().span) })
    }

    /// A `local` declaration or local function after the `local` keyword.
    fn local_rest(&mut self, start: Span) -> (r: Result<Stmt, Diagnostic>)
        requires
            old(self).inv(),
        ensures
            moved_on(*old(self), *final(self)),
            r is Ok ==> final(self).depth == old(self).depth,
            r matches Ok(s) ==> stmt_wf(s, old(self).profile, old(self).limits),
            r matches Err(d) ==> parse_diagnostic(d),
            r matches Ok(s) ==> crate::ast::stmt_span(s).start_byte == start.start_byte,
            r matches Ok(s) ==> s is Local || s is LocalFunction,
        decreases old(self).limits.max_parse_depth - old(self).depth, 2int,
    {
        let ghost start_state = *self;
        if self.take_keyword(Keyword::Function) {
            let name_span = self.current().span;
            let name = self.name()?;
            self.reserve_node()?;
            let local = LocalName { name, attribute: None, span: name_span };
            let body = self.function_body(start)?;
            return Ok(Stmt::LocalFunction { name: local, body, span: join(start, self.previous().span) });
        }
        let mut names: Vec<LocalName> = Vec::new();
        loop
            invariant
                moved_on(start_state, *self),
                start_state == *old(self),
                self.depth == start_state.depth,
                names@.len() <= self.limits.max_list_entries,
            ensures
                moved_on(start_state, *self),
                self.depth == start_state.depth,
                1 <= names@.len() <= self.limits.max_list_entries,
            decreases self.limits.max_list_entries - names@.len(),
        {
            if names.len() >= self.limits.max_list_entries {
                return Err(self.limit("list 超過編譯限制"));
            }
            let name_start = self.current().span;
            let name = self.name()?;
            let attribute = if self.take_symbol(Symbol::Less) {
                let attr_start = self.current().span;
                let attr = self.name()?;
                self.expect(Symbol::Greater)?;
                self.reserve_node()?;
                Some(Attribute { name: attr, span: join(attr_start, self.previous().span) })
            } else {
                None
            };
            self.reserve_node()?;
            names.push(LocalName { name, attribute, span: join(name_start, self.previous().span) });
            if !self.take_symbol(Symbol::Comma) {
                break;
            }
        }
        let values = if self.take_symbol(Symbol::Assign) {
            self.list_expr()?
        } else {
            Vec::new()
        };
        Ok(Stmt::Local { names, values, span: self.finish(start) })
    }

    /// A strict `global` declaration after the `global` keyword.
    fn global_rest(&mut self, start: Span) -> (r: Result<Stmt, Diagnostic>)
        requires
            old(self).inv(),
        ensures
            moved_on(*old(self), *final(self)),
            r is Ok ==> final(self).depth == old(self).depth,
            r matches Ok(s) ==> stmt_wf(s, old(self).profile, old(self).limits),
            r matches Err(d) ==> parse_diagnostic(d),
            r matches Ok(s) ==> crate::ast::stmt_span(s).start_byte == start.start_byte,
            r matches Ok(s) ==> s is Global,
        decreases old(self).limits.max_parse_depth - old(self).depth, 2int,
    {
        let ghost start_state = *self;
        let prefix_attribute = if self.take_symbol(Symbol::Less) {
            let attr_start = self.current().span;
            let name = self.name()?;
            self.expect(Symbol::Greater)?;
            Some(Attribute { name, span: join(attr_start, self.previous().span) })
        } else {
            None
        };
        if self.take_symbol(Symbol::Star) {
            let span = self.finish(start);
            self.reserve_node()?;
            return Ok(Stmt::Global { declaration: GlobalDeclaration::Star { prefix_attribute, span }, span });
        }
        if self.take_keyword(Keyword::Function) {
            if prefix_attribute.is_some() {
                return Err(self.error("global function 不接受前置 attribute"));
            }
            let name = self.name()?;
            let body = self.function_body(start)?;
            let span = self.finish(start);
            self.reserve_node()?;
            return Ok(Stmt::Global { declaration: GlobalDeclaration::Function { name, body, span }, span });
        }
        let mut names: Vec<LocalName> = Vec::new();
        loop
            invariant
                moved_on(start_state, *self),
                start_state == *old(self),
                self.depth == start_state.depth,
                names@.len() <= self.limits.max_list_entries,
            ensures
                moved_on(start_state, *self),
                self.depth == start_state.depth,
                1 <= names@.len() <= self.limits.max_list_entries,
            decreases self.limits.max_list_entries - names@.len(),
        {
            if names.len() >= self.limits.max_list_entries {
                return Err(self.limit("list 超過編譯限制"));
            }
            let span = self.current().span;
            let name = self.name()?;
            let attribute = if self.take_symbol(Symbol::Less) {
                let attr_start = self.current().span;
                let attr = self.name()?;
                self.expect(Symbol::Greater)?;
                Some(Attribute { name: attr, span: join(attr_start, self.previous().span) })
            } else {
                None
            };
            self.reserve_node()?;
            names.push(LocalName { name, attribute, span });
            if !self.take_symbol(Symbol::Comma) {
                break;
            }
        }
        let values = if self.take_symbol(Symbol::Assign) {
            self.list_expr()?
        } else {
            Vec::new()
        };
        let span = self.finish(start);
        self.reserve_node()?;
        Ok(Stmt::Global { declaration: GlobalDeclaration::Names { names, values, prefix_attribute, span }, span })
    }

    /// An assignment or a call statement.
    fn expression_statement(&mut self, start: Span) -> (r: Result<Stmt, Diagnostic>)
        requires
            old(self).inv(),
        ensures
            moved_on(*old(self), *final(self)),
            r is Ok ==> final(self).depth == old(self).depth,
            r matches Ok(s) ==> stmt_wf(s, old(self).profile, old(self).limits),
            r matches Err(d) ==> parse_diagnostic(d),
            r matches Ok(s) ==> crate::ast::stmt_span(s).start_byte == start.start_byte,
            r matches Ok(s) ==> s is Assignment || s is Call,
        decreases old(self).limits.max_parse_depth - old(self).depth, 2int,
    {
        let ghost start_state = *self;
        let first = self.expr(0)?;
        let mut targets: Vec<Expr> = Vec::new();
        targets.push(first);
        loop
            invariant
                moved_on(start_state, *self),
                start_state == *old(self),
                self.depth == start_state.depth,
                1 <= targets@.len() <= self.limits.max_list_entries + 1,
                targets@.len() == 1 || targets@.len() <= self.limits.max_list_entries,
                forall|i: int| 0 <= i < targets@.len() ==> expr_wf(#[trigger] targets@[i], start_state.profile, start_state.limits),
            decreases self.limits.max_list_entries + 1 - targets@.len(),
        {
            if !self.take_symbol(Symbol::Comma) {
                break;
            }
            if targets.len() >= self.limits.max_list_entries {
                return Err(self.limit("list 超過編譯限制"));
            }
            let e = self.expr(0)?;
            targets.push(e);
        }
        if self.take_symbol(Symbol::Assign) {
            let values = self.list_expr()?;
            if !all_assignable(&targets) {
                return Err(self.error("assignment 左側不可指派"));
            }
            return Ok(Stmt::Assignment { targets, values, span: self.finish(start) });
        }
        if targets.len() != 1 {
            return Err(self.error("只有函式呼叫可作獨立陳述式"));
        }
        let call = targets.pop().unwrap();
        let is_call = match &call {
            Expr::Call { .. } => true,
            Expr::MethodCall { .. } => true,
            _ => false,
        };
        if is_call {
            Ok(Stmt::Call { call, span: self.finish(start) })
        } else {
            Err(self.error("只有函式呼叫可作獨立陳述式"))
        }
    }

    /// The whole chunk, up to the end of input.
    fn module(&mut self, profile: LanguageProfile, source_len: usize) -> (r: Result<Module, Diagnostic>)
        requires
            old(self).inv(),
            old(self).profile == profile,
        ensures
            r matches Ok(m) ==> {
                &&& m.profile == profile
                &&& m.span == (Span { start_byte: 0, end_byte: source_len })
                &&& m.root.span == m.span
                &&& m.root.terminator is None
                &&& block_wf(m.root, profile, old(self).limits)
            },
            r matches Err(d) ==> parse_diagnostic(d),
            old(self).token().kind is Eof && old(self).nodes + 2 <= old(self).limits.max_ast_nodes
                ==> (r matches Ok(m) && m.root.statements@.len() == 0),
            r matches Ok(m) ==> (m.root.statements@.len() == 0 <==> old(self).token().kind is Eof)
                && (m.root.statements@.len() > 0 ==> leads(old(self).token().kind, m.root.statements@[0]))
                && forall|i: int| 0 <= i < m.root.statements@.len() ==> statement_led(old(self).tokens@, #[trigger] m.root.statements@[i]),
    {
        let ghost start_state = *self;
        self.reserve_node()?;
        let mut statements: Vec<Stmt> = Vec::new();
        loop
            invariant_except_break
                statements@.len() > 0 ==> !(statements@.last() is Return),
            invariant
                moved_on(start_state, *self),
                start_state == *old(self),
                statements@.len() <= self.statements,
                forall|i: int| 0 <= i < statements@.len() ==> stmt_wf(#[trigger] statements@[i], start_state.profile, start_state.limits),
                forall|i: int| 0 <= i < statements@.len() - 1 ==> !(#[trigger] statements@[i] is Return),
                start_state.token().kind is Eof ==> statements@.len() == 0 && self.index == start_state.index
                    && self.nodes == start_state.nodes + 1 && self.limits == start_state.limits,
                statements@.len() == 0 ==> self.index == start_state.index && self.tokens == start_state.tokens,
                statements@.len() > 0 ==> leads(start_state.token().kind, statements@[0]),
                forall|i: int| 0 <= i < statements@.len() ==> statement_led(start_state.tokens@, #[trigger] statements@[i]),
            ensures
                statements@.len() == 0 ==> self.token().kind is Eof,
            decreases self.limits.max_statements - self.statements,
        {
            if self.eof() {
                break;
            }
            if self.statements >= self.limits.max_statements {
                return Err(self.limit("陳述式數超過編譯限制"));
            }
            self.statements = self.statements + 1;
            let ghost before = *self;
            let statement = self.statement()?;
            proof {
                let j = before.index as int;
                assert(before.tokens@ == start_state.tokens@);
                assert(before.token() == start_state.tokens@[j]);
                assert(leads(start_state.tokens@[j].kind, statement));
            }
            let returned = match &statement {
                Stmt::Return { .. } => true,
                _ => false,
            };
            statements.push(statement);
            if returned {
                self.take_symbol(Symbol::Semicolon);
                if !self.eof() {
                    return Err(self.error("return 必須為 block 最後陳述式"));
                }
                break;
            }
        }
        assert(statements@.len() == 0 ==> self.token() == start_state.token());
        self.reserve_node()?;
        let span = Span { start_byte: 0, end_byte: source_len };
        Ok(Module { profile, span, root: Block { statements, terminator: None, span } })
    }
}

/// Parses the token stream of one lex into a syntax tree.  An empty stream,
/// a stream that does not end with the end of input and a stream of another
/// profile are refused; a parsed tree is well
/// formed: binary and unary operators nest by Lua's priorities and
/// grouping, a `return` only ever ends its block, assignment targets are
/// assignable, call statements hold calls, and every list, parameter list and
/// block fits its limit.  The chunk has no statement exactly when its first
/// token is the end of input, and each of its statements begins at a token
/// that names the statement's kind.
pub fn parse(chunk: &LexedChunk, expected_profile: LanguageProfile, limits: &CompileLimits) -> (r: Result<Module, Diagnostic>)
    requires
        forall|i: int| 0 <= i < chunk.tokens@.len() ==> payload_present(#[trigger] chunk.tokens@[i]),
    ensures
        chunk.tokens@.len() == 0 ==> (r matches Err(d) && d.code == DiagnosticCode::Parse
            && d.span == (Span { start_byte: 0, end_byte: 0 })),
        chunk.tokens@.len() > 0 && !(chunk.tokens@.last().kind is Eof) ==> (r matches Err(d) && d.code == DiagnosticCode::Parse),
        chunk.tokens@.len() == 1 && chunk.tokens@[0].kind is Eof && chunk.profile == expected_profile && limits.max_ast_nodes >= 2
            ==> (r matches Ok(m) && m.root.statements@.len() == 0),
        r matches Ok(m) ==> (m.root.statements@.len() == 0 <==> chunk.tokens@[0].kind is Eof)
            && (m.root.statements@.len() > 0 ==> leads(chunk.tokens@[0].kind, m.root.statements@[0]))
            && forall|i: int| 0 <= i < m.root.statements@.len() ==> statement_led(chunk.tokens@, #[trigger] m.root.statements@[i]),
        chunk.tokens@.len() > 0 && chunk.profile != expected_profile ==> (r matches Err(d)
            && d.code == DiagnosticCode::Parse && d.span == chunk.tokens@[0].span),
        r matches Ok(m) ==> {
            &&& chunk.tokens@.len() > 0
            &&& chunk.profile == expected_profile
            &&& m.profile == expected_profile
            &&& m.span == (Span { start_byte: 0, end_byte: chunk.source_len })
            &&& m.root.span == m.span
            &&& m.root.terminator is None
            &&& block_wf(m.root, expected_profile, *limits)
        },
        r matches Err(d) ==> parse_diagnostic(d),
{
    if chunk.tokens.len() == 0 {
        return Err(diagnostic(None, DiagnosticCode::Parse, "token 串流缺少 EOF"));
    }
    let ends_with_eof = match chunk.tokens[chunk.tokens.len() - 1].kind {
        TokenKind::Eof => true,
        _ => false,
    };
    if chunk.profile != expected_profile {
        return Err(diagnostic(Some(&chunk.tokens[0]), DiagnosticCode::Parse, "語言 profile 不符"));
    }
    if !ends_with_eof {
        return Err(diagnostic(Some(&chunk.tokens[chunk.tokens.len() - 1]), DiagnosticCode::Parse, "token 串流缺少 EOF"));
    }
    let mut parser = Parser {
        tokens: chunk.tokens.as_slice(),
        index: 0,
        limits: *limits,
        nodes: 0,
        depth: 0,
        statements: 0,
        profile: expected_profile,
    };
    parser.module(expected_profile, chunk.source_len)
}

} // verus!
