//! Name and scope resolution over the parsed tree: it binds every name,
//! numbers functions and bindings, records upvalues and gives every block
//! exit the to-be-closed bindings it passes.

use vstd::prelude::*;
use crate::ast::{
    Attribute, Block, Expr, FunctionBody, GlobalDeclaration, LocalName, MethodName, Module, Stmt,
    TableField,
};
use crate::lexer::{
    CompileLimits, Diagnostic, DiagnosticCode, LanguageProfile, LexedChunk, SourcePosition, Span,
    Literal, Token, TokenKind, bytes_equal, token_matches, tokens_match,
};
use crate::resolved::{
    BindingId, BindingKind, BindingMeta, ClosePath, ExitKind, FunctionId, ResolvedBlock,
    ResolvedExpr, ResolvedFunction, ResolvedFunctionBody, ResolvedGenericForClose,
    ResolvedGlobalDeclaration, ResolvedIfClause, ResolvedLocalName, ResolvedModule, ResolvedName,
    ResolvedStmt, ResolvedTableField, ResolvedVararg, ScopeId, UpvalueId, UpvalueSource,
    block_mirrors, body_mirrors, expr_mirrors, extends, field_mirrors, function_wf, grows,
    lemma_block_lift, lemma_body_lift, lemma_expr_lift, lemma_field_lift, lemma_local_lift,
    lemma_stmt_lift, literal_same, local_mirrors, module_tables, names_binding, stmt_mirrors, table_of,
};

verus! {

/// What the resolver demands of its input: a token stream that ends with an
/// end-of-input token at the end of the source, and a tree and a stream of
/// the expected profile over a source of the same length.
pub open spec fn input_matches(module: Module, lexed: LexedChunk, expected: LanguageProfile) -> bool {
    let tokens = lexed.tokens@;
    &&& tokens.len() > 0
    &&& module.profile == expected
    &&& lexed.profile == expected
    &&& module.span.end_byte == lexed.source_len
    &&& tokens.last().kind is Eof
    &&& tokens.last().span.start_byte == lexed.source_len
    &&& tokens.last().span.end_byte == lexed.source_len
}

/// What `lex` and then `parse` return on one input always passes the
/// resolver's input check: the stages compose without a mismatch error.
pub proof fn lemma_parsed_input_matches(input: Seq<u8>, profile: LanguageProfile, lexed: LexedChunk, module: Module)
    requires
        lexed.profile == profile,
        lexed.source_len == input.len(),
        tokens_match(input, profile, lexed.tokens@),
        lexed.tokens@.len() >= 1,
        module.profile == profile,
        module.span == (Span { start_byte: 0, end_byte: lexed.source_len }),
    ensures
        input_matches(module, lexed, profile),
{
    let last = lexed.tokens@.len() - 1;
    assert(token_matches(input, profile, lexed.tokens@[last]));
    assert(lexed.tokens@[last].kind is Eof);
}

/// The diagnostics the resolver can give.
pub open spec fn resolve_diagnostic(d: Diagnostic) -> bool {
    d.code is Resolve || d.code is CompileLimit
}

/// The bytes of `_ENV`.
pub open spec fn env_name() -> Seq<u8> {
    seq![95u8, 69u8, 78u8, 86u8]
}

#[derive(Clone, Copy)]
struct LabelInfo {
    scope: ScopeId,
    span: Span,
}

#[derive(Clone, Copy)]
enum ParentBinding {
    Direct(BindingId),
    Ancestor(BindingId),
    Global(BindingId),
}

struct ScopeFrame {
    id: ScopeId,
    bindings: Vec<(Vec<u8>, BindingId)>,
    close_bindings: Vec<BindingId>,
    labels: Vec<(Vec<u8>, LabelInfo)>,
    declaration_spans: Vec<Span>,
    /// `Some(true)`: an explicit global scope that admits declared names
    /// only; `Some(false)`: after `global *`.
    global_mode: Option<bool>,
}

struct Resolver<'a> {
    lexed: &'a LexedChunk,
    limits: CompileLimits,
    profile: LanguageProfile,
    owner: FunctionId,
    next_binding: usize,
    next_function: u32,
    next_scope: u32,
    bindings: Vec<BindingMeta>,
    upvalues: Vec<UpvalueSource>,
    /// The binding each upvalue captures, by upvalue number.
    upvalue_bindings: Vec<BindingId>,
    pending_ancestor_captures: Vec<(BindingId, UpvalueId)>,
    scopes: Vec<ScopeFrame>,
    loops: Vec<ScopeId>,
    /// Whether each binding of an enclosing function is read-only.
    parent_metadata: Vec<(BindingId, bool)>,
    vararg_available: bool,
    vararg_binding: Option<BindingId>,
    label_count: usize,
    goto_count: usize,
    parent_visible: Option<Vec<(Vec<u8>, ParentBinding)>>,
    inherited_global_mode: Option<bool>,
    implicit_globals: Vec<(Vec<u8>, BindingId)>,
    completed_functions: Vec<ResolvedFunction>,
}

/// The value the first entry named `name` maps to.
fn name_find<V: Copy>(entries: &Vec<(Vec<u8>, V)>, name: &[u8]) -> (r: Option<V>)
    ensures
        r matches Some(v) ==> exists|j: int| 0 <= j < entries@.len() && (#[trigger] entries@[j]).1 == v && entries@[j].0@ == name@,
        r is None ==> forall|j: int| 0 <= j < entries@.len() ==> (#[trigger] entries@[j]).0@ != name@,
{
    let mut i: usize = 0;
    while i < entries.len()
        invariant
            i <= entries@.len(),
            forall|j: int| 0 <= j < i ==> (#[trigger] entries@[j]).0@ != name@,
        decreases entries.len() - i,
    {
        if bytes_equal(&entries[i].0, name) {
            return Some(entries[i].1);
        }
        i = i + 1;
    }
    None
}

/// Maps `name` to `value`, replacing an earlier entry of that name.
fn name_insert<V: Copy>(entries: &mut Vec<(Vec<u8>, V)>, name: Vec<u8>, value: V)
    ensures
        forall|j: int| 0 <= j < final(entries)@.len() ==> ((#[trigger] final(entries)@[j]).1 == value && final(entries)@[j].0@ == name@)
            || (j < old(entries)@.len() && final(entries)@[j] == old(entries)@[j]),
{
    let mut i: usize = 0;
    while i < entries.len()
        invariant
            i <= entries@.len(),
            entries@ == old(entries)@,
        decreases entries.len() - i,
    {
        if bytes_equal(&entries[i].0, name.as_slice()) {
            entries.set(i, (name, value));
            return;
        }
        i = i + 1;
    }
    entries.push((name, value));
}

fn diagnostic(token: Option<&Token>, code: DiagnosticCode, message: &'static str) -> (r: Diagnostic)
    ensures
        r.code == code,
{
    match token {
        Some(token) => Diagnostic { code, span: token.span, start: token.start, end: token.end, message },
        None => Diagnostic {
            code,
            span: Span { start_byte: 0, end_byte: 0 },
            start: SourcePosition { line: 1, column: 1 },
            end: SourcePosition { line: 1, column: 1 },
            message,
        },
    }
}

/// A diagnostic at the token that starts where `span` starts, or else at
/// the last token.
fn diagnostic_at_span(lexed: &LexedChunk, span: Span, code: DiagnosticCode, message: &'static str) -> (r: Diagnostic)
    ensures
        r.code == code,
{
    let mut i: usize = 0;
    while i < lexed.tokens.len()
        invariant
            i <= lexed.tokens@.len(),
        decreases lexed.tokens.len() - i,
    {
        if lexed.tokens[i].span.start_byte == span.start_byte {
            return diagnostic(Some(&lexed.tokens[i]), code, message);
        }
        i = i + 1;
    }
    if lexed.tokens.len() > 0 {
        diagnostic(Some(&lexed.tokens[lexed.tokens.len() - 1]), code, message)
    } else {
        diagnostic(None, code, message)
    }
}

fn validate_input(module: &Module, lexed: &LexedChunk, expected_profile: LanguageProfile) -> (r: Result<(), Diagnostic>)
    ensures
        r is Ok <==> input_matches(*module, *lexed, expected_profile),
        r matches Err(d) ==> d.code == DiagnosticCode::Resolve,
{
    if lexed.tokens.len() == 0 {
        return Err(diagnostic(None, DiagnosticCode::Resolve, "token 串流缺少 EOF"));
    }
    let eof = &lexed.tokens[lexed.tokens.len() - 1];
    if module.profile != expected_profile || lexed.profile != expected_profile {
        return Err(diagnostic(Some(eof), DiagnosticCode::Resolve, "語言 profile 不符"));
    }
    if module.span.end_byte != lexed.source_len {
        return Err(diagnostic(Some(eof), DiagnosticCode::Resolve, "module 與來源長度不符"));
    }
    let is_eof = match eof.kind {
        TokenKind::Eof => true,
        _ => false,
    };
    if !is_eof || eof.span.start_byte != lexed.source_len || eof.span.end_byte != lexed.source_len {
        return Err(diagnostic(Some(eof), DiagnosticCode::Resolve, "token 串流 EOF 不符"));
    }
    Ok(())
}

/// The scope declares `name`.
spec fn frame_declares(f: ScopeFrame, name: Seq<u8>) -> bool {
    exists|j: int| 0 <= j < f.bindings@.len() && (#[trigger] f.bindings@[j]).0@ == name
}

/// The first entry of `bindings` for binding `b` marks it as a global.
spec fn marked_global(bindings: Seq<BindingMeta>, b: BindingId) -> bool {
    exists|i: int| 0 <= i < bindings.len() && (#[trigger] bindings[i]).id == b && bindings[i].kind == BindingKind::Global
        && forall|k: int| 0 <= k < i ==> bindings[k].id != b
}

/// The scope declares `name` as binding `b`.
spec fn frame_binds(f: ScopeFrame, name: Seq<u8>, b: BindingId) -> bool {
    exists|j: int| 0 <= j < f.bindings@.len() && (#[trigger] f.bindings@[j]).0@ == name && f.bindings@[j].1 == b
}

/// Every name a scope binds is a binding of `owner` of that name among
/// `bindings`.
spec fn scopes_owned(scopes: Seq<ScopeFrame>, owner: FunctionId, bindings: Seq<BindingMeta>) -> bool {
    forall|k: int, j: int| 0 <= k < scopes.len() && 0 <= j < scopes[k].bindings@.len() ==> {
        &&& (#[trigger] scopes[k].bindings@[j]).1.function == owner
        &&& names_binding(bindings, scopes[k].bindings@[j].1, scopes[k].bindings@[j].0@)
    }
}

proof fn lemma_scopes_owned_grow(scopes: Seq<ScopeFrame>, owner: FunctionId, b1: Seq<BindingMeta>, b2: Seq<BindingMeta>)
    requires
        scopes_owned(scopes, owner, b1),
        extends(b1, b2),
    ensures
        scopes_owned(scopes, owner, b2),
{
    assert forall|k: int, j: int| 0 <= k < scopes.len() && 0 <= j < scopes[k].bindings@.len() implies {
        &&& (#[trigger] scopes[k].bindings@[j]).1.function == owner
        &&& names_binding(b2, scopes[k].bindings@[j].1, scopes[k].bindings@[j].0@)
    } by {
        let o = scopes[k].bindings@[j].1.ordinal as int;
        assert(b2[o] == b1[o]);
    }
}

/// A scope taken off and put back with the same names keeps every name
/// bound to `owner`.
proof fn lemma_frame_put_back(scopes: Seq<ScopeFrame>, frame: ScopeFrame, owner: FunctionId, bindings: Seq<BindingMeta>)
    requires
        scopes_owned(scopes, owner, bindings),
        scopes.len() >= 1,
        frame.bindings@ == scopes.last().bindings@,
    ensures
        scopes_owned(scopes.drop_last().push(frame), owner, bindings),
{
    let after = scopes.drop_last().push(frame);
    assert forall|k: int, j: int| 0 <= k < after.len() && 0 <= j < after[k].bindings@.len() implies {
        &&& (#[trigger] after[k].bindings@[j]).1.function == owner
        &&& names_binding(bindings, after[k].bindings@[j].1, after[k].bindings@[j].0@)
    } by {
        if k < scopes.len() - 1 {
            assert(after[k] == scopes[k]);
        } else {
            assert(after[k].bindings@[j] == scopes[scopes.len() - 1].bindings@[j]);
        }
    }
}

impl<'a> Resolver<'a> {
    /// The bindings are numbered by position under the function being
    /// resolved, every name in scope is one of them, and every count stays
    /// within its limit.
    spec fn inv(&self) -> bool {
        &&& scopes_owned(self.scopes@, self.owner, self.bindings@)
        &&& self.owner.0 < self.next_function
        &&& forall|i: int| 0 <= i < self.completed_functions@.len() ==>
            self.owner.0 < (#[trigger] self.completed_functions@[i]).id.0 < self.next_function
        &&& self.next_binding == self.bindings@.len()
        &&& self.bindings@.len() <= self.limits.max_bindings_per_function
        &&& self.upvalues@.len() <= self.limits.max_upvalues_per_function
        &&& forall|i: int| 0 <= i < self.bindings@.len() ==> {
            &&& (#[trigger] self.bindings@[i]).id.function == self.owner
            &&& self.bindings@[i].id.ordinal == i
            &&& self.bindings@[i].owner == self.owner
        }
        &&& forall|i: int| 0 <= i < self.completed_functions@.len() ==> function_wf(#[trigger] self.completed_functions@[i], self.limits)
        &&& self.label_count <= self.limits.max_labels
        &&& self.goto_count <= self.limits.max_gotos
    }
}

/// One resolver state follows another: same input, limits, profile and
/// function, the same enclosing loops, the invariant kept, and earlier
/// bindings left as they were.
spec fn kept(before: Resolver, after: Resolver) -> bool {
    &&& after.lexed == before.lexed
    &&& after.limits == before.limits
    &&& after.profile == before.profile
    &&& after.owner == before.owner
    &&& after.inv()
    &&& before.bindings@.len() <= after.bindings@.len()
    &&& forall|i: int| 0 <= i < before.bindings@.len() ==> after.bindings@[i] == before.bindings@[i]
    &&& extends(before.completed_functions@, after.completed_functions@)
    &&& before.next_function <= after.next_function
    &&& after.loops@ == before.loops@
}

/// The binding tables a resolver state knows: its own bindings for the
/// function it resolves, and those of the functions it has finished.
spec fn tables_of(r: Resolver) -> spec_fn(FunctionId) -> Seq<BindingMeta> {
    |g: FunctionId| if g == r.owner { r.bindings@ } else { table_of(r.completed_functions@, g) }
}

/// The first match in a longer list of functions is the first match in the
/// shorter one, when the shorter one has a match at all.
proof fn lemma_table_of_extends(a: Seq<ResolvedFunction>, b: Seq<ResolvedFunction>, g: FunctionId)
    requires
        extends(a, b),
    ensures
        extends(table_of(a, g), table_of(b, g)),
    decreases a.len(),
{
    if a.len() > 0 {
        assert(b[0] == a[0]);
        if a[0].id != g {
            assert(extends(a.drop_first(), b.drop_first())) by {
                assert forall|i: int| 0 <= i < a.drop_first().len() implies b.drop_first()[i] == a.drop_first()[i] by {
                    assert(b[i + 1] == a[i + 1]);
                }
            }
            lemma_table_of_extends(a.drop_first(), b.drop_first(), g);
        }
    }
}

/// Functions none of which has id `g` do not change where `g` is found.
proof fn lemma_table_of_skip(a: Seq<ResolvedFunction>, b: Seq<ResolvedFunction>, g: FunctionId)
    requires
        forall|i: int| 0 <= i < a.len() ==> (#[trigger] a[i]).id != g,
    ensures
        table_of(a + b, g) == table_of(b, g),
    decreases a.len(),
{
    if a.len() > 0 {
        assert((a + b)[0] == a[0]);
        assert((a + b).drop_first() =~= a.drop_first() + b);
        assert forall|i: int| 0 <= i < a.drop_first().len() implies (#[trigger] a.drop_first()[i]).id != g by {
            assert(a.drop_first()[i] == a[i + 1]);
        }
        lemma_table_of_skip(a.drop_first(), b, g);
    } else {
        assert(a + b =~= b);
    }
}

/// No function has id `g`: no table.
proof fn lemma_table_of_absent(a: Seq<ResolvedFunction>, g: FunctionId)
    requires
        forall|i: int| 0 <= i < a.len() ==> (#[trigger] a[i]).id != g,
    ensures
        table_of(a, g) == Seq::<BindingMeta>::empty(),
    decreases a.len(),
{
    if a.len() > 0 {
        assert forall|i: int| 0 <= i < a.drop_first().len() implies (#[trigger] a.drop_first()[i]).id != g by {
            assert(a.drop_first()[i] == a[i + 1]);
        }
        lemma_table_of_absent(a.drop_first(), g);
    }
}

proof fn lemma_kept_grows(before: Resolver, after: Resolver)
    requires
        kept(before, after),
    ensures
        grows(tables_of(before), tables_of(after)),
{
    assert forall|g: FunctionId| #[trigger] extends(tables_of(before)(g), tables_of(after)(g)) by {
        if g != before.owner {
            lemma_table_of_extends(before.completed_functions@, after.completed_functions@, g);
        }
    }
}

/// A finished nested function joins its parent's list after the parent's
/// earlier functions, followed by the functions nested in it: every table
/// the nested resolver knew is still found, unchanged, in the parent.
proof fn lemma_child_tables(c0: Seq<ResolvedFunction>, meta: ResolvedFunction, cc: Seq<ResolvedFunction>, parent: Resolver, child: Resolver)
    requires
        parent.completed_functions@ == c0 + seq![meta] + cc,
        forall|i: int| 0 <= i < c0.len() ==> (#[trigger] c0[i]).id.0 < meta.id.0,
        forall|i: int| 0 <= i < cc.len() ==> meta.id.0 < (#[trigger] cc[i]).id.0,
        parent.owner.0 < meta.id.0,
        child.owner == meta.id,
        child.bindings@ == meta.bindings@,
        child.completed_functions@ == cc,
    ensures
        grows(tables_of(child), tables_of(parent)),
{
    let rest = seq![meta] + cc;
    assert(parent.completed_functions@ =~= c0 + rest);
    assert(rest[0] == meta);
    assert(rest.drop_first() =~= cc);
    assert forall|g: FunctionId| #[trigger] extends(tables_of(child)(g), tables_of(parent)(g)) by {
        if g == meta.id {
            lemma_table_of_skip(c0, rest, g);
        } else if g.0 < meta.id.0 {
            lemma_table_of_absent(cc, g);
        } else {
            lemma_table_of_skip(c0, rest, g);
        }
    }
}

/// Two states with the same function, bindings and finished functions know
/// the same tables.
proof fn lemma_same_tables(a: Resolver, b: Resolver)
    requires
        a.owner == b.owner,
        a.bindings@ == b.bindings@,
        a.completed_functions@ == b.completed_functions@,
    ensures
        grows(tables_of(a), tables_of(b)),
{
    assert forall|g: FunctionId| #[trigger] extends(tables_of(a)(g), tables_of(b)(g)) by {
        assert(tables_of(a)(g) == tables_of(b)(g));
    }
}

proof fn lift_expr(e: Expr, r: ResolvedExpr, f: FunctionId, before: Resolver, after: Resolver)
    requires
        expr_mirrors(e, r, f, tables_of(before)),
        kept(before, after),
    ensures
        expr_mirrors(e, r, f, tables_of(after)),
{
    lemma_kept_grows(before, after);
    lemma_expr_lift(e, r, f, tables_of(before), tables_of(after));
}

proof fn lift_field(x: TableField, r: ResolvedTableField, f: FunctionId, before: Resolver, after: Resolver)
    requires
        field_mirrors(x, r, f, tables_of(before)),
        kept(before, after),
    ensures
        field_mirrors(x, r, f, tables_of(after)),
{
    lemma_kept_grows(before, after);
    lemma_field_lift(x, r, f, tables_of(before), tables_of(after));
}

proof fn lift_block(b: Block, r: ResolvedBlock, f: FunctionId, before: Resolver, after: Resolver)
    requires
        block_mirrors(b, r, f, tables_of(before)),
        kept(before, after),
    ensures
        block_mirrors(b, r, f, tables_of(after)),
{
    lemma_kept_grows(before, after);
    lemma_block_lift(b, r, f, tables_of(before), tables_of(after));
}

proof fn lift_stmt(x: Stmt, r: ResolvedStmt, f: FunctionId, before: Resolver, after: Resolver)
    requires
        stmt_mirrors(x, r, f, tables_of(before)),
        kept(before, after),
    ensures
        stmt_mirrors(x, r, f, tables_of(after)),
{
    lemma_kept_grows(before, after);
    lemma_stmt_lift(x, r, f, tables_of(before), tables_of(after));
}

proof fn lift_local(n: LocalName, r: ResolvedLocalName, f: FunctionId, before: Resolver, after: Resolver)
    requires
        local_mirrors(n, r, f, before.bindings@),
        kept(before, after),
    ensures
        local_mirrors(n, r, f, after.bindings@),
{
    lemma_local_lift(n, r, f, before.bindings@, after.bindings@);
}

impl<'a> Resolver<'a> {
    fn limit(&self, span: Span, message: &'static str) -> (r: Diagnostic)
        ensures
            r.code == DiagnosticCode::CompileLimit,
    {
        diagnostic_at_span(self.lexed, span, DiagnosticCode::CompileLimit, message)
    }

    fn resolve_error(&self, span: Span, message: &'static str) -> (r: Diagnostic)
        ensures
            r.code == DiagnosticCode::Resolve,
    {
        diagnostic_at_span(self.lexed, span, DiagnosticCode::Resolve, message)
    }

    fn enter_scope(&mut self, span: Span) -> (r: Result<(), Diagnostic>)
        requires
            old(self).inv(),
        ensures
            kept(*old(self), *final(self)),
            r is Ok ==> final(self).scopes@.len() == old(self).scopes@.len() + 1,
            r is Err ==> final(self).scopes@.len() == old(self).scopes@.len(),
            final(self).bindings@ == old(self).bindings@,
            r matches Err(d) ==> resolve_diagnostic(d),
    {
        if self.scopes.len() >= self.limits.max_scope_depth {
            return Err(self.limit(span, "作用域深度超過編譯限制"));
        }
        let ordinal = match self.next_scope.checked_add(1) {
            Some(n) => n,
            None => {
                return Err(self.limit(span, "作用域數超過編譯限制"));
            },
        };
        let id = ScopeId(self.next_scope);
        self.next_scope = ordinal;
        self.scopes.push(ScopeFrame {
            id,
            bindings: Vec::new(),
            close_bindings: Vec::new(),
            labels: Vec::new(),
            declaration_spans: Vec::new(),
            global_mode: None,
        });
        Ok(())
    }

    fn current_scope(&self) -> (r: ScopeId)
        requires
            self.scopes@.len() >= 1,
    {
        self.scopes[self.scopes.len() - 1].id
    }

    fn ensure_list(&self, len: usize, span: Span) -> (r: Result<(), Diagnostic>)
        ensures
            r is Ok <==> len <= self.limits.max_ast_nodes,
            r matches Err(d) ==> resolve_diagnostic(d),
    {
        if len > self.limits.max_ast_nodes {
            Err(self.limit(span, "list 超過編譯限制"))
        } else {
            Ok(())
        }
    }

    fn ensure_binding_capacity(&self, count: usize, span: Span) -> (r: Result<(), Diagnostic>)
        requires
            self.inv(),
        ensures
            r is Ok <==> self.bindings@.len() + count <= self.limits.max_bindings_per_function,
            r matches Err(d) ==> resolve_diagnostic(d),
    {
        let room = self.limits.max_bindings_per_function - self.bindings.len();
        if count > room {
            Err(self.limit(span, "binding 數超過編譯限制"))
        } else {
            Ok(())
        }
    }

    /// Whether an attribute makes a binding read-only or to-be-closed.
    fn binding_flags(&self, attribute: &Option<Attribute>, requested_readonly: bool, span: Span) -> (r: Result<(bool, Option<Span>), Diagnostic>)
        ensures
            r matches Err(d) ==> resolve_diagnostic(d),
    {
        match attribute {
            None => Ok((requested_readonly, None)),
            Some(attribute) => {
                if bytes_equal(&attribute.name, &[99u8, 111u8, 110u8, 115u8, 116u8]) {
                    Ok((true, None))
                } else if bytes_equal(&attribute.name, &[99u8, 108u8, 111u8, 115u8, 101u8]) {
                    Ok((true, Some(attribute.span)))
                } else {
                    Err(self.resolve_error(span, "未知 local attribute"))
                }
            },
        }
    }

    fn allocate_binding(
        &mut self,
        name: Vec<u8>,
        span: Span,
        attribute: Option<Attribute>,
        kind: BindingKind,
        readonly: bool,
        close_marker: Option<Span>,
        scope_depth: usize,
    ) -> (r: Result<BindingId, Diagnostic>)
        requires
            old(self).inv(),
        ensures
            kept(*old(self), *final(self)),
            final(self).scopes@.len() == old(self).scopes@.len(),
            r matches Ok(id) ==> {
                &&& final(self).bindings@.len() == old(self).bindings@.len() + 1
                &&& id == final(self).bindings@.last().id
                &&& final(self).bindings@.last().name@ == name@
                &&& final(self).bindings@.last().kind == kind
            },
            r is Err ==> final(self).bindings@ == old(self).bindings@,
            r matches Err(d) ==> resolve_diagnostic(d),
    {
        if self.bindings.len() >= self.limits.max_bindings_per_function {
            return Err(self.limit(span, "binding 數超過編譯限制"));
        }
        if self.next_binding > 0xffff_ffffusize {
            return Err(self.limit(span, "binding 數超過編譯限制"));
        }
        let ordinal = self.next_binding as u32;
        self.next_binding = self.next_binding + 1;
        let id = BindingId { function: self.owner, ordinal };
        let ghost before = self.bindings@;
        self.bindings.push(BindingMeta {
            id,
            name,
            span,
            kind,
            owner: self.owner,
            scope_depth,
            readonly,
            attribute,
            close_marker,
        });
        proof {
            lemma_scopes_owned_grow(self.scopes@, self.owner, before, self.bindings@);
        }
        Ok(id)
    }

    fn declare_binding(
        &mut self,
        name: Vec<u8>,
        span: Span,
        attribute: Option<Attribute>,
        kind: BindingKind,
        readonly: bool,
    ) -> (r: Result<BindingId, Diagnostic>)
        requires
            old(self).inv(),
            old(self).scopes@.len() >= 1,
        ensures
            kept(*old(self), *final(self)),
            final(self).scopes@.len() == old(self).scopes@.len(),
            r matches Ok(id) ==> {
                &&& final(self).bindings@.len() == old(self).bindings@.len() + 1
                &&& id == final(self).bindings@.last().id
                &&& final(self).bindings@.last().name@ == name@
                &&& final(self).bindings@.last().kind == kind
            },
            r matches Err(d) ==> resolve_diagnostic(d),
    {
        let (readonly, close_marker) = self.binding_flags(&attribute, readonly, span)?;
        let scope_depth = self.scopes.len() - 1;
        let key = name.clone();
        let id = self.allocate_binding(name, span, attribute, kind, readonly, close_marker, scope_depth)?;
        let last = self.scopes.len() - 1;
        let mut frame = self.scopes.remove(last);
        name_insert(&mut frame.bindings, key, id);
        if close_marker.is_some() {
            frame.close_bindings.push(id);
        }
        self.scopes.push(frame);
        Ok(id)
    }

    fn declare_generic_for_close(&mut self, span: Span) -> (r: Result<BindingId, Diagnostic>)
        requires
            old(self).inv(),
            old(self).scopes@.len() >= 1,
        ensures
            kept(*old(self), *final(self)),
            final(self).scopes@.len() == old(self).scopes@.len(),
            r matches Err(d) ==> resolve_diagnostic(d),
    {
        let scope_depth = self.scopes.len() - 1;
        let name: Vec<u8> = vec![60u8, 103u8, 101u8, 110u8, 101u8, 114u8, 105u8, 99u8, 45u8, 102u8, 111u8, 114u8, 45u8, 99u8, 108u8, 111u8, 115u8, 101u8, 62u8];
        let binding = self.allocate_binding(name, span, None, BindingKind::GenericForClose, true, Some(span), scope_depth)?;
        // The hidden binding is close-path metadata only: no Lua name reaches it.
        let last = self.scopes.len() - 1;
        let mut frame = self.scopes.remove(last);
        frame.close_bindings.push(binding);
        self.scopes.push(frame);
        Ok(binding)
    }

    fn declare_implicit_global(&mut self, name: &[u8], span: Span) -> (r: Result<BindingId, Diagnostic>)
        requires
            old(self).inv(),
        ensures
            kept(*old(self), *final(self)),
            final(self).scopes@.len() == old(self).scopes@.len(),
            r matches Err(d) ==> resolve_diagnostic(d),
    {
        if let Some(binding) = name_find(&self.implicit_globals, name) {
            return Ok(binding);
        }
        let owned = slice_to_vec(name);
        let key = slice_to_vec(name);
        let binding = self.allocate_binding(owned, span, None, BindingKind::Global, false, None, 0)?;
        name_insert(&mut self.implicit_globals, key, binding);
        Ok(binding)
    }

    fn binding_kind(&self, binding: BindingId) -> (r: Option<BindingKind>)
        ensures
            (r == Some(BindingKind::Global)) == marked_global(self.bindings@, binding),
    {
        let mut i: usize = 0;
        while i < self.bindings.len()
            invariant
                i <= self.bindings@.len(),
                forall|k: int| 0 <= k < i ==> self.bindings@[k].id != binding,
            decreases self.bindings.len() - i,
        {
            if self.bindings[i].id == binding {
                return Some(self.bindings[i].kind);
            }
            i = i + 1;
        }
        None
    }

    fn binding_readonly(&self, binding: BindingId) -> (r: Option<bool>) {
        let mut i: usize = 0;
        while i < self.bindings.len()
            invariant
                i <= self.bindings@.len(),
            decreases self.bindings.len() - i,
        {
            if self.bindings[i].id == binding {
                return Some(self.bindings[i].readonly);
            }
            i = i + 1;
        }
        let mut j: usize = self.parent_metadata.len();
        while j > 0
            invariant
                j <= self.parent_metadata@.len(),
            decreases j,
        {
            j = j - 1;
            if self.parent_metadata[j].0 == binding {
                return Some(self.parent_metadata[j].1);
            }
        }
        None
    }

    fn upvalue_binding(&self, upvalue: UpvalueId, span: Span) -> (r: Result<BindingId, Diagnostic>)
        ensures
            r matches Err(d) ==> resolve_diagnostic(d),
    {
        let index = upvalue.0 as usize;
        if index < self.upvalue_bindings.len() {
            Ok(self.upvalue_bindings[index])
        } else {
            Err(self.resolve_error(span, "upvalue binding 索引不符"))
        }
    }

    /// The upvalue number already given to `binding`, if any.
    fn upvalue_of(&self, binding: BindingId) -> (r: Option<UpvalueId>) {
        let mut i: usize = 0;
        while i < self.upvalue_bindings.len()
            invariant
                i <= self.upvalue_bindings@.len(),
            decreases self.upvalue_bindings.len() - i,
        {
            if self.upvalue_bindings[i] == binding {
                if i > 0xffff_ffffusize {
                    return None;
                }
                return Some(UpvalueId(i as u32));
            }
            i = i + 1;
        }
        None
    }

    fn reserve_upvalue(&mut self, binding: BindingId, source: UpvalueSource, span: Span) -> (r: Result<UpvalueId, Diagnostic>)
        requires
            old(self).inv(),
        ensures
            kept(*old(self), *final(self)),
            final(self).scopes@.len() == old(self).scopes@.len(),
            final(self).bindings@ == old(self).bindings@,
            final(self).completed_functions@ == old(self).completed_functions@,
            final(self).next_function == old(self).next_function,
            r matches Err(d) ==> resolve_diagnostic(d),
    {
        if let Some(id) = self.upvalue_of(binding) {
            return Ok(id);
        }
        if self.upvalues.len() >= self.limits.max_upvalues_per_function {
            return Err(self.limit(span, "upvalue 數超過編譯限制"));
        }
        if self.upvalues.len() > 0xffff_ffffusize {
            return Err(self.limit(span, "upvalue 數超過編譯限制"));
        }
        let id = UpvalueId(self.upvalues.len() as u32);
        self.upvalues.push(source);
        self.upvalue_bindings.push(binding);
        Ok(id)
    }

    fn capture_parent_local(&mut self, binding: BindingId, span: Span) -> (r: Result<UpvalueId, Diagnostic>)
        requires
            old(self).inv(),
        ensures
            kept(*old(self), *final(self)),
            final(self).scopes@.len() == old(self).scopes@.len(),
            final(self).bindings@ == old(self).bindings@,
            final(self).completed_functions@ == old(self).completed_functions@,
            final(self).next_function == old(self).next_function,
            r matches Err(d) ==> resolve_diagnostic(d),
    {
        self.reserve_upvalue(binding, UpvalueSource::ParentLocal(binding), span)
    }

    fn capture_ancestor(&mut self, binding: BindingId, span: Span) -> (r: Result<UpvalueId, Diagnostic>)
        requires
            old(self).inv(),
        ensures
            kept(*old(self), *final(self)),
            final(self).scopes@.len() == old(self).scopes@.len(),
            final(self).bindings@ == old(self).bindings@,
            final(self).completed_functions@ == old(self).completed_functions@,
            final(self).next_function == old(self).next_function,
            r matches Err(d) ==> resolve_diagnostic(d),
    {
        if let Some(id) = self.upvalue_of(binding) {
            return Ok(id);
        }
        let id = self.reserve_upvalue(binding, UpvalueSource::ParentLocal(binding), span)?;
        self.pending_ancestor_captures.push((binding, id));
        Ok(id)
    }

    /// The upvalue through which this function passes `binding` of an
    /// enclosing function on to a nested one.
    fn capture_for_child(&mut self, binding: BindingId, span: Span) -> (r: Result<UpvalueId, Diagnostic>)
        requires
            old(self).inv(),
        ensures
            kept(*old(self), *final(self)),
            final(self).scopes@.len() == old(self).scopes@.len(),
            final(self).bindings@ == old(self).bindings@,
            final(self).completed_functions@ == old(self).completed_functions@,
            final(self).next_function == old(self).next_function,
            r matches Err(d) ==> resolve_diagnostic(d),
    {
        let mut source: Option<ParentBinding> = None;
        match &self.parent_visible {
            Some(visible) => {
                let mut i: usize = 0;
                while i < visible.len()
                    invariant
                        i <= visible@.len(),
                    decreases visible.len() - i,
                {
                    let candidate = visible[i].1;
                    let hit = match candidate {
                        ParentBinding::Direct(c) => c == binding,
                        ParentBinding::Ancestor(c) => c == binding,
                        ParentBinding::Global(_) => false,
                    };
                    if hit {
                        source = Some(candidate);
                        break;
                    }
                    i = i + 1;
                }
            },
            None => {},
        }
        match source {
            Some(ParentBinding::Direct(b)) => self.capture_parent_local(b, span),
            Some(ParentBinding::Ancestor(b)) => self.capture_ancestor(b, span),
            Some(ParentBinding::Global(_)) => Err(self.resolve_error(span, "global 不可作 upvalue 轉接")),
            None => Err(self.resolve_error(span, "upvalue 轉接來源不在父 function")),
        }
    }

    /// The innermost visible binding of `name`, capturing it as an upvalue
    /// when it belongs to an enclosing function.
    fn lookup(&mut self, name: &[u8], span: Span) -> (r: Result<Option<ResolvedName>, Diagnostic>)
        requires
            old(self).inv(),
        ensures
            kept(*old(self), *final(self)),
            final(self).scopes@.len() == old(self).scopes@.len(),
            r matches Ok(Some(ResolvedName::Local(b))) ==> b.function == old(self).owner && names_binding(final(self).bindings@, b, name@),
            r matches Ok(Some(ResolvedName::Local(b))) ==> exists|k: int| 0 <= k < old(self).scopes@.len()
                && frame_binds(#[trigger] old(self).scopes@[k], name@, b)
                && forall|k2: int| k < k2 < old(self).scopes@.len() ==> !frame_declares(#[trigger] old(self).scopes@[k2], name@),
            r matches Ok(Some(ResolvedName::Local(b))) ==> !marked_global(old(self).bindings@, b),
            r matches Ok(Some(ResolvedName::Global(b))) ==> (forall|k: int| 0 <= k < old(self).scopes@.len() ==> !frame_declares(#[trigger] old(self).scopes@[k], name@))
                || (marked_global(old(self).bindings@, b) && exists|k: int| 0 <= k < old(self).scopes@.len()
                    && frame_binds(#[trigger] old(self).scopes@[k], name@, b)
                    && forall|k2: int| k < k2 < old(self).scopes@.len() ==> !frame_declares(#[trigger] old(self).scopes@[k2], name@)),
            r matches Ok(Some(ResolvedName::Upvalue(_))) ==> forall|k: int| 0 <= k < old(self).scopes@.len() ==> !frame_declares(#[trigger] old(self).scopes@[k], name@),
            r matches Ok(None) ==> forall|k: int| 0 <= k < old(self).scopes@.len() ==> !frame_declares(#[trigger] old(self).scopes@[k], name@),
            r matches Err(d) ==> resolve_diagnostic(d),
    {
        let mut k: usize = self.scopes.len();
        while k > 0
            invariant
                k <= self.scopes@.len(),
                *self == *old(self),
                old(self).inv(),
                forall|k2: int| k <= k2 < old(self).scopes@.len() ==> !frame_declares(#[trigger] old(self).scopes@[k2], name@),
            decreases k,
        {
            k = k - 1;
            if let Some(binding) = name_find(&self.scopes[k].bindings, name) {
                let global = match self.binding_kind(binding) {
                    Some(BindingKind::Global) => true,
                    _ => false,
                };
                return Ok(Some(if global { ResolvedName::Global(binding) } else { ResolvedName::Local(binding) }));
            }
        }
        let found = match &self.parent_visible {
            Some(visible) => name_find(visible, name),
            None => None,
        };
        match found {
            Some(ParentBinding::Direct(binding)) => {
                let id = self.capture_parent_local(binding, span)?;
                Ok(Some(ResolvedName::Upvalue(id)))
            },
            Some(ParentBinding::Ancestor(binding)) => {
                let id = self.capture_ancestor(binding, span)?;
                Ok(Some(ResolvedName::Upvalue(id)))
            },
            Some(ParentBinding::Global(binding)) => Ok(Some(ResolvedName::Global(binding))),
            None => Ok(None),
        }
    }

    fn effective_global_mode(&self) -> (r: Option<bool>) {
        let mut k: usize = self.scopes.len();
        while k > 0
            invariant
                k <= self.scopes@.len(),
            decreases k,
        {
            k = k - 1;
            if let Some(mode) = self.scopes[k].global_mode {
                return Some(mode);
            }
        }
        self.inherited_global_mode
    }

    fn set_explicit_global_mode(&mut self, restrictive: bool)
        requires
            old(self).inv(),
            old(self).scopes@.len() >= 1,
        ensures
            kept(*old(self), *final(self)),
            final(self).scopes@.len() == old(self).scopes@.len(),
            final(self).bindings@ == old(self).bindings@,
    {
        let last = self.scopes.len() - 1;
        let mut frame = self.scopes.remove(last);
        frame.global_mode = Some(restrictive);
        self.scopes.push(frame);
    }

    /// A name no scope binds: a field of `_ENV` under Lua 5.4, an implicit
    /// global under Lua 5.5 unless an explicit global scope is in force.
    fn resolve_free_name(&mut self, name: &[u8], span: Span) -> (r: Result<Option<ResolvedName>, Diagnostic>)
        requires
            old(self).inv(),
        ensures
            kept(*old(self), *final(self)),
            final(self).scopes@.len() == old(self).scopes@.len(),
            r matches Ok(Some(x)) ==> !(x is Local),
            name@ == seq![95u8, 69u8, 78u8, 86u8] ==> r == Ok::<Option<ResolvedName>, Diagnostic>(None),
            r matches Ok(Some(x)) ==> (old(self).profile == LanguageProfile::Lua54
                ==> (x matches ResolvedName::EnvField { name: n, .. } && n@ == name@)),
            r matches Ok(Some(x)) ==> (old(self).profile == LanguageProfile::Lua55 ==> x is Global),
            r matches Err(d) ==> resolve_diagnostic(d),
    {
        let env: [u8; 4] = [95u8, 69u8, 78u8, 86u8];
        assert(env@ == seq![95u8, 69u8, 78u8, 86u8]);
        let owned = slice_to_vec(name);
        if bytes_equal(&owned, &env) {
            return Ok(None);
        }
        match self.profile {
            LanguageProfile::Lua55 => {
                match self.effective_global_mode() {
                    Some(true) => Ok(None),
                    _ => {
                        let binding = self.declare_implicit_global(name, span)?;
                        Ok(Some(ResolvedName::Global(binding)))
                    },
                }
            },
            LanguageProfile::Lua54 => {
                match self.lookup(&env, span)? {
                    Some(ResolvedName::Local(env)) => Ok(Some(ResolvedName::EnvField { env, name: owned })),
                    Some(ResolvedName::Upvalue(upvalue)) => {
                        let env = self.upvalue_binding(upvalue, span)?;
                        Ok(Some(ResolvedName::EnvField { env, name: owned }))
                    },
                    _ => Ok(None),
                }
            },
        }
    }

    fn ensure_writable(&self, resolution: &ResolvedName, span: Span) -> (r: Result<(), Diagnostic>)
        ensures
            r matches Err(d) ==> resolve_diagnostic(d),
    {
        let binding = match resolution {
            ResolvedName::Local(binding) => Some(*binding),
            ResolvedName::Upvalue(upvalue) => Some(self.upvalue_binding(*upvalue, span)?),
            _ => None,
        };
        if let Some(binding) = binding {
            let readonly = match self.binding_readonly(binding) {
                Some(r) => r,
                None => false,
            };
            if readonly {
                return Err(self.resolve_error(span, "不可指派 readonly binding"));
            }
        }
        Ok(())
    }

    /// The to-be-closed bindings an exit passes, innermost first, up to the
    /// target scope.
    fn close_path(&self, kind: ExitKind, target_scope: Option<ScopeId>, span: Span) -> (r: ClosePath)
        requires
            self.scopes@.len() >= 1,
        ensures
            r.kind == kind,
            r.span == span,
            r.target_scope == target_scope,
    {
        let mut bindings: Vec<BindingId> = Vec::new();
        let mut k: usize = self.scopes.len();
        while k > 0
            invariant
                k <= self.scopes@.len(),
            decreases k,
        {
            k = k - 1;
            let frame = &self.scopes[k];
            let reached = match target_scope {
                Some(t) => t == frame.id,
                None => false,
            };
            if reached {
                break;
            }
            let mut j: usize = frame.close_bindings.len();
            while j > 0
                invariant
                    j <= frame.close_bindings@.len(),
                decreases j,
            {
                j = j - 1;
                bindings.push(frame.close_bindings[j]);
            }
        }
        ClosePath { kind, span, from_scope: self.current_scope(), target_scope, bindings }
    }

    fn find_label(&self, name: &[u8]) -> (r: Option<LabelInfo>) {
        let mut k: usize = self.scopes.len();
        while k > 0
            invariant
                k <= self.scopes@.len(),
            decreases k,
        {
            k = k - 1;
            if let Some(label) = name_find(&self.scopes[k].labels, name) {
                return Some(label);
            }
        }
        None
    }

    /// Records the labels and local declarations of a block in its scope;
    /// a label name may appear once per scope.
    fn register_labels(&mut self, block: &Block) -> (r: Result<(), Diagnostic>)
        requires
            old(self).inv(),
            old(self).scopes@.len() >= 1,
        ensures
            kept(*old(self), *final(self)),
            final(self).scopes@.len() == old(self).scopes@.len(),
            r matches Err(d) ==> resolve_diagnostic(d),
    {
        let scope = self.current_scope();
        let mut label_count: usize = 0;
        let mut declaration_count: usize = 0;
        let mut i: usize = 0;
        while i < block.statements.len()
            invariant
                i <= block.statements@.len(),
                label_count <= i,
                declaration_count <= usize::MAX,
            decreases block.statements.len() - i,
        {
            match &block.statements[i] {
                Stmt::Label { .. } => {
                    label_count = label_count + 1;
                },
                Stmt::Local { names, .. } => {
                    declaration_count = declaration_count.saturating_add(names.len());
                },
                Stmt::LocalFunction { .. } => {
                    declaration_count = declaration_count.saturating_add(1);
                },
                _ => {},
            }
            i = i + 1;
        }
        if self.label_count.saturating_add(label_count) > self.limits.max_labels {
            return Err(self.limit(block.span, "label 數超過編譯限制"));
        }
        self.ensure_binding_capacity(declaration_count, block.span)?;
        let reserve_error = self.limit(block.span, "label 配置超過編譯限制");
        let declaration_reserve_error = self.limit(block.span, "local snapshot 配置超過編譯限制");
        let last = self.scopes.len() - 1;
        let ghost original = self.scopes@[last as int];
        let mut frame = self.scopes.remove(last);
        if frame.labels.try_reserve(label_count).is_err() {
            self.scopes.push(frame);
            return Err(reserve_error);
        }
        if frame.declaration_spans.try_reserve(declaration_count).is_err() {
            self.scopes.push(frame);
            return Err(declaration_reserve_error);
        }
        let mut i: usize = 0;
        while i < block.statements.len()
            invariant
                i <= block.statements@.len(),
                kept(*old(self), *self),
                self.scopes@.len() + 1 == old(self).scopes@.len(),
                self.scopes@ == old(self).scopes@.drop_last(),
                frame.bindings@ == original.bindings@,
                original == old(self).scopes@.last(),
                old(self).scopes@.len() >= 1,
                scopes_owned(old(self).scopes@, self.owner, self.bindings@),
            decreases block.statements.len() - i,
        {
            match &block.statements[i] {
                Stmt::Local { names, .. } => {
                    let mut j: usize = 0;
                    while j < names.len()
                        invariant
                            j <= names@.len(),
                            frame.bindings@ == original.bindings@,
                        decreases names.len() - j,
                    {
                        frame.declaration_spans.push(names[j].span);
                        j = j + 1;
                    }
                },
                Stmt::LocalFunction { name, .. } => {
                    frame.declaration_spans.push(name.span);
                },
                Stmt::Label { name, name_span, .. } => {
                    if name_find(&frame.labels, name.as_slice()).is_some() {
                        proof {
                            lemma_frame_put_back(old(self).scopes@, frame, self.owner, self.bindings@);
                        }
                        self.scopes.push(frame);
                        return Err(self.resolve_error(*name_span, "同一作用域的 label 重複"));
                    }
                    frame.labels.push((name.clone(), LabelInfo { scope, span: *name_span }));
                },
                _ => {},
            }
            i = i + 1;
        }
        self.scopes.push(frame);
        Ok(())
    }

    /// Every `goto` of a block finds a visible label and does not jump into
    /// the scope of a local.
    fn validate_block_gotos(&self, block: &Block) -> (r: Result<(), Diagnostic>)
        requires
            self.inv(),
        ensures
            r matches Err(d) ==> resolve_diagnostic(d),
    {
        let mut gotos: usize = 0;
        let mut i: usize = 0;
        while i < block.statements.len()
            invariant
                i <= block.statements@.len(),
                gotos <= i,
            decreases block.statements.len() - i,
        {
            if let Stmt::Goto { .. } = &block.statements[i] {
                gotos = gotos + 1;
            }
            i = i + 1;
        }
        if self.goto_count.saturating_add(gotos) > self.limits.max_gotos {
            return Err(self.limit(block.span, "goto 數超過編譯限制"));
        }
        let mut i: usize = 0;
        while i < block.statements.len()
            invariant
                i <= block.statements@.len(),
            decreases block.statements.len() - i,
        {
            if let Stmt::Goto { name, span, .. } = &block.statements[i] {
                let label = match self.find_label(name.as_slice()) {
                    Some(label) => label,
                    None => {
                        return Err(self.resolve_error(*span, "找不到 goto label"));
                    },
                };
                let mut enters_local = false;
                let mut k: usize = 0;
                while k < self.scopes.len()
                    invariant
                        k <= self.scopes@.len(),
                    decreases self.scopes.len() - k,
                {
                    if self.scopes[k].id == label.scope {
                        let frame = &self.scopes[k];
                        let mut j: usize = 0;
                        while j < frame.declaration_spans.len()
                            invariant
                                j <= frame.declaration_spans@.len(),
                            decreases frame.declaration_spans.len() - j,
                        {
                            let declaration = frame.declaration_spans[j];
                            if declaration.start_byte > span.start_byte && declaration.start_byte < label.span.start_byte {
                                enters_local = true;
                            }
                            j = j + 1;
                        }
                        break;
                    }
                    k = k + 1;
                }
                if enters_local {
                    return Err(self.resolve_error(*span, "goto 不可跳入 local scope"));
                }
            }
            i = i + 1;
        }
        Ok(())
    }

    /// What a nested function sees of the names of this one and of its
    /// enclosing functions.
    fn visible_bindings(&self) -> (r: Vec<(Vec<u8>, ParentBinding)>) {
        let mut visible: Vec<(Vec<u8>, ParentBinding)> = Vec::new();
        match &self.parent_visible {
            Some(parent) => {
                let mut i: usize = 0;
                while i < parent.len()
                    invariant
                        i <= parent@.len(),
                    decreases parent.len() - i,
                {
                    let entry = match parent[i].1 {
                        ParentBinding::Direct(b) => ParentBinding::Ancestor(b),
                        ParentBinding::Ancestor(b) => ParentBinding::Ancestor(b),
                        ParentBinding::Global(b) => ParentBinding::Global(b),
                    };
                    name_insert(&mut visible, parent[i].0.clone(), entry);
                    i = i + 1;
                }
            },
            None => {},
        }
        let mut k: usize = 0;
        while k < self.scopes.len()
            invariant
                k <= self.scopes@.len(),
            decreases self.scopes.len() - k,
        {
            let frame = &self.scopes[k];
            let mut j: usize = 0;
            while j < frame.bindings.len()
                invariant
                    j <= frame.bindings@.len(),
                decreases frame.bindings.len() - j,
            {
                let binding = frame.bindings[j].1;
                let entry = match self.binding_kind(binding) {
                    Some(BindingKind::Global) => ParentBinding::Global(binding),
                    _ => ParentBinding::Direct(binding),
                };
                name_insert(&mut visible, frame.bindings[j].0.clone(), entry);
                j = j + 1;
            }
            k = k + 1;
        }
        visible
    }

    /// Whether each binding visible to a nested function is read-only.
    fn visible_binding_access(&self) -> (r: Vec<(BindingId, bool)>) {
        let mut visible: Vec<(BindingId, bool)> = Vec::new();
        let mut i: usize = 0;
        while i < self.parent_metadata.len()
            invariant
                i <= self.parent_metadata@.len(),
            decreases self.parent_metadata.len() - i,
        {
            visible.push(self.parent_metadata[i]);
            i = i + 1;
        }
        let mut i: usize = 0;
        while i < self.bindings.len()
            invariant
                i <= self.bindings@.len(),
            decreases self.bindings.len() - i,
        {
            visible.push((self.bindings[i].id, self.bindings[i].readonly));
            i = i + 1;
        }
        visible
    }
}

/// An owned copy of a byte slice.
/// A copy of a literal.
fn copy_literal(literal: &Literal) -> (r: Literal)
    ensures
        literal_same(*literal, r),
{
    match literal {
        Literal::Name(v) => Literal::Name(copy_bytes(v)),
        Literal::Integer(n) => Literal::Integer(*n),
        Literal::Float(v) => Literal::Float(copy_bytes(v)),
        Literal::String(v) => Literal::String(copy_bytes(v)),
    }
}

/// A copy of a byte string.
fn copy_bytes(bytes: &Vec<u8>) -> (r: Vec<u8>)
    ensures
        r@ == bytes@,
{
    let r = bytes.clone();
    assert(r@ =~= bytes@);
    r
}

fn slice_to_vec(bytes: &[u8]) -> (r: Vec<u8>)
    ensures
        r@ == bytes@,
{
    let mut out: Vec<u8> = Vec::new();
    let mut i: usize = 0;
    while i < bytes.len()
        invariant
            i <= bytes@.len(),
            out@ == bytes@.subrange(0, i as int),
        decreases bytes.len() - i,
    {
        out.push(bytes[i]);
        i = i + 1;
    }
    out
}

/// The source range of a statement.
fn stmt_span_of(statement: &Stmt) -> (r: Span)
    ensures
        r == crate::ast::stmt_span(*statement),
{
    match statement {
        Stmt::Empty { span } => *span,
        Stmt::Return { span, .. } => *span,
        Stmt::Assignment { span, .. } => *span,
        Stmt::Call { span, .. } => *span,
        Stmt::Local { span, .. } => *span,
        Stmt::Global { span, .. } => *span,
        Stmt::Break { span } => *span,
        Stmt::Goto { span, .. } => *span,
        Stmt::Label { span, .. } => *span,
        Stmt::Do { span, .. } => *span,
        Stmt::If { span, .. } => *span,
        Stmt::While { span, .. } => *span,
        Stmt::Repeat { span, .. } => *span,
        Stmt::NumericFor { span, .. } => *span,
        Stmt::GenericFor { span, .. } => *span,
        Stmt::Function { span, .. } => *span,
        Stmt::LocalFunction { span, .. } => *span,
    }
}

impl<'a> Resolver<'a> {
    /// The statements of a block, in the scope that is current.
    fn resolve_block(&mut self, block: &Block) -> (r: Result<ResolvedBlock, Diagnostic>)
        requires
            old(self).inv(),
            old(self).scopes@.len() >= 1,
        ensures
            kept(*old(self), *final(self)),
            final(self).scopes@.len() == old(self).scopes@.len(),
            r matches Ok(rb) ==> block_mirrors(*block, rb, old(self).owner, tables_of(*final(self))),
            r matches Err(d) ==> resolve_diagnostic(d),
            old(self).loops@.len() == 0 && (exists|i: int| 0 <= i < block.statements@.len() && #[trigger] block.statements@[i] is Break) ==> r is Err,
        decreases block, 0int,
    {
        if block.statements.len() > self.limits.max_statements || block.statements.len() > self.limits.max_ast_nodes {
            return Err(self.limit(block.span, "陳述式數超過編譯限制"));
        }
        self.register_labels(block)?;
        self.validate_block_gotos(block)?;
        let mut statements: Vec<ResolvedStmt> = Vec::new();
        if statements.try_reserve(block.statements.len()).is_err() {
            return Err(self.limit(block.span, "陳述式配置超過編譯限制"));
        }
        let mut i: usize = 0;
        while i < block.statements.len()
            invariant
                kept(*old(self), *self),
                self.scopes@.len() == old(self).scopes@.len(),
                self.scopes@.len() >= 1,
                i <= block.statements@.len(),
                statements@.len() == i,
                forall|j: int| 0 <= j < i ==> stmt_mirrors(#[trigger] block.statements@[j], statements@[j], self.owner, tables_of(*self)),
                old(self).loops@.len() == 0 ==> forall|j: int| 0 <= j < i ==> !(#[trigger] block.statements@[j] is Break),
            decreases block.statements.len() - i,
        {
            let ghost before = *self;
            let statement = self.resolve_statement(&block.statements[i])?;
            proof {
                assert forall|j: int| 0 <= j < i implies stmt_mirrors(#[trigger] block.statements@[j], statements@[j], self.owner, tables_of(*self)) by {
                    lift_stmt(block.statements@[j], statements@[j], self.owner, before, *self);
                }
            }
            statements.push(statement);
            i = i + 1;
        }
        let n = self.scopes.len();
        let outer = if n >= 2 { n - 2 } else { 0 };
        let target_scope = Some(self.scopes[outer].id);
        let scope = self.scopes[n - 1].id;
        let normal_close_path = self.close_path(ExitKind::Normal, target_scope, block.span);
        let error_close_path = self.close_path(ExitKind::Error, None, block.span);
        Ok(ResolvedBlock { scope, statements, terminator: block.terminator, span: block.span, normal_close_path, error_close_path })
    }

    /// A block in a scope of its own.
    fn resolve_nested_block(&mut self, block: &Block) -> (r: Result<ResolvedBlock, Diagnostic>)
        requires
            old(self).inv(),
            old(self).scopes@.len() >= 1,
        ensures
            kept(*old(self), *final(self)),
            final(self).scopes@.len() == old(self).scopes@.len(),
            r matches Ok(rb) ==> block_mirrors(*block, rb, old(self).owner, tables_of(*final(self))),
            r matches Err(d) ==> resolve_diagnostic(d),
        decreases block, 1int,
    {
        self.enter_scope(block.span)?;
        let result = self.resolve_block(block);
        self.scopes.pop();
        result
    }

    /// A list of expressions, within the list limit.
    fn resolve_expression_list(&mut self, expressions: &Vec<Expr>, span: Span) -> (r: Result<Vec<ResolvedExpr>, Diagnostic>)
        requires
            old(self).inv(),
            old(self).scopes@.len() >= 1,
        ensures
            kept(*old(self), *final(self)),
            final(self).scopes@.len() == old(self).scopes@.len(),
            r matches Ok(v) ==> v@.len() == expressions@.len()
                && forall|i: int| 0 <= i < expressions@.len() ==> expr_mirrors(#[trigger] expressions@[i], v@[i], old(self).owner, tables_of(*final(self))),
            r matches Err(d) ==> resolve_diagnostic(d),
        decreases expressions, 0int,
    {
        self.ensure_list(expressions.len(), span)?;
        let mut resolved: Vec<ResolvedExpr> = Vec::new();
        if resolved.try_reserve(expressions.len()).is_err() {
            return Err(self.limit(span, "運算式配置超過編譯限制"));
        }
        let mut i: usize = 0;
        while i < expressions.len()
            invariant
                kept(*old(self), *self),
                self.scopes@.len() == old(self).scopes@.len(),
                self.scopes@.len() >= 1,
                i <= expressions@.len(),
                resolved@.len() == i,
                forall|j: int| 0 <= j < i ==> expr_mirrors(#[trigger] expressions@[j], resolved@[j], self.owner, tables_of(*self)),
            decreases expressions.len() - i,
        {
            let ghost before = *self;
            let e = self.resolve_expr(&expressions[i])?;
            proof {
                assert forall|j: int| 0 <= j < i implies expr_mirrors(#[trigger] expressions@[j], resolved@[j], self.owner, tables_of(*self)) by {
                    lift_expr(expressions@[j], resolved@[j], self.owner, before, *self);
                }
            }
            resolved.push(e);
            i = i + 1;
        }
        Ok(resolved)
    }

    #[verifier::loop_isolation(false)]
    #[verifier::spinoff_prover]
    #[verifier::rlimit(60)]
    fn resolve_expr(&mut self, expression: &Expr) -> (r: Result<ResolvedExpr, Diagnostic>)
        requires
            old(self).inv(),
            old(self).scopes@.len() >= 1,
        ensures
            kept(*old(self), *final(self)),
            final(self).scopes@.len() == old(self).scopes@.len(),
            r matches Ok(re) ==> expr_mirrors(*expression, re, old(self).owner, tables_of(*final(self))),
            r matches Err(d) ==> resolve_diagnostic(d),
        decreases expression, 0int,
    {
        match expression {
            Expr::Literal { literal, span } => Ok(ResolvedExpr::Literal { literal: copy_literal(literal), span: *span }),
            Expr::Nil { span } => Ok(ResolvedExpr::Nil { span: *span }),
            Expr::Bool { value, span } => Ok(ResolvedExpr::Bool { value: *value, span: *span }),
            Expr::Name { name, span } => {
                let found = self.lookup(name.as_slice(), *span)?;
                let resolution = match found {
                    Some(resolution) => Some(resolution),
                    None => self.resolve_free_name(name.as_slice(), *span)?,
                };
                match resolution {
                    Some(resolution) => Ok(ResolvedExpr::Name { name: name.clone(), resolution, span: *span }),
                    None => Err(self.resolve_error(*span, "名稱尚未宣告")),
                }
            },
            Expr::Unary { op, expression, span } => {
                let e = self.resolve_expr(expression)?;
                Ok(ResolvedExpr::Unary { op: *op, expression: Box::new(e), span: *span })
            },
            Expr::Binary { op, left, right, span } => {
                let l = self.resolve_expr(left)?;
                let ghost middle = *self;
                let r = self.resolve_expr(right)?;
                proof {
                    lift_expr(**left, l, self.owner, middle, *self);
                }
                Ok(ResolvedExpr::Binary { op: *op, left: Box::new(l), right: Box::new(r), span: *span })
            },
            Expr::Paren { expression, span } => {
                let e = self.resolve_expr(expression)?;
                Ok(ResolvedExpr::Paren { expression: Box::new(e), span: *span })
            },
            Expr::Index { base, index, span } => {
                let b = self.resolve_expr(base)?;
                let ghost middle = *self;
                let i = self.resolve_expr(index)?;
                proof {
                    lift_expr(**base, b, self.owner, middle, *self);
                }
                Ok(ResolvedExpr::Index { base: Box::new(b), index: Box::new(i), span: *span })
            },
            Expr::Field { base, name, span } => {
                let b = self.resolve_expr(base)?;
                Ok(ResolvedExpr::Field { base: Box::new(b), name: name.clone(), span: *span })
            },
            Expr::Call { callee, arguments, span } => {
                let c = self.resolve_expr(callee)?;
                let ghost middle = *self;
                let arguments = self.resolve_expression_list(arguments, *span)?;
                proof {
                    lift_expr(**callee, c, self.owner, middle, *self);
                }
                Ok(ResolvedExpr::Call { callee: Box::new(c), arguments, span: *span })
            },
            Expr::MethodCall { receiver, method, arguments, span } => {
                let resolved_receiver = self.resolve_expr(receiver)?;
                let ghost middle = *self;
                let arguments = self.resolve_expression_list(arguments, *span)?;
                proof {
                    lift_expr(**receiver, resolved_receiver, self.owner, middle, *self);
                }
                Ok(ResolvedExpr::MethodCall { receiver: Box::new(resolved_receiver), method: method.clone(), arguments, span: *span })
            },
            Expr::Function { body, span } => {
                let body = self.resolve_function_body(body, &None)?;
                Ok(ResolvedExpr::Function { body, span: *span })
            },
            Expr::TableConstructor { fields, span } => {
                self.ensure_list(fields.len(), *span)?;
                let mut resolved: Vec<ResolvedTableField> = Vec::new();
                if resolved.try_reserve(fields.len()).is_err() {
                    return Err(self.limit(*span, "table field 配置超過編譯限制"));
                }
                let mut i: usize = 0;
                while i < fields.len()
                    invariant
                        kept(*old(self), *self),
                        self.scopes@.len() == old(self).scopes@.len(),
                        self.scopes@.len() >= 1,
                        i <= fields@.len(),
                        resolved@.len() == i,
                        forall|j: int| 0 <= j < i ==> field_mirrors(#[trigger] fields@[j], resolved@[j], self.owner, tables_of(*self)),
                    decreases fields.len() - i,
                {
                    let ghost before = *self;
                    let f = self.resolve_table_field(&fields[i])?;
                    proof {
                        assert forall|j: int| 0 <= j < i implies field_mirrors(#[trigger] fields@[j], resolved@[j], self.owner, tables_of(*self)) by {
                            lift_field(fields@[j], resolved@[j], self.owner, before, *self);
                        }
                    }
                    resolved.push(f);
                    i = i + 1;
                }
                Ok(ResolvedExpr::TableConstructor { fields: resolved, span: *span })
            },
            Expr::Vararg { span } => {
                if !self.vararg_available {
                    return Err(self.resolve_error(*span, "vararg 不在 function 內"));
                }
                Ok(ResolvedExpr::Vararg { binding: self.vararg_binding, span: *span })
            },
        }
    }

    fn resolve_table_field(&mut self, field: &TableField) -> (r: Result<ResolvedTableField, Diagnostic>)
        requires
            old(self).inv(),
            old(self).scopes@.len() >= 1,
        ensures
            kept(*old(self), *final(self)),
            final(self).scopes@.len() == old(self).scopes@.len(),
            r matches Ok(rf) ==> field_mirrors(*field, rf, old(self).owner, tables_of(*final(self))),
            r matches Err(d) ==> resolve_diagnostic(d),
        decreases field, 0int,
    {
        match field {
            TableField::Array { value, separator, span } => {
                let value = self.resolve_expr(value)?;
                Ok(ResolvedTableField::Array { value, separator: *separator, span: *span })
            },
            TableField::Named { name, value, separator, span } => {
                let value = self.resolve_expr(value)?;
                Ok(ResolvedTableField::Named { name: name.clone(), value, separator: *separator, span: *span })
            },
            TableField::Indexed { key, value, separator, span } => {
                let resolved_key = self.resolve_expr(key)?;
                let ghost middle = *self;
                let value = self.resolve_expr(value)?;
                proof {
                    lift_expr(*key, resolved_key, self.owner, middle, *self);
                }
                Ok(ResolvedTableField::Indexed { key: resolved_key, value, separator: *separator, span: *span })
            },
        }
    }

    /// The left side of an assignment: a writable name, a field or an index.
    fn resolve_assignment_target(&mut self, target: &Expr) -> (r: Result<ResolvedExpr, Diagnostic>)
        requires
            old(self).inv(),
            old(self).scopes@.len() >= 1,
        ensures
            kept(*old(self), *final(self)),
            final(self).scopes@.len() == old(self).scopes@.len(),
            r matches Ok(re) ==> expr_mirrors(*target, re, old(self).owner, tables_of(*final(self))),
            r matches Err(d) ==> resolve_diagnostic(d),
        decreases target, 1int,
    {
        let resolved = self.resolve_expr(target)?;
        let assignable = match &resolved {
            ResolvedExpr::Name { resolution, span, .. } => {
                self.ensure_writable(resolution, *span)?;
                true
            },
            ResolvedExpr::Index { .. } => true,
            ResolvedExpr::Field { .. } => true,
            _ => false,
        };
        if assignable {
            Ok(resolved)
        } else {
            Err(self.resolve_error(target.span(), "assignment target 不可指派"))
        }
    }

    /// A function: its own resolver, parameters and body; the upvalues it
    /// takes from further out are passed on through this function.
    fn resolve_function_body(&mut self, body: &FunctionBody, method: &Option<MethodName>) -> (r: Result<ResolvedFunctionBody, Diagnostic>)
        requires
            old(self).inv(),
            old(self).scopes@.len() >= 1,
        ensures
            kept(*old(self), *final(self)),
            final(self).scopes@.len() == old(self).scopes@.len(),
            r matches Ok(rb) ==> body_mirrors(*body, rb, tables_of(*final(self))) && (method is None ==> rb.parameters@.len() == body.parameters@.len()),
            r matches Err(d) ==> resolve_diagnostic(d),
        decreases body, 0int,
    {
        let function = FunctionId(self.next_function);
        self.next_function = match self.next_function.checked_add(1) {
            Some(n) => n,
            None => {
                return Err(self.limit(body.span, "function 數超過編譯限制"));
            },
        };
        let ghost c0 = self.completed_functions@;
        let parent_metadata = self.visible_binding_access();
        let parent_visible = self.visible_bindings();
        let inherited_global_mode = self.effective_global_mode();
        let mut child = Resolver {
            lexed: self.lexed,
            limits: self.limits,
            profile: self.profile,
            owner: function,
            next_binding: 0,
            next_function: self.next_function,
            next_scope: 0,
            bindings: Vec::new(),
            upvalues: Vec::new(),
            upvalue_bindings: Vec::new(),
            pending_ancestor_captures: Vec::new(),
            scopes: Vec::new(),
            loops: Vec::new(),
            parent_metadata,
            vararg_available: false,
            vararg_binding: None,
            label_count: 0,
            goto_count: 0,
            parent_visible: Some(parent_visible),
            inherited_global_mode,
            implicit_globals: Vec::new(),
            completed_functions: Vec::new(),
        };
        child.enter_scope(body.span)?;
        child.ensure_list(body.parameters.len(), body.span)?;
        let extra: usize = if method.is_some() { 1 } else { 0 };
        let parameter_count = match body.parameters.len().checked_add(extra) {
            Some(n) => n,
            None => {
                return Err(child.limit(body.span, "參數超過編譯限制"));
            },
        };
        if parameter_count > child.limits.max_parameters {
            return Err(child.limit(body.span, "參數超過編譯限制"));
        }
        child.ensure_binding_capacity(parameter_count, body.span)?;
        let mut parameters: Vec<ResolvedLocalName> = Vec::new();
        if parameters.try_reserve(parameter_count).is_err() {
            return Err(child.limit(body.span, "parameter 配置超過編譯限制"));
        }
        if let Some(method) = method {
            let name: Vec<u8> = vec![115u8, 101u8, 108u8, 102u8];
            let binding = child.declare_binding(name.clone(), method.colon_span, None, BindingKind::Parameter, false)?;
            parameters.push(ResolvedLocalName { binding, name, attribute: None, span: method.colon_span });
        }
        let mut i: usize = 0;
        while i < body.parameters.len()
            invariant
                kept(*old(self), *self),
                self.scopes@.len() == old(self).scopes@.len(),
                self.completed_functions@ == c0,
                self.next_function == function.0 + 1,
                child.inv(),
                child.scopes@.len() >= 1,
                child.owner == function,
                child.limits == self.limits,
                child.lexed == self.lexed,
                child.profile == self.profile,
                i <= body.parameters@.len(),
                extra == 0 || extra == 1,
                method is None ==> extra == 0,
                parameters@.len() == extra + i,
                forall|j: int| 0 <= j < i ==> local_mirrors(#[trigger] body.parameters@[j], parameters@[j + extra], function, child.bindings@),
            decreases body.parameters.len() - i,
        {
            let parameter = &body.parameters[i];
            let ghost before = child;
            let binding = child.declare_binding(parameter.name.clone(), parameter.span, parameter.attribute.clone(), BindingKind::Parameter, false)?;
            parameters.push(ResolvedLocalName { binding, name: parameter.name.clone(), attribute: parameter.attribute.clone(), span: parameter.span });
            proof {
                assert forall|j: int| 0 <= j < i + 1 implies local_mirrors(#[trigger] body.parameters@[j], parameters@[j + extra], function, child.bindings@) by {
                    if j < i {
                        lift_local(body.parameters@[j], parameters@[j + extra], function, before, child);
                    } else {
                        let last = child.bindings@.len() - 1;
                        assert(child.bindings@[last].id.ordinal == last);
                    }
                }
            }
            i = i + 1;
        }
        let ghost declared = child;
        let vararg = match &body.vararg {
            Some(vararg) => {
                if self.profile != LanguageProfile::Lua55 && vararg.table_name.is_some() {
                    return Err(child.resolve_error(vararg.span, "lua54 不支援 lua55 具名 vararg table"));
                }
                let table_binding = match &vararg.table_name {
                    Some(name) => {
                        child.ensure_binding_capacity(1, name.span)?;
                        Some(child.declare_binding(name.name.clone(), name.span, name.attribute.clone(), BindingKind::VarargTable, true)?)
                    },
                    None => None,
                };
                Some(ResolvedVararg { table_binding, span: vararg.span })
            },
            None => None,
        };
        child.vararg_available = vararg.is_some();
        child.vararg_binding = match &vararg {
            Some(v) => v.table_binding,
            None => None,
        };
        let resolved_body = child.resolve_block(&body.body)?;
        child.scopes.pop();
        let ghost finished = child;
        proof {
            assert(kept(declared, finished));
            assert forall|j: int| 0 <= j < body.parameters@.len() implies local_mirrors(#[trigger] body.parameters@[j], parameters@[j + extra], function, finished.bindings@) by {
                lift_local(body.parameters@[j], parameters@[j + extra], function, declared, finished);
            }
            assert(tables_of(finished)(function) == finished.bindings@);
        }
        let mut k: usize = 0;
        while k < child.pending_ancestor_captures.len()
            invariant
                kept(*old(self), *self),
                self.scopes@.len() == old(self).scopes@.len(),
                self.completed_functions@ == c0,
                self.next_function == function.0 + 1,
                child.inv(),
                child.owner == function,
                child.limits == self.limits,
                child.bindings@ == finished.bindings@,
                child.completed_functions@ == finished.completed_functions@,
                child.next_function == finished.next_function,
            decreases child.pending_ancestor_captures.len() - k,
        {
            let (binding, child_upvalue) = child.pending_ancestor_captures[k];
            let parent_upvalue = self.capture_for_child(binding, body.span)?;
            let index = child_upvalue.0 as usize;
            if index >= child.upvalues.len() {
                return Err(child.resolve_error(body.span, "upvalue 轉接索引不符"));
            }
            child.upvalues.set(index, UpvalueSource::ParentUpvalue(parent_upvalue));
            k = k + 1;
        }
        self.next_function = child.next_function;
        let metadata = ResolvedFunction {
            id: function,
            parent: Some(self.owner),
            span: body.span,
            bindings: child.bindings,
            upvalues: child.upvalues,
        };
        let ghost meta = metadata;
        let ghost cc = child.completed_functions@;
        self.completed_functions.push(metadata);
        self.completed_functions.append(&mut child.completed_functions);
        let rb = ResolvedFunctionBody { function, parameters, vararg, body: Box::new(resolved_body), span: body.span };
        proof {
            assert(self.completed_functions@ == c0 + seq![meta] + cc);
            assert(body_mirrors(*body, rb, tables_of(finished)));
            lemma_child_tables(c0, meta, cc, *self, finished);
            lemma_body_lift(*body, rb, tables_of(finished), tables_of(*self));
        }
        Ok(rb)
    }
}

impl<'a> Resolver<'a> {
    #[verifier::loop_isolation(false)]
    fn resolve_statement(&mut self, statement: &Stmt) -> (r: Result<ResolvedStmt, Diagnostic>)
        requires
            old(self).inv(),
            old(self).scopes@.len() >= 1,
        ensures
            kept(*old(self), *final(self)),
            final(self).scopes@.len() == old(self).scopes@.len(),
            r matches Ok(rs) ==> stmt_mirrors(*statement, rs, old(self).owner, tables_of(*final(self))),
            r matches Err(d) ==> resolve_diagnostic(d),
            statement is Break && old(self).loops@.len() == 0 ==> r is Err,
        decreases statement, 2int,
    {
        match statement {
            Stmt::Empty { span } => Ok(ResolvedStmt::Empty { span: *span }),
            Stmt::Do { body, span } => {
                let body = self.resolve_nested_block(body)?;
                Ok(ResolvedStmt::Do { body, span: *span })
            },
            Stmt::Local { names, values, span } => {
                self.ensure_list(values.len(), *span)?;
                self.ensure_list(names.len(), *span)?;
                self.ensure_binding_capacity(names.len(), *span)?;
                let mut resolved_values: Vec<ResolvedExpr> = Vec::new();
                if resolved_values.try_reserve(values.len()).is_err() {
                    return Err(self.limit(*span, "運算式配置超過編譯限制"));
                }
                let mut i: usize = 0;
                while i < values.len()
                    invariant
                        kept(*old(self), *self),
                        self.scopes@.len() == old(self).scopes@.len(),
                        self.scopes@.len() >= 1,
                        i <= values@.len(),
                        resolved_values@.len() == i,
                        forall|j: int| 0 <= j < i ==> expr_mirrors(#[trigger] values@[j], resolved_values@[j], self.owner, tables_of(*self)),
                    decreases values.len() - i,
                {
                    let ghost before = *self;
                    let v = self.resolve_expr(&values[i])?;
                    proof {
                        assert forall|j: int| 0 <= j < i implies expr_mirrors(#[trigger] values@[j], resolved_values@[j], self.owner, tables_of(*self)) by {
                            lift_expr(values@[j], resolved_values@[j], self.owner, before, *self);
                        }
                    }
                    resolved_values.push(v);
                    i = i + 1;
                }
                let ghost after_values = *self;
                let mut bindings: Vec<BindingId> = Vec::new();
                if bindings.try_reserve(names.len()).is_err() {
                    return Err(self.limit(*span, "binding 配置超過編譯限制"));
                }
                let mut i: usize = 0;
                while i < names.len()
                    invariant
                        kept(*old(self), *self),
                        self.scopes@.len() == old(self).scopes@.len(),
                        self.scopes@.len() >= 1,
                        i <= names@.len(),
                        bindings@.len() == i,
                        forall|j: int| 0 <= j < i ==> (#[trigger] bindings@[j]).function == self.owner
                            && names_binding(self.bindings@, bindings@[j], names@[j].name@),
                        kept(after_values, *self),
                    decreases names.len() - i,
                {
                    let ghost before = *self;
                    let b = self.declare_binding(names[i].name.clone(), names[i].span, names[i].attribute.clone(), BindingKind::Local, false)?;
                    proof {
                        assert forall|j: int| 0 <= j < i implies (#[trigger] bindings@[j]).function == self.owner
                            && names_binding(self.bindings@, bindings@[j], names@[j].name@) by {
                            let o = bindings@[j].ordinal as int;
                            assert(self.bindings@[o] == before.bindings@[o]);
                        }
                        let last = self.bindings@.len() - 1;
                        assert(self.bindings@[last].id.ordinal == last);
                    }
                    bindings.push(b);
                    i = i + 1;
                }
                let mut resolved_names: Vec<ResolvedLocalName> = Vec::new();
                let mut i: usize = 0;
                while i < names.len()
                    invariant
                        i <= names@.len(),
                        bindings@.len() == names@.len(),
                        resolved_names@.len() == i,
                        forall|j: int| 0 <= j < names@.len() ==> (#[trigger] bindings@[j]).function == self.owner
                            && names_binding(self.bindings@, bindings@[j], names@[j].name@),
                        forall|j: int| 0 <= j < i ==> local_mirrors(#[trigger] names@[j], resolved_names@[j], self.owner, self.bindings@)
                            && bindings@[j] == resolved_names@[j].binding,
                    decreases names.len() - i,
                {
                    resolved_names.push(ResolvedLocalName {
                        binding: bindings[i],
                        name: names[i].name.clone(),
                        attribute: names[i].attribute.clone(),
                        span: names[i].span,
                    });
                    i = i + 1;
                }
                proof {
                    assert forall|j: int| 0 <= j < values@.len() implies expr_mirrors(#[trigger] values@[j], resolved_values@[j], self.owner, tables_of(*self)) by {
                        lift_expr(values@[j], resolved_values@[j], self.owner, after_values, *self);
                    }
                }
                Ok(ResolvedStmt::Local { bindings, names: resolved_names, values: resolved_values, span: *span })
            },
            Stmt::LocalFunction { name, body, span } => {
                self.ensure_binding_capacity(1, *span)?;
                let binding = self.declare_binding(name.name.clone(), name.span, name.attribute.clone(), BindingKind::LocalFunction, false)?;
                let resolved_name = ResolvedLocalName { binding, name: name.name.clone(), attribute: name.attribute.clone(), span: name.span };
                let ghost declared = *self;
                proof {
                    let last = self.bindings@.len() - 1;
                    assert(self.bindings@[last].id.ordinal == last);
                    assert(local_mirrors(*name, resolved_name, self.owner, self.bindings@));
                }
                let body = self.resolve_function_body(body, &None)?;
                proof {
                    lift_local(*name, resolved_name, self.owner, declared, *self);
                }
                Ok(ResolvedStmt::LocalFunction { name: resolved_name, body, span: *span })
            },
            Stmt::Return { values, span } => {
                let values = self.resolve_expression_list(values, *span)?;
                let close_path = self.close_path(ExitKind::Return, None, *span);
                Ok(ResolvedStmt::Return { values, close_path, span: *span })
            },
            Stmt::Assignment { targets, values, span } => {
                self.ensure_list(targets.len(), *span)?;
                let mut resolved_targets: Vec<ResolvedExpr> = Vec::new();
                if resolved_targets.try_reserve(targets.len()).is_err() {
                    return Err(self.limit(*span, "assignment target 配置超過編譯限制"));
                }
                let mut i: usize = 0;
                while i < targets.len()
                    invariant
                        kept(*old(self), *self),
                        self.scopes@.len() == old(self).scopes@.len(),
                        self.scopes@.len() >= 1,
                        i <= targets@.len(),
                        resolved_targets@.len() == i,
                        forall|j: int| 0 <= j < i ==> expr_mirrors(#[trigger] targets@[j], resolved_targets@[j], self.owner, tables_of(*self)),
                    decreases targets.len() - i,
                {
                    let ghost before = *self;
                    let t = self.resolve_assignment_target(&targets[i])?;
                    proof {
                        assert forall|j: int| 0 <= j < i implies expr_mirrors(#[trigger] targets@[j], resolved_targets@[j], self.owner, tables_of(*self)) by {
                            lift_expr(targets@[j], resolved_targets@[j], self.owner, before, *self);
                        }
                    }
                    resolved_targets.push(t);
                    i = i + 1;
                }
                let ghost after_targets = *self;
                let values = self.resolve_expression_list(values, *span)?;
                proof {
                    assert forall|j: int| 0 <= j < targets@.len() implies expr_mirrors(#[trigger] targets@[j], resolved_targets@[j], self.owner, tables_of(*self)) by {
                        lift_expr(targets@[j], resolved_targets@[j], self.owner, after_targets, *self);
                    }
                }
                Ok(ResolvedStmt::Assignment { targets: resolved_targets, values, span: *span })
            },
            Stmt::Call { call, span } => {
                let call = self.resolve_expr(call)?;
                let is_call = match &call {
                    ResolvedExpr::Call { .. } => true,
                    ResolvedExpr::MethodCall { .. } => true,
                    _ => false,
                };
                if !is_call {
                    return Err(self.resolve_error(*span, "獨立陳述式必須是 call"));
                }
                Ok(ResolvedStmt::Call { call, span: *span })
            },
            Stmt::Goto { name, name_span, span } => {
                if self.goto_count >= self.limits.max_gotos {
                    return Err(self.limit(*span, "goto 數超過編譯限制"));
                }
                self.goto_count = self.goto_count + 1;
                let label = match self.find_label(name.as_slice()) {
                    Some(label) => label,
                    None => {
                        return Err(self.resolve_error(*span, "找不到 goto label"));
                    },
                };
                let close_path = self.close_path(ExitKind::Goto, Some(label.scope), *span);
                Ok(ResolvedStmt::Goto { name: name.clone(), name_span: *name_span, close_path, span: *span })
            },
            Stmt::Label { name, name_span, span } => {
                if self.label_count >= self.limits.max_labels {
                    return Err(self.limit(*span, "label 數超過編譯限制"));
                }
                self.label_count = self.label_count + 1;
                Ok(ResolvedStmt::Label { name: name.clone(), name_span: *name_span, span: *span })
            },
            _ => self.resolve_compound_statement(statement),
        }
    }

    /// Loops, conditionals, function statements, global declarations and
    /// `break`.
    #[verifier::loop_isolation(false)]
    fn resolve_compound_statement(&mut self, statement: &Stmt) -> (r: Result<ResolvedStmt, Diagnostic>)
        requires
            old(self).inv(),
            old(self).scopes@.len() >= 1,
            statement is If || statement is While || statement is Repeat || statement is NumericFor
                || statement is GenericFor || statement is Function || statement is Global || statement is Break,
        ensures
            kept(*old(self), *final(self)),
            final(self).scopes@.len() == old(self).scopes@.len(),
            r matches Ok(rs) ==> stmt_mirrors(*statement, rs, old(self).owner, tables_of(*final(self))),
            r matches Err(d) ==> resolve_diagnostic(d),
            statement is Break && old(self).loops@.len() == 0 ==> r is Err,
        decreases statement, 1int,
    {
        match statement {
            Stmt::If { clauses, else_block, span } => {
                self.ensure_list(clauses.len(), *span)?;
                let mut resolved: Vec<ResolvedIfClause> = Vec::new();
                if resolved.try_reserve(clauses.len()).is_err() {
                    return Err(self.limit(*span, "if clause 配置超過編譯限制"));
                }
                let mut i: usize = 0;
                while i < clauses.len()
                    invariant
                        kept(*old(self), *self),
                        self.scopes@.len() == old(self).scopes@.len(),
                        self.scopes@.len() >= 1,
                        i <= clauses@.len(),
                        resolved@.len() == i,
                        forall|j: int| 0 <= j < i ==> expr_mirrors((#[trigger] clauses@[j]).0, resolved@[j].condition, self.owner, tables_of(*self))
                            && block_mirrors(clauses@[j].1, resolved@[j].body, self.owner, tables_of(*self)),
                    decreases clauses.len() - i,
                {
                    let ghost before = *self;
                    let condition = self.resolve_expr(&clauses[i].0)?;
                    let ghost middle = *self;
                    let body = self.resolve_nested_block(&clauses[i].1)?;
                    proof {
                        lift_expr(clauses@[i as int].0, condition, self.owner, middle, *self);
                        assert forall|j: int| 0 <= j < i implies expr_mirrors((#[trigger] clauses@[j]).0, resolved@[j].condition, self.owner, tables_of(*self))
                            && block_mirrors(clauses@[j].1, resolved@[j].body, self.owner, tables_of(*self)) by {
                            lift_expr(clauses@[j].0, resolved@[j].condition, self.owner, before, *self);
                            lift_block(clauses@[j].1, resolved@[j].body, self.owner, before, *self);
                        }
                    }
                    resolved.push(ResolvedIfClause { condition, body });
                    i = i + 1;
                }
                let ghost before_else = *self;
                let else_block = match else_block {
                    Some(b) => Some(self.resolve_nested_block(b)?),
                    None => None,
                };
                proof {
                    assert forall|j: int| 0 <= j < clauses@.len() implies expr_mirrors((#[trigger] clauses@[j]).0, resolved@[j].condition, self.owner, tables_of(*self))
                        && block_mirrors(clauses@[j].1, resolved@[j].body, self.owner, tables_of(*self)) by {
                        lift_expr(clauses@[j].0, resolved@[j].condition, self.owner, before_else, *self);
                        lift_block(clauses@[j].1, resolved@[j].body, self.owner, before_else, *self);
                    }
                }
                Ok(ResolvedStmt::If { clauses: resolved, else_block, span: *span })
            },
            Stmt::While { condition, body, span } => {
                let resolved_condition = self.resolve_expr(condition)?;
                let ghost after_condition = *self;
                let target = self.current_scope();
                self.loops.push(target);
                let resolved_body = self.resolve_nested_block(body);
                self.loops.pop();
                assert(self.loops@ =~= after_condition.loops@);
                match resolved_body {
                    Ok(rb) => {
                        proof {
                            lift_expr(*condition, resolved_condition, self.owner, after_condition, *self);
                        }
                        Ok(ResolvedStmt::While { condition: resolved_condition, body: rb, span: *span })
                    },
                    Err(e) => Err(e),
                }
            },
            Stmt::Repeat { body, condition, span } => {
                let target = self.current_scope();
                self.enter_scope(body.span)?;
                let ghost outside = self.loops@;
                self.loops.push(target);
                let result = match self.resolve_block(body) {
                    Ok(rb) => {
                        let ghost after_body = *self;
                        match self.resolve_expr(condition) {
                            Ok(rc) => {
                                proof {
                                    lift_block(*body, rb, self.owner, after_body, *self);
                                }
                                Ok(ResolvedStmt::Repeat { body: rb, condition: rc, span: *span })
                            },
                            Err(e) => Err(e),
                        }
                    },
                    Err(e) => Err(e),
                };
                let ghost inside = *self;
                self.loops.pop();
                self.scopes.pop();
                assert(self.loops@ =~= outside);
                proof {
                    if result is Ok {
                        lemma_same_tables(inside, *self);
                        lemma_stmt_lift(*statement, result->Ok_0, self.owner, tables_of(inside), tables_of(*self));
                    }
                }
                result
            },
            Stmt::NumericFor { name, initial, limit, step, body, span } => {
                let ri = self.resolve_expr(initial)?;
                let ghost s1 = *self;
                let rl = self.resolve_expr(limit)?;
                let ghost s2 = *self;
                let rst = match step {
                    Some(x) => Some(self.resolve_expr(x)?),
                    None => None,
                };
                let ghost s3 = *self;
                self.ensure_binding_capacity(1, *span)?;
                let target = self.current_scope();
                self.enter_scope(*span)?;
                let result = self.numeric_for_scope(name, body, target);
                let ghost s4 = *self;
                self.scopes.pop();
                let (rn, rb) = result?;
                proof {
                    lift_expr(*initial, ri, self.owner, s1, *self);
                    lift_expr(*limit, rl, self.owner, s2, *self);
                    if step is Some && rst is Some {
                        lift_expr(step->Some_0, rst->Some_0, self.owner, s3, *self);
                    }
                    lift_block(*body, rb, self.owner, s4, *self);
                }
                Ok(ResolvedStmt::NumericFor { name: rn, initial: ri, limit: rl, step: rst, body: rb, span: *span })
            },
            Stmt::GenericFor { names, values, body, span } => {
                let closing_span = if values.len() > 3 { values[3].span() } else { *span };
                let resolved_values = self.resolve_expression_list(values, *span)?;
                let ghost s1 = *self;
                self.ensure_list(names.len(), *span)?;
                let binding_count = match names.len().checked_add(1) {
                    Some(n) => n,
                    None => {
                        return Err(self.limit(*span, "generic-for binding 數超過編譯限制"));
                    },
                };
                self.ensure_binding_capacity(binding_count, *span)?;
                let target = self.current_scope();
                self.enter_scope(*span)?;
                let result = self.generic_for_scope(names, body, target, closing_span, *span);
                let ghost s2 = *self;
                self.scopes.pop();
                let (closing, rn, rb, close_path) = result?;
                proof {
                    assert forall|i: int| 0 <= i < values@.len() implies expr_mirrors(#[trigger] values@[i], resolved_values@[i], self.owner, tables_of(*self)) by {
                        lift_expr(values@[i], resolved_values@[i], self.owner, s1, *self);
                    }
                    lift_block(*body, rb, self.owner, s2, *self);
                }
                Ok(ResolvedStmt::GenericFor { names: rn, values: resolved_values, closing, body: rb, close_path, span: *span })
            },
            Stmt::Function { name, method, body, span } => {
                let rn = self.resolve_assignment_target(name)?;
                let ghost s1 = *self;
                let rb = self.resolve_function_body(body, method)?;
                proof {
                    lift_expr(*name, rn, self.owner, s1, *self);
                }
                Ok(ResolvedStmt::Function { name: rn, method: method.clone(), body: rb, span: *span })
            },
            Stmt::Global { declaration, span } => self.resolve_global(declaration, *span),
            _ => {
                let span = stmt_span_of(statement);
                if self.loops.len() == 0 {
                    return Err(self.resolve_error(span, "break 不在 loop 內"));
                }
                let target = self.loops[self.loops.len() - 1];
                let close_path = self.close_path(ExitKind::Break, Some(target), span);
                Ok(ResolvedStmt::Break { close_path, span })
            },
        }
    }

    /// The control variable and body of a numeric `for`, in the loop's own
    /// scope.
    fn numeric_for_scope(&mut self, name: &LocalName, body: &Block, target: ScopeId) -> (r: Result<(ResolvedLocalName, ResolvedBlock), Diagnostic>)
        requires
            old(self).inv(),
            old(self).scopes@.len() >= 1,
        ensures
            kept(*old(self), *final(self)),
            final(self).scopes@.len() == old(self).scopes@.len(),
            r matches Ok(x) ==> local_mirrors(*name, x.0, old(self).owner, final(self).bindings@) && block_mirrors(*body, x.1, old(self).owner, tables_of(*final(self))),
            r matches Err(d) ==> resolve_diagnostic(d),
        decreases body, 2int,
    {
        let readonly = self.profile == LanguageProfile::Lua55;
        let binding = self.declare_binding(name.name.clone(), name.span, name.attribute.clone(), BindingKind::NumericFor, readonly)?;
        let ghost outside = self.loops@;
        self.loops.push(target);
        let resolved = self.resolve_nested_block(body);
        self.loops.pop();
        assert(self.loops@ =~= outside);
        let resolved = resolved?;
        Ok((ResolvedLocalName { binding, name: name.name.clone(), attribute: name.attribute.clone(), span: name.span }, resolved))
    }

    /// The hidden closing value, control variables and body of a generic
    /// `for`, in the loop's own scope.
    fn generic_for_scope(&mut self, names: &Vec<LocalName>, body: &Block, target: ScopeId, closing_span: Span, span: Span) -> (r: Result<(ResolvedGenericForClose, Vec<ResolvedLocalName>, ResolvedBlock, ClosePath), Diagnostic>)
        requires
            old(self).inv(),
            old(self).scopes@.len() >= 1,
        ensures
            kept(*old(self), *final(self)),
            final(self).scopes@.len() == old(self).scopes@.len(),
            r matches Ok(x) ==> x.1@.len() == names@.len()
                && (forall|i: int| 0 <= i < names@.len() ==> local_mirrors(#[trigger] names@[i], x.1@[i], old(self).owner, final(self).bindings@))
                && block_mirrors(*body, x.2, old(self).owner, tables_of(*final(self))),
            r matches Err(d) ==> resolve_diagnostic(d),
        decreases body, 2int,
    {
        let closing_binding = self.declare_generic_for_close(closing_span)?;
        let closing = ResolvedGenericForClose { binding: closing_binding, span: closing_span };
        let mut resolved_names: Vec<ResolvedLocalName> = Vec::new();
        if resolved_names.try_reserve(names.len()).is_err() {
            return Err(self.limit(span, "generic-for name 配置超過編譯限制"));
        }
        let mut i: usize = 0;
        while i < names.len()
            invariant
                kept(*old(self), *self),
                self.scopes@.len() == old(self).scopes@.len(),
                self.scopes@.len() >= 1,
                i <= names@.len(),
                resolved_names@.len() == i,
                forall|j: int| 0 <= j < i ==> local_mirrors(#[trigger] names@[j], resolved_names@[j], self.owner, self.bindings@),
            decreases names.len() - i,
        {
            let binding = self.declare_binding(names[i].name.clone(), names[i].span, names[i].attribute.clone(), BindingKind::GenericFor, false)?;
            resolved_names.push(ResolvedLocalName { binding, name: names[i].name.clone(), attribute: names[i].attribute.clone(), span: names[i].span });
            i = i + 1;
        }
        let ghost outside = self.loops@;
        self.loops.push(target);
        let resolved = self.resolve_nested_block(body);
        self.loops.pop();
        assert(self.loops@ =~= outside);
        let resolved = resolved?;
        let close_path = self.close_path(ExitKind::Normal, Some(target), span);
        Ok((closing, resolved_names, resolved, close_path))
    }

    /// A strict global declaration (Lua 5.5 only).
    fn resolve_global(&mut self, declaration: &GlobalDeclaration, span: Span) -> (r: Result<ResolvedStmt, Diagnostic>)
        requires
            old(self).inv(),
            old(self).scopes@.len() >= 1,
        ensures
            kept(*old(self), *final(self)),
            final(self).scopes@.len() == old(self).scopes@.len(),
            r matches Ok(rs) ==> rs is Global && rs->Global_span == crate::resolved::declaration_span(*declaration),
            r matches Err(d) ==> resolve_diagnostic(d),
        decreases declaration, 0int,
    {
        if self.profile != LanguageProfile::Lua55 {
            return Err(self.resolve_error(span, "lua54 不支援 lua55 global declaration"));
        }
        match declaration {
            GlobalDeclaration::Star { prefix_attribute, span } => {
                self.set_explicit_global_mode(false);
                Ok(ResolvedStmt::Global {
                    declaration: ResolvedGlobalDeclaration::Star { prefix_attribute: prefix_attribute.clone(), span: *span },
                    span: *span,
                })
            },
            GlobalDeclaration::Names { names, values, prefix_attribute, span } => {
                self.ensure_list(names.len(), *span)?;
                self.ensure_list(values.len(), *span)?;
                self.ensure_binding_capacity(names.len(), *span)?;
                self.set_explicit_global_mode(true);
                let mut resolved_names: Vec<ResolvedLocalName> = Vec::new();
                if resolved_names.try_reserve(names.len()).is_err() {
                    return Err(self.limit(*span, "global name 配置超過編譯限制"));
                }
                let mut i: usize = 0;
                while i < names.len()
                    invariant
                        kept(*old(self), *self),
                        self.scopes@.len() == old(self).scopes@.len(),
                        self.scopes@.len() >= 1,
                        i <= names@.len(),
                    decreases names.len() - i,
                {
                    let binding = self.declare_binding(names[i].name.clone(), names[i].span, names[i].attribute.clone(), BindingKind::Global, false)?;
                    resolved_names.push(ResolvedLocalName { binding, name: names[i].name.clone(), attribute: names[i].attribute.clone(), span: names[i].span });
                    i = i + 1;
                }
                let values = self.resolve_expression_list(values, *span)?;
                Ok(ResolvedStmt::Global {
                    declaration: ResolvedGlobalDeclaration::Names { names: resolved_names, values, prefix_attribute: prefix_attribute.clone(), span: *span },
                    span: *span,
                })
            },
            GlobalDeclaration::Function { name, body, span } => {
                self.ensure_binding_capacity(1, *span)?;
                self.set_explicit_global_mode(true);
                let binding = self.declare_binding(name.clone(), *span, None, BindingKind::Global, false)?;
                let body = self.resolve_function_body(body, &None)?;
                Ok(ResolvedStmt::Global {
                    declaration: ResolvedGlobalDeclaration::Function { binding, name: name.clone(), body, span: *span },
                    span: *span,
                })
            },
        }
    }
}

/// Links a parsed tree to its resolved tree, without rescanning the source.
/// An input that does not match (profile, end of input, source length) is
/// refused.  A resolved tree mirrors the parsed one node for node (the same
/// statements, expressions, names, operators, literals and ranges), and a
/// name resolved as a local is a binding of the function in which it
/// appears, recorded under that same name; the bindings of every function are numbered by position under
/// its id, every function stays within the binding and upvalue limits, and
/// the main function has `_ENV` as its first binding.  A `break` of the
/// chunk that no loop encloses is refused.  The resolver reserves its lists
/// with `try_reserve`, which the allocator may refuse, so success is never
/// promised here.
pub fn resolve(module: &Module, lexed: &LexedChunk, expected_profile: LanguageProfile, limits: &CompileLimits) -> (r: Result<ResolvedModule, Diagnostic>)
    ensures
        !input_matches(*module, *lexed, expected_profile) ==> (r matches Err(d) && d.code == DiagnosticCode::Resolve),
        r matches Ok(m) ==> {
            &&& input_matches(*module, *lexed, expected_profile)
            &&& m.profile == expected_profile
            &&& m.span == module.span
            &&& block_mirrors(module.root, m.root, FunctionId(0), module_tables(m))
            &&& m.functions@.len() >= 1
            &&& m.functions@[0].id == FunctionId(0)
            &&& m.functions@[0].parent is None
            &&& m.functions@[0].span == module.span
            &&& m.functions@[0].bindings@.len() >= 1
            &&& m.functions@[0].bindings@[0].kind == BindingKind::Environment
            &&& m.functions@[0].bindings@[0].name@ == env_name()
            &&& forall|i: int| 0 <= i < m.functions@.len() ==> function_wf(#[trigger] m.functions@[i], *limits)
        },
        r matches Err(d) ==> resolve_diagnostic(d),
        (exists|i: int| 0 <= i < module.root.statements@.len() && #[trigger] module.root.statements@[i] is Break) ==> r is Err,
{
    validate_input(module, lexed, expected_profile)?;
    let mut resolver = Resolver {
        lexed,
        limits: *limits,
        profile: expected_profile,
        owner: FunctionId(0),
        next_binding: 0,
        next_function: 1,
        next_scope: 0,
        bindings: Vec::new(),
        upvalues: Vec::new(),
        upvalue_bindings: Vec::new(),
        pending_ancestor_captures: Vec::new(),
        scopes: Vec::new(),
        loops: Vec::new(),
        parent_metadata: Vec::new(),
        vararg_available: false,
        vararg_binding: None,
        label_count: 0,
        goto_count: 0,
        parent_visible: None,
        inherited_global_mode: None,
        implicit_globals: Vec::new(),
        completed_functions: Vec::new(),
    };
    resolver.enter_scope(module.span)?;
    let env: Vec<u8> = vec![95u8, 69u8, 78u8, 86u8];
    proof {
        assert(env@ == env_name());
    }
    resolver.declare_binding(env, module.span, None, BindingKind::Environment, false)?;
    let ghost first = resolver.bindings@[0];
    assert(resolver.bindings@.len() == 1 && first == resolver.bindings@.last());
    let root = resolver.resolve_block(&module.root)?;
    let ghost inside = resolver;
    resolver.scopes.pop();
    let ghost after = resolver;
    proof {
        lift_block(module.root, root, FunctionId(0), inside, after);
    }
    assert(resolver.bindings@[0] == first);
    let mut functions: Vec<ResolvedFunction> = Vec::new();
    functions.push(ResolvedFunction {
        id: resolver.owner,
        parent: None,
        span: module.span,
        bindings: resolver.bindings,
        upvalues: resolver.upvalues,
    });
    let ghost main = functions@[0];
    let ghost done = resolver.completed_functions@;
    assert(function_wf(main, *limits));
    functions.append(&mut resolver.completed_functions);
    assert(functions@ == seq![main] + done);
    assert forall|i: int| 0 <= i < functions@.len() implies function_wf(#[trigger] functions@[i], *limits) by {
        if i > 0 {
            assert(functions@[i] == done[i - 1]);
        }
    }
    assert(main.bindings@[0].kind == BindingKind::Environment);
    assert(main.bindings@[0].name@ == env_name());
    assert(root.statements@.len() == module.root.statements@.len());
    let m = ResolvedModule { profile: expected_profile, span: module.span, root, functions };
    proof {
        assert(m.functions@.drop_first() =~= done);
        assert(m.functions@[0] == main);
        assert forall|g: FunctionId| #[trigger] extends(tables_of(after)(g), module_tables(m)(g)) by {
            if g == FunctionId(0) {
                assert(module_tables(m)(g) == main.bindings@);
            } else {
                assert(module_tables(m)(g) == table_of(done, g));
            }
        }
        lemma_block_lift(module.root, m.root, FunctionId(0), tables_of(after), module_tables(m));
    }
    Ok(m)
}

} // verus!
