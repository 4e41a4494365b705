//! The resolved syntax tree: the parsed tree with every name bound, every
//! function numbered and every block exit given the bindings it closes.

use vstd::prelude::*;
use crate::ast::{
    Attribute, BinaryOp, Block, Expr, FieldSeparator, FunctionBody, GlobalDeclaration, LocalName, MethodName, Stmt,
    TableField, UnaryOp,
};
use crate::lexer::{CompileLimits, LanguageProfile, Literal, Span};

verus! {

#[derive(Clone, Copy, Debug, Eq, Hash, PartialEq, Structural)]
pub struct FunctionId(pub u32);

#[derive(Clone, Copy, Debug, Eq, Hash, PartialEq, Structural)]
pub struct BindingId {
    pub function: FunctionId,
    pub ordinal: u32,
}

#[derive(Clone, Copy, Debug, Eq, PartialEq, Structural)]
pub struct UpvalueId(pub u32);

#[derive(Clone, Copy, Debug, Eq, PartialEq, Structural)]
pub enum UpvalueSource {
    ParentLocal(BindingId),
    ParentUpvalue(UpvalueId),
}

#[derive(Clone, Copy, Debug, Eq, PartialEq, Structural)]
pub enum BindingKind {
    Local,
    Parameter,
    NumericFor,
    GenericFor,
    GenericForClose,
    LocalFunction,
    VarargTable,
    Environment,
    Global,
}

#[derive(Clone, Debug, PartialEq)]
pub struct BindingMeta {
    pub id: BindingId,
    pub name: Vec<u8>,
    pub span: Span,
    pub kind: BindingKind,
    pub owner: FunctionId,
    pub scope_depth: usize,
    pub readonly: bool,
    pub attribute: Option<Attribute>,
    pub close_marker: Option<Span>,
}

#[derive(Clone, Debug, Eq, PartialEq)]
pub enum ResolvedName {
    Local(BindingId),
    Upvalue(UpvalueId),
    EnvField { env: BindingId, name: Vec<u8> },
    Global(BindingId),
}

#[derive(Clone, Copy, Debug, Eq, Hash, PartialEq, Structural)]
pub struct ScopeId(pub u32);

#[derive(Clone, Copy, Debug, Eq, PartialEq, Structural)]
pub enum ExitKind {
    Normal,
    Return,
    Break,
    Goto,
    Error,
}

#[derive(Debug, PartialEq)]
pub struct ResolvedModule {
    pub profile: LanguageProfile,
    pub span: Span,
    pub root: ResolvedBlock,
    pub functions: Vec<ResolvedFunction>,
}

#[derive(Clone, Debug, PartialEq)]
pub struct ResolvedFunction {
    pub id: FunctionId,
    pub parent: Option<FunctionId>,
    pub span: Span,
    pub bindings: Vec<BindingMeta>,
    pub upvalues: Vec<UpvalueSource>,
}

#[derive(Debug, PartialEq)]
pub struct ResolvedBlock {
    pub scope: ScopeId,
    pub statements: Vec<ResolvedStmt>,
    pub terminator: Option<Span>,
    pub span: Span,
    pub normal_close_path: ClosePath,
    pub error_close_path: ClosePath,
}

#[derive(Clone, Debug, PartialEq)]
pub struct ClosePath {
    pub kind: ExitKind,
    pub span: Span,
    pub from_scope: ScopeId,
    pub target_scope: Option<ScopeId>,
    pub bindings: Vec<BindingId>,
}

#[derive(Clone, Debug, PartialEq)]
pub struct ResolvedLocalName {
    pub binding: BindingId,
    pub name: Vec<u8>,
    pub attribute: Option<Attribute>,
    pub span: Span,
}

/// The hidden to-be-closed binding of the fourth value of a generic `for`;
/// no Lua name reaches it.
#[derive(Clone, Debug, PartialEq)]
pub struct ResolvedGenericForClose {
    pub binding: BindingId,
    pub span: Span,
}

#[derive(Debug, PartialEq)]
pub struct ResolvedFunctionBody {
    pub function: FunctionId,
    pub parameters: Vec<ResolvedLocalName>,
    pub vararg: Option<ResolvedVararg>,
    pub body: Box<ResolvedBlock>,
    pub span: Span,
}

#[derive(Clone, Debug, PartialEq)]
pub struct ResolvedVararg {
    pub table_binding: Option<BindingId>,
    pub span: Span,
}

#[derive(Debug, PartialEq)]
pub struct ResolvedIfClause {
    pub condition: ResolvedExpr,
    pub body: ResolvedBlock,
}

#[derive(Debug, PartialEq)]
pub enum ResolvedGlobalDeclaration {
    Names {
        names: Vec<ResolvedLocalName>,
        values: Vec<ResolvedExpr>,
        prefix_attribute: Option<Attribute>,
        span: Span,
    },
    Star { prefix_attribute: Option<Attribute>, span: Span },
    Function { binding: BindingId, name: Vec<u8>, body: ResolvedFunctionBody, span: Span },
}

#[derive(Debug, PartialEq)]
pub enum ResolvedStmt {
    Empty { span: Span },
    Return { values: Vec<ResolvedExpr>, close_path: ClosePath, span: Span },
    Assignment { targets: Vec<ResolvedExpr>, values: Vec<ResolvedExpr>, span: Span },
    Call { call: ResolvedExpr, span: Span },
    Local { bindings: Vec<BindingId>, names: Vec<ResolvedLocalName>, values: Vec<ResolvedExpr>, span: Span },
    Global { declaration: ResolvedGlobalDeclaration, span: Span },
    Break { close_path: ClosePath, span: Span },
    Goto { name: Vec<u8>, name_span: Span, close_path: ClosePath, span: Span },
    Label { name: Vec<u8>, name_span: Span, span: Span },
    Do { body: ResolvedBlock, span: Span },
    If { clauses: Vec<ResolvedIfClause>, else_block: Option<ResolvedBlock>, span: Span },
    While { condition: ResolvedExpr, body: ResolvedBlock, span: Span },
    Repeat { body: ResolvedBlock, condition: ResolvedExpr, span: Span },
    NumericFor {
        name: ResolvedLocalName,
        initial: ResolvedExpr,
        limit: ResolvedExpr,
        step: Option<ResolvedExpr>,
        body: ResolvedBlock,
        span: Span,
    },
    GenericFor {
        names: Vec<ResolvedLocalName>,
        values: Vec<ResolvedExpr>,
        closing: ResolvedGenericForClose,
        body: ResolvedBlock,
        close_path: ClosePath,
        span: Span,
    },
    Function { name: ResolvedExpr, method: Option<MethodName>, body: ResolvedFunctionBody, span: Span },
    LocalFunction { name: ResolvedLocalName, body: ResolvedFunctionBody, span: Span },
}

#[derive(Debug, PartialEq)]
pub enum ResolvedExpr {
    Literal { literal: Literal, span: Span },
    Nil { span: Span },
    Bool { value: bool, span: Span },
    Name { name: Vec<u8>, resolution: ResolvedName, span: Span },
    Vararg { binding: Option<BindingId>, span: Span },
    Unary { op: UnaryOp, expression: Box<ResolvedExpr>, span: Span },
    Binary { op: BinaryOp, left: Box<ResolvedExpr>, right: Box<ResolvedExpr>, span: Span },
    Paren { expression: Box<ResolvedExpr>, span: Span },
    Index { base: Box<ResolvedExpr>, index: Box<ResolvedExpr>, span: Span },
    Field { base: Box<ResolvedExpr>, name: Vec<u8>, span: Span },
    Call { callee: Box<ResolvedExpr>, arguments: Vec<ResolvedExpr>, span: Span },
    MethodCall { receiver: Box<ResolvedExpr>, method: Vec<u8>, arguments: Vec<ResolvedExpr>, span: Span },
    Function { body: ResolvedFunctionBody, span: Span },
    TableConstructor { fields: Vec<ResolvedTableField>, span: Span },
}

#[derive(Debug, PartialEq)]
pub enum ResolvedTableField {
    Array { value: ResolvedExpr, separator: Option<FieldSeparator>, span: Span },
    Named { name: Vec<u8>, value: ResolvedExpr, separator: Option<FieldSeparator>, span: Span },
    Indexed { key: ResolvedExpr, value: ResolvedExpr, separator: Option<FieldSeparator>, span: Span },
}

/// A function record: its bindings are numbered by position under its own
/// id, and its bindings and upvalues fit their limits.
pub open spec fn function_wf(f: ResolvedFunction, limits: CompileLimits) -> bool {
    &&& f.bindings@.len() <= limits.max_bindings_per_function
    &&& f.upvalues@.len() <= limits.max_upvalues_per_function
    &&& forall|i: int| 0 <= i < f.bindings@.len() ==> {
        &&& (#[trigger] f.bindings@[i]).id.function == f.id
        &&& f.bindings@[i].id.ordinal == i
        &&& f.bindings@[i].owner == f.id
    }
}

/// The source range of a global declaration.
pub open spec fn declaration_span(d: GlobalDeclaration) -> Span {
    match d {
        GlobalDeclaration::Names { span, .. } => span,
        GlobalDeclaration::Star { span, .. } => span,
        GlobalDeclaration::Function { span, .. } => span,
    }
}

/// Two literals hold the same value.
pub open spec fn literal_same(a: Literal, b: Literal) -> bool {
    match (a, b) {
        (Literal::Name(x), Literal::Name(y)) => x@ == y@,
        (Literal::Integer(x), Literal::Integer(y)) => x == y,
        (Literal::Float(x), Literal::Float(y)) => x@ == y@,
        (Literal::String(x), Literal::String(y)) => x@ == y@,
        _ => false,
    }
}

/// `t` is a table of bindings in which binding `b` has the name `name`.
pub open spec fn names_binding(t: Seq<BindingMeta>, b: BindingId, name: Seq<u8>) -> bool {
    &&& b.ordinal < t.len()
    &&& t[b.ordinal as int].name@ == name
}

/// A declared name of function `f`, whose bindings are `t`: the same name
/// over the same range, bound to a binding of `f` of that name.
pub open spec fn local_mirrors(n: LocalName, r: ResolvedLocalName, f: FunctionId, t: Seq<BindingMeta>) -> bool {
    &&& r.name@ == n.name@
    &&& r.span == n.span
    &&& r.binding.function == f
    &&& names_binding(t, r.binding, n.name@)
}

/// A resolved expression of function `f` mirrors a parsed one node for
/// node: the same kind of node over the same range, with the same names,
/// operators and literals; a name resolved as a local is a binding of `f`
/// of that name, in the binding table `tb` gives for `f`.
pub open spec fn expr_mirrors(e: Expr, r: ResolvedExpr, f: FunctionId, tb: spec_fn(FunctionId) -> Seq<BindingMeta>) -> bool
    decreases e,
{
    match e {
        Expr::Literal { literal, span } => r matches ResolvedExpr::Literal { literal: l2, span: s2 } && s2 == span && literal_same(literal, l2),
        Expr::Nil { span } => r == ResolvedExpr::Nil { span },
        Expr::Bool { value, span } => r == ResolvedExpr::Bool { value, span },
        Expr::Name { name, span } => r matches ResolvedExpr::Name { name: n2, resolution, span: s2 } && n2@ == name@ && s2 == span
            && (resolution matches ResolvedName::Local(b) ==> b.function == f && names_binding(tb(f), b, name@)),
        Expr::Vararg { span } => r matches ResolvedExpr::Vararg { span: s2, .. } && s2 == span,
        Expr::Unary { op, expression, span } => r matches ResolvedExpr::Unary { op: o2, expression: x2, span: s2 } && o2 == op && s2 == span
            && expr_mirrors(*expression, *x2, f, tb),
        Expr::Binary { op, left, right, span } => r matches ResolvedExpr::Binary { op: o2, left: l2, right: r2, span: s2 } && o2 == op && s2 == span
            && expr_mirrors(*left, *l2, f, tb) && expr_mirrors(*right, *r2, f, tb),
        Expr::Paren { expression, span } => r matches ResolvedExpr::Paren { expression: x2, span: s2 } && s2 == span
            && expr_mirrors(*expression, *x2, f, tb),
        Expr::Index { base, index, span } => r matches ResolvedExpr::Index { base: b2, index: i2, span: s2 } && s2 == span
            && expr_mirrors(*base, *b2, f, tb) && expr_mirrors(*index, *i2, f, tb),
        Expr::Field { base, name, span } => r matches ResolvedExpr::Field { base: b2, name: n2, span: s2 } && s2 == span && n2@ == name@
            && expr_mirrors(*base, *b2, f, tb),
        Expr::Call { callee, arguments, span } => r matches ResolvedExpr::Call { callee: c2, arguments: a2, span: s2 } && s2 == span
            && expr_mirrors(*callee, *c2, f, tb) && a2@.len() == arguments@.len()
            && forall|i: int| 0 <= i < arguments@.len() ==> expr_mirrors(#[trigger] arguments@[i], a2@[i], f, tb),
        Expr::MethodCall { receiver, method, arguments, span } => r matches ResolvedExpr::MethodCall { receiver: c2, method: m2, arguments: a2, span: s2 }
            && s2 == span && m2@ == method@ && expr_mirrors(*receiver, *c2, f, tb) && a2@.len() == arguments@.len()
            && forall|i: int| 0 <= i < arguments@.len() ==> expr_mirrors(#[trigger] arguments@[i], a2@[i], f, tb),
        Expr::Function { body, span } => r matches ResolvedExpr::Function { body: b2, span: s2 } && s2 == span && body_mirrors(body, b2, tb),
        Expr::TableConstructor { fields, span } => r matches ResolvedExpr::TableConstructor { fields: f2, span: s2 } && s2 == span
            && f2@.len() == fields@.len()
            && forall|i: int| 0 <= i < fields@.len() ==> field_mirrors(#[trigger] fields@[i], f2@[i], f, tb),
    }
}

/// A resolved table field mirrors a parsed one.
pub open spec fn field_mirrors(x: TableField, r: ResolvedTableField, f: FunctionId, tb: spec_fn(FunctionId) -> Seq<BindingMeta>) -> bool
    decreases x,
{
    match x {
        TableField::Array { value, separator, span } => r matches ResolvedTableField::Array { value: v2, separator: p2, span: s2 }
            && p2 == separator && s2 == span && expr_mirrors(value, v2, f, tb),
        TableField::Named { name, value, separator, span } => r matches ResolvedTableField::Named { name: n2, value: v2, separator: p2, span: s2 }
            && n2@ == name@ && p2 == separator && s2 == span && expr_mirrors(value, v2, f, tb),
        TableField::Indexed { key, value, separator, span } => r matches ResolvedTableField::Indexed { key: k2, value: v2, separator: p2, span: s2 }
            && p2 == separator && s2 == span && expr_mirrors(key, k2, f, tb) && expr_mirrors(value, v2, f, tb),
    }
}

/// A resolved function body mirrors a parsed one: its parameters, after the
/// implicit `self` of a method, are the declared ones, bound in the new
/// function; it is variadic when the parsed one is; and its block mirrors
/// the parsed block within the new function.
pub open spec fn body_mirrors(b: FunctionBody, r: ResolvedFunctionBody, tb: spec_fn(FunctionId) -> Seq<BindingMeta>) -> bool
    decreases b,
{
    let extra = r.parameters@.len() - b.parameters@.len();
    &&& r.span == b.span
    &&& (extra == 0 || extra == 1)
    &&& forall|i: int| 0 <= i < b.parameters@.len() ==> local_mirrors(#[trigger] b.parameters@[i], r.parameters@[i + extra], r.function, tb(r.function))
    &&& (r.vararg is Some <==> b.vararg is Some)
    &&& block_mirrors(b.body, *r.body, r.function, tb)
}

/// A resolved block of function `f` mirrors a parsed one statement by
/// statement.
pub open spec fn block_mirrors(b: Block, r: ResolvedBlock, f: FunctionId, tb: spec_fn(FunctionId) -> Seq<BindingMeta>) -> bool
    decreases b,
{
    &&& r.span == b.span
    &&& r.terminator == b.terminator
    &&& r.statements@.len() == b.statements@.len()
    &&& forall|i: int| 0 <= i < b.statements@.len() ==> stmt_mirrors(#[trigger] b.statements@[i], r.statements@[i], f, tb)
}

/// A resolved statement of function `f` mirrors a parsed one: the same
/// kind of statement over the same source range, with its expressions,
/// declared names, blocks and function bodies mirrored (for a global
/// declaration, over the range of the declaration).
pub open spec fn stmt_mirrors(s: Stmt, r: ResolvedStmt, f: FunctionId, tb: spec_fn(FunctionId) -> Seq<BindingMeta>) -> bool
    decreases s,
{
    match s {
        Stmt::Empty { span } => r == ResolvedStmt::Empty { span },
        Stmt::Return { values, span } => r matches ResolvedStmt::Return { values: v2, span: s2, .. } && s2 == span
            && v2@.len() == values@.len()
            && forall|i: int| 0 <= i < values@.len() ==> expr_mirrors(#[trigger] values@[i], v2@[i], f, tb),
        Stmt::Assignment { targets, values, span } => r matches ResolvedStmt::Assignment { targets: t2, values: v2, span: s2 } && s2 == span
            && t2@.len() == targets@.len()
            && (forall|i: int| 0 <= i < targets@.len() ==> expr_mirrors(#[trigger] targets@[i], t2@[i], f, tb))
            && v2@.len() == values@.len()
            && forall|i: int| 0 <= i < values@.len() ==> expr_mirrors(#[trigger] values@[i], v2@[i], f, tb),
        Stmt::Call { call, span } => r matches ResolvedStmt::Call { call: c2, span: s2 } && s2 == span && expr_mirrors(call, c2, f, tb),
        Stmt::Local { names, values, span } => r matches ResolvedStmt::Local { bindings: b2, names: n2, values: v2, span: s2 } && s2 == span
            && n2@.len() == names@.len() && b2@.len() == names@.len()
            && (forall|i: int| 0 <= i < names@.len() ==> local_mirrors(#[trigger] names@[i], n2@[i], f, tb(f)) && b2@[i] == n2@[i].binding)
            && v2@.len() == values@.len()
            && forall|i: int| 0 <= i < values@.len() ==> expr_mirrors(#[trigger] values@[i], v2@[i], f, tb),
        Stmt::Global { declaration, .. } => r matches ResolvedStmt::Global { span: s2, .. } && declaration_span(declaration) == s2,
        Stmt::Break { span } => r matches ResolvedStmt::Break { span: s2, .. } && s2 == span,
        Stmt::Goto { name, name_span, span } => r matches ResolvedStmt::Goto { name: n2, name_span: ns2, span: s2, .. }
            && n2@ == name@ && ns2 == name_span && s2 == span,
        Stmt::Label { name, name_span, span } => r matches ResolvedStmt::Label { name: n2, name_span: ns2, span: s2 }
            && n2@ == name@ && ns2 == name_span && s2 == span,
        Stmt::Do { body, span } => r matches ResolvedStmt::Do { body: b2, span: s2 } && s2 == span && block_mirrors(body, b2, f, tb),
        Stmt::If { clauses, else_block, span } => r matches ResolvedStmt::If { clauses: c2, else_block: e2, span: s2 } && s2 == span
            && c2@.len() == clauses@.len()
            && (forall|i: int| 0 <= i < clauses@.len() ==> expr_mirrors((#[trigger] clauses@[i]).0, c2@[i].condition, f, tb)
                && block_mirrors(clauses@[i].1, c2@[i].body, f, tb))
            && match (else_block, e2) {
                (Some(x), Some(y)) => block_mirrors(x, y, f, tb),
                (None, None) => true,
                _ => false,
            },
        Stmt::While { condition, body, span } => r matches ResolvedStmt::While { condition: c2, body: b2, span: s2 } && s2 == span
            && expr_mirrors(condition, c2, f, tb) && block_mirrors(body, b2, f, tb),
        Stmt::Repeat { body, condition, span } => r matches ResolvedStmt::Repeat { body: b2, condition: c2, span: s2 } && s2 == span
            && block_mirrors(body, b2, f, tb) && expr_mirrors(condition, c2, f, tb),
        Stmt::NumericFor { name, initial, limit, step, body, span } => r matches ResolvedStmt::NumericFor {
            name: n2, initial: i2, limit: l2, step: st2, body: b2, span: s2 } && s2 == span
            && local_mirrors(name, n2, f, tb(f)) && expr_mirrors(initial, i2, f, tb) && expr_mirrors(limit, l2, f, tb)
            && match (step, st2) {
                (Some(x), Some(y)) => expr_mirrors(x, y, f, tb),
                (None, None) => true,
                _ => false,
            }
            && block_mirrors(body, b2, f, tb),
        Stmt::GenericFor { names, values, body, span } => r matches ResolvedStmt::GenericFor { names: n2, values: v2, body: b2, span: s2, .. }
            && s2 == span
            && n2@.len() == names@.len()
            && (forall|i: int| 0 <= i < names@.len() ==> local_mirrors(#[trigger] names@[i], n2@[i], f, tb(f)))
            && v2@.len() == values@.len()
            && (forall|i: int| 0 <= i < values@.len() ==> expr_mirrors(#[trigger] values@[i], v2@[i], f, tb))
            && block_mirrors(body, b2, f, tb),
        Stmt::Function { name, body, span, .. } => r matches ResolvedStmt::Function { name: n2, body: b2, span: s2, .. } && s2 == span
            && expr_mirrors(name, n2, f, tb) && body_mirrors(body, b2, tb),
        Stmt::LocalFunction { name, body, span } => r matches ResolvedStmt::LocalFunction { name: n2, body: b2, span: s2 } && s2 == span
            && local_mirrors(name, n2, f, tb(f)) && body_mirrors(body, b2, tb),
    }
}

/// The binding tables of a resolved module: those of its first function of
/// each id.
pub open spec fn module_tables(m: ResolvedModule) -> spec_fn(FunctionId) -> Seq<BindingMeta> {
    |g: FunctionId| table_of(m.functions@, g)
}

/// `b` begins with `a`.
pub open spec fn extends<A>(a: Seq<A>, b: Seq<A>) -> bool {
    &&& a.len() <= b.len()
    &&& forall|i: int| 0 <= i < a.len() ==> b[i] == a[i]
}

/// Every table of `tb2` begins with the matching table of `tb1`.
pub open spec fn grows(tb1: spec_fn(FunctionId) -> Seq<BindingMeta>, tb2: spec_fn(FunctionId) -> Seq<BindingMeta>) -> bool {
    forall|g: FunctionId| #[trigger] extends(tb1(g), tb2(g))
}

/// The bindings of the first function of `fs` with id `g`, none if there
/// is no such function.
pub open spec fn table_of(fs: Seq<ResolvedFunction>, g: FunctionId) -> Seq<BindingMeta>
    decreases fs.len(),
{
    if fs.len() == 0 {
        Seq::empty()
    } else if fs[0].id == g {
        fs[0].bindings@
    } else {
        table_of(fs.drop_first(), g)
    }
}

/// A mirror still holds once the binding tables it speaks of have grown.
pub proof fn lemma_expr_lift(e: Expr, r: ResolvedExpr, f: FunctionId, tb1: spec_fn(FunctionId) -> Seq<BindingMeta>, tb2: spec_fn(FunctionId) -> Seq<BindingMeta>)
    requires
        expr_mirrors(e, r, f, tb1),
        grows(tb1, tb2),
    ensures
        expr_mirrors(e, r, f, tb2),
    decreases e,
{
    match e {
        Expr::Name { name, .. } => {
            if let ResolvedExpr::Name { resolution: ResolvedName::Local(b), .. } = r {
                assert(extends(tb1(f), tb2(f)));
                assert(tb2(f)[b.ordinal as int] == tb1(f)[b.ordinal as int]);
            }
        },
        Expr::Unary { expression, .. } => {
            if let ResolvedExpr::Unary { expression: x2, .. } = r {
                lemma_expr_lift(*expression, *x2, f, tb1, tb2);
            }
        },
        Expr::Binary { left, right, .. } => {
            if let ResolvedExpr::Binary { left: l2, right: r2, .. } = r {
                lemma_expr_lift(*left, *l2, f, tb1, tb2);
                lemma_expr_lift(*right, *r2, f, tb1, tb2);
            }
        },
        Expr::Paren { expression, .. } => {
            if let ResolvedExpr::Paren { expression: x2, .. } = r {
                lemma_expr_lift(*expression, *x2, f, tb1, tb2);
            }
        },
        Expr::Index { base, index, .. } => {
            if let ResolvedExpr::Index { base: b2, index: i2, .. } = r {
                lemma_expr_lift(*base, *b2, f, tb1, tb2);
                lemma_expr_lift(*index, *i2, f, tb1, tb2);
            }
        },
        Expr::Field { base, .. } => {
            if let ResolvedExpr::Field { base: b2, .. } = r {
                lemma_expr_lift(*base, *b2, f, tb1, tb2);
            }
        },
        Expr::Call { callee, arguments, .. } => {
            if let ResolvedExpr::Call { callee: c2, arguments: a2, .. } = r {
                lemma_expr_lift(*callee, *c2, f, tb1, tb2);
                assert forall|i: int| 0 <= i < arguments@.len() implies expr_mirrors(#[trigger] arguments@[i], a2@[i], f, tb2) by {
                    lemma_expr_lift(arguments@[i], a2@[i], f, tb1, tb2);
                }
            }
        },
        Expr::MethodCall { receiver, arguments, .. } => {
            if let ResolvedExpr::MethodCall { receiver: c2, arguments: a2, .. } = r {
                lemma_expr_lift(*receiver, *c2, f, tb1, tb2);
                assert forall|i: int| 0 <= i < arguments@.len() implies expr_mirrors(#[trigger] arguments@[i], a2@[i], f, tb2) by {
                    lemma_expr_lift(arguments@[i], a2@[i], f, tb1, tb2);
                }
            }
        },
        Expr::Function { body, .. } => {
            if let ResolvedExpr::Function { body: b2, .. } = r {
                lemma_body_lift(body, b2, tb1, tb2);
            }
        },
        Expr::TableConstructor { fields, .. } => {
            if let ResolvedExpr::TableConstructor { fields: f2, .. } = r {
                assert forall|i: int| 0 <= i < fields@.len() implies field_mirrors(#[trigger] fields@[i], f2@[i], f, tb2) by {
                    lemma_field_lift(fields@[i], f2@[i], f, tb1, tb2);
                }
            }
        },
        _ => {},
    }
}

pub proof fn lemma_field_lift(x: TableField, r: ResolvedTableField, f: FunctionId, tb1: spec_fn(FunctionId) -> Seq<BindingMeta>, tb2: spec_fn(FunctionId) -> Seq<BindingMeta>)
    requires
        field_mirrors(x, r, f, tb1),
        grows(tb1, tb2),
    ensures
        field_mirrors(x, r, f, tb2),
    decreases x,
{
    match x {
        TableField::Array { value, .. } => {
            if let ResolvedTableField::Array { value: v2, .. } = r {
                lemma_expr_lift(value, v2, f, tb1, tb2);
            }
        },
        TableField::Named { value, .. } => {
            if let ResolvedTableField::Named { value: v2, .. } = r {
                lemma_expr_lift(value, v2, f, tb1, tb2);
            }
        },
        TableField::Indexed { key, value, .. } => {
            if let ResolvedTableField::Indexed { key: k2, value: v2, .. } = r {
                lemma_expr_lift(key, k2, f, tb1, tb2);
                lemma_expr_lift(value, v2, f, tb1, tb2);
            }
        },
    }
}

pub proof fn lemma_local_lift(n: LocalName, r: ResolvedLocalName, f: FunctionId, t1: Seq<BindingMeta>, t2: Seq<BindingMeta>)
    requires
        local_mirrors(n, r, f, t1),
        extends(t1, t2),
    ensures
        local_mirrors(n, r, f, t2),
{
    assert(t2[r.binding.ordinal as int] == t1[r.binding.ordinal as int]);
}

pub proof fn lemma_body_lift(b: FunctionBody, r: ResolvedFunctionBody, tb1: spec_fn(FunctionId) -> Seq<BindingMeta>, tb2: spec_fn(FunctionId) -> Seq<BindingMeta>)
    requires
        body_mirrors(b, r, tb1),
        grows(tb1, tb2),
    ensures
        body_mirrors(b, r, tb2),
    decreases b,
{
    let extra = r.parameters@.len() - b.parameters@.len();
    assert(extends(tb1(r.function), tb2(r.function)));
    assert forall|i: int| 0 <= i < b.parameters@.len() implies local_mirrors(#[trigger] b.parameters@[i], r.parameters@[i + extra], r.function, tb2(r.function)) by {
        lemma_local_lift(b.parameters@[i], r.parameters@[i + extra], r.function, tb1(r.function), tb2(r.function));
    }
    lemma_block_lift(b.body, *r.body, r.function, tb1, tb2);
}

pub proof fn lemma_block_lift(b: Block, r: ResolvedBlock, f: FunctionId, tb1: spec_fn(FunctionId) -> Seq<BindingMeta>, tb2: spec_fn(FunctionId) -> Seq<BindingMeta>)
    requires
        block_mirrors(b, r, f, tb1),
        grows(tb1, tb2),
    ensures
        block_mirrors(b, r, f, tb2),
    decreases b,
{
    assert forall|i: int| 0 <= i < b.statements@.len() implies stmt_mirrors(#[trigger] b.statements@[i], r.statements@[i], f, tb2) by {
        lemma_stmt_lift(b.statements@[i], r.statements@[i], f, tb1, tb2);
    }
}

pub proof fn lemma_stmt_lift(s: Stmt, r: ResolvedStmt, f: FunctionId, tb1: spec_fn(FunctionId) -> Seq<BindingMeta>, tb2: spec_fn(FunctionId) -> Seq<BindingMeta>)
    requires
        stmt_mirrors(s, r, f, tb1),
        grows(tb1, tb2),
    ensures
        stmt_mirrors(s, r, f, tb2),
    decreases s,
{
    assert(extends(tb1(f), tb2(f)));
    match s {
        Stmt::Return { values, .. } => {
            if let ResolvedStmt::Return { values: v2, .. } = r {
                assert forall|i: int| 0 <= i < values@.len() implies expr_mirrors(#[trigger] values@[i], v2@[i], f, tb2) by {
                    lemma_expr_lift(values@[i], v2@[i], f, tb1, tb2);
                }
            }
        },
        Stmt::Assignment { targets, values, .. } => {
            if let ResolvedStmt::Assignment { targets: x2, values: v2, .. } = r {
                assert forall|i: int| 0 <= i < targets@.len() implies expr_mirrors(#[trigger] targets@[i], x2@[i], f, tb2) by {
                    lemma_expr_lift(targets@[i], x2@[i], f, tb1, tb2);
                }
                assert forall|i: int| 0 <= i < values@.len() implies expr_mirrors(#[trigger] values@[i], v2@[i], f, tb2) by {
                    lemma_expr_lift(values@[i], v2@[i], f, tb1, tb2);
                }
            }
        },
        Stmt::Call { call, .. } => {
            if let ResolvedStmt::Call { call: c2, .. } = r {
                lemma_expr_lift(call, c2, f, tb1, tb2);
            }
        },
        Stmt::Local { names, values, .. } => {
            if let ResolvedStmt::Local { names: n2, values: v2, .. } = r {
                assert forall|i: int| 0 <= i < names@.len() implies local_mirrors(#[trigger] names@[i], n2@[i], f, tb2(f)) by {
                    lemma_local_lift(names@[i], n2@[i], f, tb1(f), tb2(f));
                }
                assert forall|i: int| 0 <= i < values@.len() implies expr_mirrors(#[trigger] values@[i], v2@[i], f, tb2) by {
                    lemma_expr_lift(values@[i], v2@[i], f, tb1, tb2);
                }
            }
        },
        Stmt::Do { body, .. } => {
            if let ResolvedStmt::Do { body: b2, .. } = r {
                lemma_block_lift(body, b2, f, tb1, tb2);
            }
        },
        Stmt::If { clauses, else_block, .. } => {
            if let ResolvedStmt::If { clauses: c2, else_block: e2, .. } = r {
                assert forall|i: int| 0 <= i < clauses@.len() implies expr_mirrors((#[trigger] clauses@[i]).0, c2@[i].condition, f, tb2)
                    && block_mirrors(clauses@[i].1, c2@[i].body, f, tb2) by {
                    lemma_expr_lift(clauses@[i].0, c2@[i].condition, f, tb1, tb2);
                    lemma_block_lift(clauses@[i].1, c2@[i].body, f, tb1, tb2);
                }
                if let (Some(x), Some(y)) = (else_block, e2) {
                    lemma_block_lift(x, y, f, tb1, tb2);
                }
            }
        },
        Stmt::While { condition, body, .. } => {
            if let ResolvedStmt::While { condition: c2, body: b2, .. } = r {
                lemma_expr_lift(condition, c2, f, tb1, tb2);
                lemma_block_lift(body, b2, f, tb1, tb2);
            }
        },
        Stmt::Repeat { body, condition, .. } => {
            if let ResolvedStmt::Repeat { body: b2, condition: c2, .. } = r {
                lemma_block_lift(body, b2, f, tb1, tb2);
                lemma_expr_lift(condition, c2, f, tb1, tb2);
            }
        },
        Stmt::NumericFor { name, initial, limit, step, body, .. } => {
            if let ResolvedStmt::NumericFor { name: n2, initial: i2, limit: l2, step: st2, body: b2, .. } = r {
                lemma_local_lift(name, n2, f, tb1(f), tb2(f));
                lemma_expr_lift(initial, i2, f, tb1, tb2);
                lemma_expr_lift(limit, l2, f, tb1, tb2);
                if let (Some(x), Some(y)) = (step, st2) {
                    lemma_expr_lift(x, y, f, tb1, tb2);
                }
                lemma_block_lift(body, b2, f, tb1, tb2);
            }
        },
        Stmt::GenericFor { names, values, body, .. } => {
            if let ResolvedStmt::GenericFor { names: n2, values: v2, body: b2, .. } = r {
                assert forall|i: int| 0 <= i < names@.len() implies local_mirrors(#[trigger] names@[i], n2@[i], f, tb2(f)) by {
                    lemma_local_lift(names@[i], n2@[i], f, tb1(f), tb2(f));
                }
                assert forall|i: int| 0 <= i < values@.len() implies expr_mirrors(#[trigger] values@[i], v2@[i], f, tb2) by {
                    lemma_expr_lift(values@[i], v2@[i], f, tb1, tb2);
                }
                lemma_block_lift(body, b2, f, tb1, tb2);
            }
        },
        Stmt::Function { name, body, .. } => {
            if let ResolvedStmt::Function { name: n2, body: b2, .. } = r {
                lemma_expr_lift(name, n2, f, tb1, tb2);
                lemma_body_lift(body, b2, tb1, tb2);
            }
        },
        Stmt::LocalFunction { name, body, .. } => {
            if let ResolvedStmt::LocalFunction { name: n2, body: b2, .. } = r {
                lemma_local_lift(name, n2, f, tb1(f), tb2(f));
                lemma_body_lift(body, b2, tb1, tb2);
            }
        },
        _ => {},
    }
}

} // verus!
