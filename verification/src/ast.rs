//! The owned syntax tree of a Lua chunk, and what a well-formed tree is.

use vstd::prelude::*;
use crate::lexer::{CompileLimits, LanguageProfile, Literal, Span};
use crate::integer::{IntegerOutcome, decimal_text, floor_div, floor_mod, shift_spec, wrapped};

verus! {

#[derive(Debug, PartialEq)]
pub struct Module {
    pub profile: LanguageProfile,
    pub span: Span,
    pub root: Block,
}

#[derive(Debug, PartialEq)]
pub struct Block {
    pub statements: Vec<Stmt>,
    pub terminator: Option<Span>,
    pub span: Span,
}

#[derive(Debug, PartialEq)]
pub enum Stmt {
    Empty { span: Span },
    Return { values: Vec<Expr>, span: Span },
    Assignment { targets: Vec<Expr>, values: Vec<Expr>, span: Span },
    Call { call: Expr, span: Span },
    Local { names: Vec<LocalName>, values: Vec<Expr>, span: Span },
    Global { declaration: GlobalDeclaration, span: Span },
    Break { span: Span },
    Goto { name: Vec<u8>, name_span: Span, span: Span },
    Label { name: Vec<u8>, name_span: Span, span: Span },
    Do { body: Block, span: Span },
    If { clauses: Vec<(Expr, Block)>, else_block: Option<Block>, span: Span },
    While { condition: Expr, body: Block, span: Span },
    Repeat { body: Block, condition: Expr, span: Span },
    NumericFor {
        name: LocalName,
        initial: Expr,
        limit: Expr,
        step: Option<Expr>,
        body: Block,
        span: Span,
    },
    GenericFor { names: Vec<LocalName>, values: Vec<Expr>, body: Block, span: Span },
    Function { name: Expr, method: Option<MethodName>, body: FunctionBody, span: Span },
    LocalFunction { name: LocalName, body: FunctionBody, span: Span },
}

#[derive(Clone, Debug, PartialEq)]
pub struct MethodName {
    pub name: Vec<u8>,
    pub colon_span: Span,
    pub span: Span,
}

#[derive(Clone, Debug, PartialEq)]
pub struct LocalName {
    pub name: Vec<u8>,
    pub attribute: Option<Attribute>,
    pub span: Span,
}

#[derive(Clone, Debug, PartialEq)]
pub struct Attribute {
    pub name: Vec<u8>,
    pub span: Span,
}

#[derive(Debug, PartialEq)]
pub enum GlobalDeclaration {
    Names {
        names: Vec<LocalName>,
        values: Vec<Expr>,
        prefix_attribute: Option<Attribute>,
        span: Span,
    },
    Star { prefix_attribute: Option<Attribute>, span: Span },
    Function { name: Vec<u8>, body: FunctionBody, span: Span },
}

#[derive(Clone, Copy, Debug, Eq, PartialEq, Structural)]
pub enum FieldSeparator {
    Comma,
    Semicolon,
}

#[derive(Debug, PartialEq)]
pub struct FunctionBody {
    pub parameters: Vec<LocalName>,
    pub vararg: Option<Vararg>,
    pub body: Block,
    pub span: Span,
}

#[derive(Clone, Debug, PartialEq)]
pub struct Vararg {
    pub table_name: Option<LocalName>,
    pub span: Span,
}

#[derive(Debug, PartialEq)]
pub enum Expr {
    Literal { literal: Literal, span: Span },
    Nil { span: Span },
    Bool { value: bool, span: Span },
    Name { name: Vec<u8>, span: Span },
    Vararg { span: Span },
    Unary { op: UnaryOp, expression: Box<Expr>, span: Span },
    Binary { op: BinaryOp, left: Box<Expr>, right: Box<Expr>, span: Span },
    Paren { expression: Box<Expr>, span: Span },
    Index { base: Box<Expr>, index: Box<Expr>, span: Span },
    Field { base: Box<Expr>, name: Vec<u8>, span: Span },
    Call { callee: Box<Expr>, arguments: Vec<Expr>, span: Span },
    MethodCall { receiver: Box<Expr>, method: Vec<u8>, arguments: Vec<Expr>, span: Span },
    Function { body: FunctionBody, span: Span },
    TableConstructor { fields: Vec<TableField>, span: Span },
}

#[derive(Debug, PartialEq)]
pub enum TableField {
    Array { value: Expr, separator: Option<FieldSeparator>, span: Span },
    Named { name: Vec<u8>, value: Expr, separator: Option<FieldSeparator>, span: Span },
    Indexed { key: Expr, value: Expr, separator: Option<FieldSeparator>, span: Span },
}

#[derive(Clone, Copy, Debug, Eq, PartialEq, Structural)]
pub enum UnaryOp {
    Negate,
    Not,
    Length,
    BitNot,
}

#[derive(Clone, Copy, Debug, Eq, PartialEq, Structural)]
pub enum BinaryOp {
    Or,
    And,
    Equal,
    NotEqual,
    Less,
    LessEqual,
    Greater,
    GreaterEqual,
    Pipe,
    BitXor,
    Ampersand,
    ShiftLeft,
    ShiftRight,
    Concat,
    Add,
    Subtract,
    Multiply,
    Divide,
    FloorDivide,
    Modulo,
    Power,
}

/// What a Lua binary operator gives for two integer operands: arithmetic
/// wraps to 64 bits, `//` and `%` round toward negative infinity and refuse a
/// zero divisor, `/` and `^` give floats, `..` joins the decimal texts, and
/// `and`/`or` pick an operand (every integer is true).
pub open spec fn source_binary_outcome(op: BinaryOp, a: i64, b: i64) -> IntegerOutcome {
    match op {
        BinaryOp::Or => IntegerOutcome::Integer(a as int),
        BinaryOp::And => IntegerOutcome::Integer(b as int),
        BinaryOp::Equal => IntegerOutcome::Truth(a == b),
        BinaryOp::NotEqual => IntegerOutcome::Truth(a != b),
        BinaryOp::Less => IntegerOutcome::Truth(a < b),
        BinaryOp::LessEqual => IntegerOutcome::Truth(a <= b),
        BinaryOp::Greater => IntegerOutcome::Truth(a > b),
        BinaryOp::GreaterEqual => IntegerOutcome::Truth(a >= b),
        BinaryOp::Pipe => IntegerOutcome::Integer((a | b) as int),
        BinaryOp::BitXor => IntegerOutcome::Integer((a ^ b) as int),
        BinaryOp::Ampersand => IntegerOutcome::Integer((a & b) as int),
        BinaryOp::ShiftLeft => IntegerOutcome::Integer(shift_spec(a, b, true) as int),
        BinaryOp::ShiftRight => IntegerOutcome::Integer(shift_spec(a, b, false) as int),
        BinaryOp::Concat => IntegerOutcome::Joined(decimal_text(a as int) + decimal_text(b as int)),
        BinaryOp::Add => IntegerOutcome::Integer(wrapped(a + b)),
        BinaryOp::Subtract => IntegerOutcome::Integer(wrapped(a - b)),
        BinaryOp::Multiply => IntegerOutcome::Integer(wrapped(a * b)),
        BinaryOp::Divide => IntegerOutcome::Quotient(a as int, b as int),
        BinaryOp::FloorDivide => if b == 0 { IntegerOutcome::Refused } else { IntegerOutcome::Integer(wrapped(floor_div(a as int, b as int))) },
        BinaryOp::Modulo => if b == 0 { IntegerOutcome::Refused } else { IntegerOutcome::Integer(floor_mod(a as int, b as int)) },
        BinaryOp::Power => IntegerOutcome::Power(a as int, b as int),
    }
}

/// How Lua spells a binary operator.
pub open spec fn binary_spelling(op: BinaryOp) -> Seq<u8> {
    match op {
        BinaryOp::Or => seq![111u8, 114u8],
        BinaryOp::And => seq![97u8, 110u8, 100u8],
        BinaryOp::Equal => seq![61u8, 61u8],
        BinaryOp::NotEqual => seq![126u8, 61u8],
        BinaryOp::Less => seq![60u8],
        BinaryOp::LessEqual => seq![60u8, 61u8],
        BinaryOp::Greater => seq![62u8],
        BinaryOp::GreaterEqual => seq![62u8, 61u8],
        BinaryOp::Pipe => seq![124u8],
        BinaryOp::BitXor => seq![126u8],
        BinaryOp::Ampersand => seq![38u8],
        BinaryOp::ShiftLeft => seq![60u8, 60u8],
        BinaryOp::ShiftRight => seq![62u8, 62u8],
        BinaryOp::Concat => seq![46u8, 46u8],
        BinaryOp::Add => seq![43u8],
        BinaryOp::Subtract => seq![45u8],
        BinaryOp::Multiply => seq![42u8],
        BinaryOp::Divide => seq![47u8],
        BinaryOp::FloorDivide => seq![47u8, 47u8],
        BinaryOp::Modulo => seq![37u8],
        BinaryOp::Power => seq![94u8],
    }
}

/// How Lua spells a unary operator.
pub open spec fn unary_spelling(op: UnaryOp) -> Seq<u8> {
    match op {
        UnaryOp::Negate => seq![45u8],
        UnaryOp::Not => seq![110u8, 111u8, 116u8],
        UnaryOp::Length => seq![35u8],
        UnaryOp::BitNot => seq![126u8],
    }
}

/// What a Lua unary operator gives for an integer operand: `-` wraps, `not`
/// is false (every integer is true), `#` is an error (a number has no
/// length), and `~` flips every bit.
pub open spec fn source_unary_outcome(op: UnaryOp, a: i64) -> IntegerOutcome {
    match op {
        UnaryOp::Negate => IntegerOutcome::Integer(wrapped(-a)),
        UnaryOp::Not => IntegerOutcome::Truth(false),
        UnaryOp::Length => IntegerOutcome::Refused,
        UnaryOp::BitNot => IntegerOutcome::Integer((!a) as int),
    }
}

/// The same field with its separator replaced.
pub open spec fn with_separator(f: TableField, s: Option<FieldSeparator>) -> TableField {
    match f {
        TableField::Array { value, span, .. } => TableField::Array { value, separator: s, span },
        TableField::Named { name, value, span, .. } => TableField::Named { name, value, separator: s, span },
        TableField::Indexed { key, value, span, .. } => TableField::Indexed { key, value, separator: s, span },
    }
}

impl TableField {
    /// Records the separator that follows this field.
    pub fn set_separator(&mut self, separator: FieldSeparator)
        ensures
            *final(self) == with_separator(*old(self), Some(separator)),
    {
        match self {
            TableField::Array { separator: slot, .. } => {
                *slot = Some(separator);
            },
            TableField::Named { separator: slot, .. } => {
                *slot = Some(separator);
            },
            TableField::Indexed { separator: slot, .. } => {
                *slot = Some(separator);
            },
        }
    }
}

/// The source range of an expression.
pub open spec fn expr_span(e: Expr) -> Span {
    match e {
        Expr::Literal { span, .. } => span,
        Expr::Nil { span } => span,
        Expr::Bool { span, .. } => span,
        Expr::Name { span, .. } => span,
        Expr::Vararg { span } => span,
        Expr::Unary { span, .. } => span,
        Expr::Binary { span, .. } => span,
        Expr::Paren { span, .. } => span,
        Expr::Index { span, .. } => span,
        Expr::Field { span, .. } => span,
        Expr::Call { span, .. } => span,
        Expr::MethodCall { span, .. } => span,
        Expr::Function { span, .. } => span,
        Expr::TableConstructor { span, .. } => span,
    }
}

impl Expr {
    /// The source range of this expression.
    pub fn span(&self) -> (r: Span)
        ensures
            r == expr_span(*self),
    {
        match self {
            Expr::Literal { span, .. } => *span,
            Expr::Nil { span } => *span,
            Expr::Bool { span, .. } => *span,
            Expr::Name { span, .. } => *span,
            Expr::Vararg { span } => *span,
            Expr::Unary { span, .. } => *span,
            Expr::Binary { span, .. } => *span,
            Expr::Paren { span, .. } => *span,
            Expr::Index { span, .. } => *span,
            Expr::Field { span, .. } => *span,
            Expr::Call { span, .. } => *span,
            Expr::MethodCall { span, .. } => *span,
            Expr::Function { span, .. } => *span,
            Expr::TableConstructor { span, .. } => *span,
        }
    }
}

/// An expression that can stand on the left of `=`.
pub open spec fn is_assignable(e: Expr) -> bool {
    e is Name || e is Field || e is Index
}

/// A list of a parsed tree: never longer than the list limit allows.
pub open spec fn list_fits(len: nat, limits: CompileLimits) -> bool {
    len <= limits.max_list_entries
}

/// How tightly a binary operator binds: `or` loosest, then `and`, the
/// comparisons, `|`, `~`, `&`, the shifts, `..`, `+ -`, `* / // %`, and `^`
/// tightest (a unary operator binds at 12, between `* / // %` and `^`).
pub open spec fn binary_priority(op: BinaryOp) -> nat {
    match op {
        BinaryOp::Or => 1,
        BinaryOp::And => 2,
        BinaryOp::Equal | BinaryOp::NotEqual | BinaryOp::Less | BinaryOp::LessEqual | BinaryOp::Greater
        | BinaryOp::GreaterEqual => 3,
        BinaryOp::Pipe => 4,
        BinaryOp::BitXor => 5,
        BinaryOp::Ampersand => 6,
        BinaryOp::ShiftLeft | BinaryOp::ShiftRight => 7,
        BinaryOp::Concat => 8,
        BinaryOp::Add | BinaryOp::Subtract => 9,
        BinaryOp::Multiply | BinaryOp::Divide | BinaryOp::FloorDivide | BinaryOp::Modulo => 10,
        BinaryOp::Power => 13,
    }
}

/// `..` and `^` group to the right; every other binary operator to the left.
pub open spec fn right_associative(op: BinaryOp) -> bool {
    op == BinaryOp::Concat || op == BinaryOp::Power
}

/// How tightly a unary operator binds.
pub open spec fn unary_priority() -> nat {
    12
}

/// An operand whose own binary operator, if it has one at its top, binds
/// at least at `floor`; a parenthesized operand has none at its top.
pub open spec fn operand_fits(e: Expr, floor: nat) -> bool {
    e matches Expr::Binary { op, .. } ==> binary_priority(op) >= floor
}

/// The operands of a binary operator bind tighter than it, except that the
/// operand on the side it groups to may bind equally.
pub open spec fn binary_operands_fit(op: BinaryOp, left: Expr, right: Expr) -> bool {
    let p = binary_priority(op);
    &&& operand_fits(left, if right_associative(op) { p + 1 } else { p })
    &&& operand_fits(right, if right_associative(op) { p } else { p + 1 })
}

/// A well-formed expression: binary and unary operators nest as their
/// priorities and grouping demand, every list in it fits the list limit and
/// every function in it is well formed.
pub open spec fn expr_wf(e: Expr, profile: LanguageProfile, limits: CompileLimits) -> bool
    decreases e,
{
    match e {
        Expr::Unary { expression, .. } => operand_fits(*expression, unary_priority()) && expr_wf(*expression, profile, limits),
        Expr::Binary { op, left, right, .. } => binary_operands_fit(op, *left, *right) && expr_wf(*left, profile, limits)
            && expr_wf(*right, profile, limits),
        Expr::Paren { expression, .. } => expr_wf(*expression, profile, limits),
        Expr::Index { base, index, .. } => expr_wf(*base, profile, limits) && expr_wf(*index, profile, limits),
        Expr::Field { base, .. } => expr_wf(*base, profile, limits),
        Expr::Call { callee, arguments, .. } => {
            &&& expr_wf(*callee, profile, limits)
            &&& list_fits(arguments@.len(), limits)
            &&& forall|i: int| 0 <= i < arguments@.len() ==> expr_wf(#[trigger] arguments@[i], profile, limits)
        },
        Expr::MethodCall { receiver, arguments, .. } => {
            &&& expr_wf(*receiver, profile, limits)
            &&& list_fits(arguments@.len(), limits)
            &&& forall|i: int| 0 <= i < arguments@.len() ==> expr_wf(#[trigger] arguments@[i], profile, limits)
        },
        Expr::Function { body, .. } => body_wf(body, profile, limits),
        Expr::TableConstructor { fields, .. } => {
            &&& list_fits(fields@.len(), limits)
            &&& forall|i: int| 0 <= i < fields@.len() ==> field_wf(#[trigger] fields@[i], profile, limits)
        },
        _ => true,
    }
}

/// A well-formed table field.
pub open spec fn field_wf(f: TableField, profile: LanguageProfile, limits: CompileLimits) -> bool
    decreases f,
{
    match f {
        TableField::Array { value, .. } => expr_wf(value, profile, limits),
        TableField::Named { value, .. } => expr_wf(value, profile, limits),
        TableField::Indexed { key, value, .. } => expr_wf(key, profile, limits) && expr_wf(value, profile, limits),
    }
}

/// A well-formed function body: its parameters fit the parameter limit, a
/// named vararg table appears only under Lua 5.5, and its block is well
/// formed.
pub open spec fn body_wf(b: FunctionBody, profile: LanguageProfile, limits: CompileLimits) -> bool
    decreases b,
{
    &&& b.parameters@.len() <= limits.max_parameters
    &&& (b.vararg matches Some(v) && v.table_name is Some ==> profile == LanguageProfile::Lua55)
    &&& block_wf(b.body, profile, limits)
}

/// A well-formed list of expressions.
pub open spec fn exprs_wf(es: Seq<Expr>, profile: LanguageProfile, limits: CompileLimits) -> bool {
    &&& list_fits(es.len(), limits)
    &&& forall|i: int| 0 <= i < es.len() ==> expr_wf(#[trigger] es[i], profile, limits)
}

/// A well-formed block: a `return` is only ever its last statement, it holds
/// no more statements than the statement limit, and each statement is well
/// formed.
pub open spec fn block_wf(b: Block, profile: LanguageProfile, limits: CompileLimits) -> bool
    decreases b,
{
    &&& b.statements@.len() <= limits.max_statements
    &&& forall|i: int| 0 <= i < b.statements@.len() - 1 ==> !(#[trigger] b.statements@[i] is Return)
    &&& forall|i: int| 0 <= i < b.statements@.len() ==> stmt_wf(#[trigger] b.statements@[i], profile, limits)
}

/// A well-formed statement: assignment targets are assignable, a call
/// statement holds a call, every list fits its limit (a list whose first
/// entry the grammar demands may hold that one entry), and every nested
/// block, function and expression is well formed.
pub open spec fn stmt_wf(s: Stmt, profile: LanguageProfile, limits: CompileLimits) -> bool
    decreases s,
{
    match s {
        Stmt::Return { values, .. } => {
            &&& list_fits(values@.len(), limits)
            &&& forall|i: int| 0 <= i < values@.len() ==> expr_wf(#[trigger] values@[i], profile, limits)
        },
        Stmt::Assignment { targets, values, .. } => {
            &&& 1 <= targets@.len()
            &&& (targets@.len() == 1 || list_fits(targets@.len(), limits))
            &&& forall|i: int| 0 <= i < targets@.len() ==> is_assignable(#[trigger] targets@[i])
            &&& forall|i: int| 0 <= i < targets@.len() ==> expr_wf(#[trigger] targets@[i], profile, limits)
            &&& list_fits(values@.len(), limits)
            &&& forall|i: int| 0 <= i < values@.len() ==> expr_wf(#[trigger] values@[i], profile, limits)
        },
        Stmt::Call { call, .. } => (call is Call || call is MethodCall) && expr_wf(call, profile, limits),
        Stmt::Local { names, values, .. } => {
            &&& 1 <= names@.len()
            &&& list_fits(names@.len(), limits)
            &&& list_fits(values@.len(), limits)
            &&& forall|i: int| 0 <= i < values@.len() ==> expr_wf(#[trigger] values@[i], profile, limits)
        },
        Stmt::Global { declaration, .. } => match declaration {
            GlobalDeclaration::Names { names, values, .. } => {
                &&& 1 <= names@.len()
                &&& list_fits(names@.len(), limits)
                &&& list_fits(values@.len(), limits)
                &&& forall|i: int| 0 <= i < values@.len() ==> expr_wf(#[trigger] values@[i], profile, limits)
            },
            GlobalDeclaration::Star { .. } => true,
            GlobalDeclaration::Function { body, .. } => body_wf(body, profile, limits),
        },
        Stmt::Do { body, .. } => block_wf(body, profile, limits),
        Stmt::If { clauses, else_block, .. } => {
            &&& 1 <= clauses@.len()
            &&& (clauses@.len() == 1 || list_fits(clauses@.len(), limits))
            &&& forall|i: int| 0 <= i < clauses@.len() ==> expr_wf((#[trigger] clauses@[i]).0, profile, limits)
            &&& forall|i: int| 0 <= i < clauses@.len() ==> block_wf((#[trigger] clauses@[i]).1, profile, limits)
            &&& (else_block matches Some(b) ==> block_wf(b, profile, limits))
        },
        Stmt::While { condition, body, .. } => expr_wf(condition, profile, limits) && block_wf(body, profile, limits),
        Stmt::Repeat { body, condition, .. } => block_wf(body, profile, limits) && expr_wf(condition, profile, limits),
        Stmt::NumericFor { initial, limit, step, body, .. } => {
            &&& expr_wf(initial, profile, limits)
            &&& expr_wf(limit, profile, limits)
            &&& (step matches Some(e) ==> expr_wf(e, profile, limits))
            &&& block_wf(body, profile, limits)
        },
        Stmt::GenericFor { names, values, body, .. } => {
            &&& 1 <= names@.len()
            &&& (names@.len() == 1 || list_fits(names@.len(), limits))
            &&& list_fits(values@.len(), limits)
            &&& forall|i: int| 0 <= i < values@.len() ==> expr_wf(#[trigger] values@[i], profile, limits)
            &&& block_wf(body, profile, limits)
        },
        Stmt::Function { name, body, .. } => expr_wf(name, profile, limits) && body_wf(body, profile, limits),
        Stmt::LocalFunction { body, .. } => body_wf(body, profile, limits),
        _ => true,
    }
}

/// The source range of a statement.
pub open spec fn stmt_span(s: Stmt) -> Span {
    match s {
        Stmt::Empty { span } => span,
        Stmt::Return { span, .. } => span,
        Stmt::Assignment { span, .. } => span,
        Stmt::Call { span, .. } => span,
        Stmt::Local { span, .. } => span,
        Stmt::Global { span, .. } => span,
        Stmt::Break { span } => span,
        Stmt::Goto { span, .. } => span,
        Stmt::Label { span, .. } => span,
        Stmt::Do { span, .. } => span,
        Stmt::If { span, .. } => span,
        Stmt::While { span, .. } => span,
        Stmt::Repeat { span, .. } => span,
        Stmt::NumericFor { span, .. } => span,
        Stmt::GenericFor { span, .. } => span,
        Stmt::Function { span, .. } => span,
        Stmt::LocalFunction { span, .. } => span,
    }
}

} // verus!
