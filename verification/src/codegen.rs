//! Deterministic lowering of the resolved tree to typed IR, and emission of
//! the IR as a verified RVLU module.

use vstd::prelude::*;
use crate::ast::{BinaryOp, UnaryOp, source_binary_outcome, source_unary_outcome};
use crate::bytecode::{
    BinaryOperation, BytecodeVersion, binary_operation_outcome, unary_operation_outcome, ConstId, EnvironmentSource, FrameLayout, Instruction, InstructionOffset,
    IrLimits, LuaProfile, ProtoId, RVLU_V2_NUMBER, Register, ResultMode, UnaryOperation, UpvalueId,
};
use crate::ir::{IrClosePath, IrConstant, IrInstruction, IrModule, IrPrototype, IrUpvalue, proto_of};
use crate::lexer::{LanguageProfile, Literal, Span, bytes_equal};
use crate::codec::{EncodedModule, encode_module};
use crate::format::{RVLU_NUMERIC_I64_F64, enc_module, module_fits};
use crate::module::{
    BytecodeBindingId, BytecodeClosePath, BytecodeConstant, BytecodeError, BytecodeExitKind,
    BytecodeInstruction, BytecodeModule, BytecodePrototype, BytecodeSpan, BytecodeUpvalue,
    BytecodeUpvalueSource, ClosePathModel, ConstantModel, InstructionModel, ModuleModel, PrototypeModel,
    VerifyLimits, limit_error, verify_error,
};
use crate::rules::module_valid;
use crate::resolved::{
    BindingId, BindingKind, BindingMeta, ClosePath, ExitKind, FunctionId, ResolvedBlock, ResolvedExpr, ResolvedLocalName,
    ResolvedFunction, ResolvedFunctionBody, ResolvedGlobalDeclaration, ResolvedModule,
    ResolvedName, ResolvedStmt, ResolvedTableField, ScopeId, UpvalueSource,
};

verus! {

/// A lowering failure: malformed resolved metadata or an IR limit.
#[derive(Clone, Debug, Eq, PartialEq)]
pub struct IrError {
    pub span: Span,
    pub message: String,
}

fn invalid(span: Span, message: &str) -> (r: IrError)
    ensures
        r.span == span,
{
    IrError { span, message: message.to_owned() }
}

fn limit(span: Span, message: &str) -> (r: IrError)
    ensures
        r.span == span,
{
    IrError { span, message: message.to_owned() }
}

/// The prototype `function` is mapped to.
fn proto_for(prototypes: &Vec<(FunctionId, ProtoId)>, function: FunctionId, span: Span) -> (r: Result<ProtoId, IrError>)
    ensures
        r matches Ok(id) ==> proto_of(prototypes@, function) == Some(id),
        r is Err ==> proto_of(prototypes@, function) is None,
{
    let mut i: usize = 0;
    assert(prototypes@.skip(0) =~= prototypes@);
    while i < prototypes.len()
        invariant
            i <= prototypes@.len(),
            proto_of(prototypes@, function) == proto_of(prototypes@.skip(i as int), function),
        decreases prototypes.len() - i,
    {
        assert(prototypes@.skip(i as int).drop_first() =~= prototypes@.skip(i + 1));
        if prototypes[i].0 == function {
            return Ok(prototypes[i].1);
        }
        i = i + 1;
    }
    Err(invalid(span, "P04 FunctionId 無 prototype map"))
}

/// The register `offset` places after `base`.
fn register_offset(base: Register, offset: usize, span: Span) -> (r: Result<Register, IrError>)
    ensures
        r matches Ok(reg) ==> reg.0 == base.0 + offset,
        r is Err <==> base.0 + offset > u16::MAX,
{
    if offset > 0xffffusize {
        return Err(limit(span, "register offset 超過 IR 限制"));
    }
    let small = offset as u16;
    match base.0.checked_add(small) {
        Some(n) => Ok(Register(n)),
        None => Err(limit(span, "register offset 超過 IR 限制")),
    }
}

fn find_function<'f>(functions: &'f Vec<ResolvedFunction>, id: FunctionId) -> (r: Option<&'f ResolvedFunction>)
    ensures
        r matches Some(f) ==> f.id == id,
{
    let mut i: usize = 0;
    while i < functions.len()
        invariant
            i <= functions@.len(),
        decreases functions.len() - i,
    {
        if functions[i].id == id {
            return Some(&functions[i]);
        }
        i = i + 1;
    }
    None
}

/// The binding of an enclosing function that upvalue `index` of `function`
/// finally captures, following parent upvalues at most `fuel` times.
fn upvalue_origin(functions: &Vec<ResolvedFunction>, function: &ResolvedFunction, index: usize, fuel: usize) -> (r: Option<BindingId>)
    decreases fuel,
{
    if index >= function.upvalues.len() {
        return None;
    }
    match function.upvalues[index] {
        UpvalueSource::ParentLocal(binding) => Some(binding),
        UpvalueSource::ParentUpvalue(parent_index) => {
            if fuel == 0 {
                return None;
            }
            let parent = match function.parent {
                Some(p) => match find_function(functions, p) {
                    Some(f) => f,
                    None => {
                        return None;
                    },
                },
                None => {
                    return None;
                },
            };
            upvalue_origin(functions, parent, parent_index.0 as usize, fuel - 1)
        },
    }
}

/// The register that holds the environment of `function`: the root `_ENV`
/// binding's register in the main function, and the slot after the
/// bindings elsewhere.
fn environment_slot(function: &ResolvedFunction, root_environment: BindingId, span: Span) -> (r: Result<Register, IrError>) {
    if function.id == FunctionId(0) {
        let mut i: usize = 0;
        while i < function.bindings.len()
            invariant
                i <= function.bindings@.len(),
            decreases function.bindings.len() - i,
        {
            if function.bindings[i].id == root_environment {
                if i >= 0xffffusize {
                    return Err(limit(span, "register 數超過 IR 限制"));
                }
                return Ok(Register((i + 1) as u16));
            }
            i = i + 1;
        }
        Err(invalid(span, "root _ENV binding 未配置 register"))
    } else {
        if function.bindings.len() >= 0xffffusize {
            return Err(limit(span, "register 數超過 IR 限制"));
        }
        Ok(Register((function.bindings.len() + 1) as u16))
    }
}

fn expr_span(expression: &ResolvedExpr) -> (r: Span) {
    match expression {
        ResolvedExpr::Literal { span, .. } => *span,
        ResolvedExpr::Nil { span } => *span,
        ResolvedExpr::Bool { span, .. } => *span,
        ResolvedExpr::Name { span, .. } => *span,
        ResolvedExpr::Vararg { span, .. } => *span,
        ResolvedExpr::Unary { span, .. } => *span,
        ResolvedExpr::Binary { span, .. } => *span,
        ResolvedExpr::Paren { span, .. } => *span,
        ResolvedExpr::Index { span, .. } => *span,
        ResolvedExpr::Field { span, .. } => *span,
        ResolvedExpr::Call { span, .. } => *span,
        ResolvedExpr::MethodCall { span, .. } => *span,
        ResolvedExpr::Function { span, .. } => *span,
        ResolvedExpr::TableConstructor { span, .. } => *span,
    }
}

/// The operation an operator lowers to computes what the operator means.
fn map_unary(op: UnaryOp) -> (r: UnaryOperation)
    ensures
        forall|a: i64| #[trigger] unary_operation_outcome(r, a) == source_unary_outcome(op, a),
{
    match op {
        UnaryOp::Negate => UnaryOperation::Negate,
        UnaryOp::Not => UnaryOperation::Not,
        UnaryOp::Length => UnaryOperation::Length,
        UnaryOp::BitNot => UnaryOperation::BitNot,
    }
}

/// The operation an operator lowers to computes what the operator means.
fn map_binary(op: BinaryOp) -> (r: BinaryOperation)
    ensures
        forall|a: i64, b: i64| #[trigger] binary_operation_outcome(r, a, b) == source_binary_outcome(op, a, b),
{
    match op {
        BinaryOp::Or => BinaryOperation::Or,
        BinaryOp::And => BinaryOperation::And,
        BinaryOp::Equal => BinaryOperation::Equal,
        BinaryOp::NotEqual => BinaryOperation::NotEqual,
        BinaryOp::Less => BinaryOperation::Less,
        BinaryOp::LessEqual => BinaryOperation::LessEqual,
        BinaryOp::Greater => BinaryOperation::Greater,
        BinaryOp::GreaterEqual => BinaryOperation::GreaterEqual,
        BinaryOp::Pipe => BinaryOperation::Pipe,
        BinaryOp::BitXor => BinaryOperation::BitXor,
        BinaryOp::Ampersand => BinaryOperation::Ampersand,
        BinaryOp::ShiftLeft => BinaryOperation::ShiftLeft,
        BinaryOp::ShiftRight => BinaryOperation::ShiftRight,
        BinaryOp::Concat => BinaryOperation::Concat,
        BinaryOp::Add => BinaryOperation::Add,
        BinaryOp::Subtract => BinaryOperation::Subtract,
        BinaryOp::Multiply => BinaryOperation::Multiply,
        BinaryOp::Divide => BinaryOperation::Divide,
        BinaryOp::FloorDivide => BinaryOperation::FloorDivide,
        BinaryOp::Modulo => BinaryOperation::Modulo,
        BinaryOp::Power => BinaryOperation::Power,
    }
}

/// The jump target of a control-flow instruction, if it has one.
pub open spec fn jump_target(i: Instruction) -> Option<InstructionOffset> {
    match i {
        Instruction::Jump { target } => Some(target),
        Instruction::JumpIfFalse { target, .. } => Some(target),
        _ => None,
    }
}

/// An instruction whose results stay open to the top of the frame.
pub open spec fn is_open_result(i: Instruction) -> bool {
    ||| i matches Instruction::Call { result_mode: ResultMode::All, .. }
    ||| i matches Instruction::Vararg { result_mode: ResultMode::All, .. }
}

fn is_close(instruction: &Instruction) -> (r: bool)
    ensures
        r == (*instruction is Close),
{
    match instruction {
        Instruction::Close { .. } => true,
        _ => false,
    }
}

struct LabelEntry {
    name: Vec<u8>,
    offset: Option<InstructionOffset>,
}

struct LabelFrame {
    scope: ScopeId,
    labels: Vec<LabelEntry>,
}

struct PendingGoto {
    instruction: usize,
    scope: ScopeId,
    name: Vec<u8>,
    span: Span,
}

struct LoopFrame {
    break_patches: Vec<usize>,
}

/// Lowers one function's body into one prototype.
pub struct Builder<'a> {
    function: &'a ResolvedFunction,
    id: ProtoId,
    parent: Option<ProtoId>,
    span: Span,
    limits: IrLimits,
    prototypes: &'a Vec<(FunctionId, ProtoId)>,
    functions: &'a Vec<ResolvedFunction>,
    global_environment: Register,
    global_environment_binding: BindingId,
    environment_source: EnvironmentSource,
    initial_top: Register,
    dynamic_top: Register,
    next_register: u16,
    binding_registers: Vec<(BindingId, Register)>,
    constants: Vec<IrConstant>,
    instructions: Vec<IrInstruction>,
    close_paths: Vec<IrClosePath>,
    label_frames: Vec<LabelFrame>,
    pending_gotos: Vec<PendingGoto>,
    loops: Vec<LoopFrame>,
    parameter_count: u16,
    is_variadic: bool,
    named_vararg: Option<(BindingId, Register)>,
}

impl<'a> Builder<'a> {
    /// Registers and instructions stay within the IR limits.
    pub closed spec fn inv(&self) -> bool {
        &&& self.next_register <= self.limits.max_registers
        &&& self.instructions@.len() <= self.limits.max_instructions
    }

    /// The limits this builder lowers within.
    pub closed spec fn lowering_limits(&self) -> IrLimits {
        self.limits
    }

    /// How many instructions this builder has emitted.
    pub closed spec fn instruction_count(&self) -> nat {
        self.instructions@.len()
    }

    /// The instructions this builder has emitted, in order.
    pub closed spec fn code(&self) -> Seq<IrInstruction> {
        self.instructions@
    }

    /// The registers that hold the locals of this function, by binding.
    pub closed spec fn registers(&self) -> Seq<(BindingId, Register)> {
        self.binding_registers@
    }

    /// The builder lowers the main function, whose environment comes from
    /// outside.
    pub closed spec fn lowers_root(&self) -> bool {
        &&& self.environment_source == EnvironmentSource::RootExternal
        &&& self.function.id == FunctionId(0)
        &&& self.parent is None
    }

    /// The function has at most as many upvalues as 16-bit ids can name.
    pub closed spec fn upvalues_fit(&self) -> bool {
        self.function.upvalues@.len() <= 0x10000
    }

    /// A label scope, pending goto or loop is still open.
    pub closed spec fn open_patches(&self) -> bool {
        self.label_frames@.len() != 0 || self.pending_gotos@.len() != 0 || self.loops@.len() != 0
    }

    /// The prototype this builder lowers into.
    pub closed spec fn proto_id(&self) -> ProtoId {
        self.id
    }

    /// The function this builder lowers.
    pub closed spec fn function_id(&self) -> FunctionId {
        self.function.id
    }
}

/// How many of `bindings` are parameters.
pub open spec fn parameter_total(bindings: Seq<BindingMeta>) -> nat
    decreases bindings.len(),
{
    if bindings.len() == 0 {
        0
    } else {
        parameter_total(bindings.drop_last()) + if bindings.last().kind == BindingKind::Parameter { 1nat } else { 0nat }
    }
}

/// A prototype carries the metadata of the function it was lowered from:
/// the prototype of the parent function as its parent, the function's
/// upvalues in order, binding `k` in register `k + 1`, and one parameter
/// for each parameter binding.
pub open spec fn prototype_mirrors(p: IrPrototype, f: ResolvedFunction, map: Seq<(FunctionId, ProtoId)>) -> bool {
    &&& p.parent == (match f.parent {
        Some(q) => proto_of(map, q),
        None => None,
    })
    &&& carries_metadata(p, f)
}

/// The upvalues, binding registers and parameter count of `p` are those of
/// `f`.
pub open spec fn carries_metadata(p: IrPrototype, f: ResolvedFunction) -> bool {
    &&& p.upvalues@.len() == f.upvalues@.len()
    &&& forall|k: int| 0 <= k < p.upvalues@.len() ==> (#[trigger] p.upvalues@[k]).source == f.upvalues@[k] && p.upvalues@[k].id == UpvalueId(k as u16)
    &&& p.binding_registers@.len() == f.bindings@.len()
    &&& forall|k: int| 0 <= k < p.binding_registers@.len() ==> (#[trigger] p.binding_registers@[k]) == (f.bindings@[k].id, Register((k + 1) as u16))
    &&& p.parameter_count == parameter_total(f.bindings@)
}

impl<'a> Builder<'a> {
    /// The map from functions to prototypes this builder refers to.
    pub closed spec fn prototype_map(&self) -> Seq<(FunctionId, ProtoId)> {
        self.prototypes@
    }

    /// The builder lowers `function` into a prototype whose parent is
    /// `parent`, with the function's bindings in registers from one on.
    pub closed spec fn lowers(&self, function: ResolvedFunction, parent: Option<ProtoId>) -> bool {
        &&& *self.function == function
        &&& self.parent == parent
        &&& self.binding_registers@.len() == function.bindings@.len()
        &&& forall|k: int| 0 <= k < self.binding_registers@.len() ==> (#[trigger] self.binding_registers@[k]) == (function.bindings@[k].id, Register((k + 1) as u16))
        &&& self.parameter_count == parameter_total(function.bindings@)
    }
}

/// The code ends with a return: `Return`, or a `TailCall` that hands on
/// every result.
pub open spec fn ends_with_return(code: Seq<IrInstruction>) -> bool {
    code.len() >= 1 && (code.last().instruction is Return
        || code.last().instruction matches Instruction::TailCall { result_mode: ResultMode::All, .. })
}

/// The code of `a and b` ends so: the left value is moved into `dest`, a
/// test of `dest` jumps, when false, to the end (the right operand is not
/// evaluated and `dest` keeps the left value); otherwise the right operand's
/// code runs and its value is moved into `dest`.
pub open spec fn and_shape(code: Seq<IrInstruction>, dest: Register) -> bool {
    exists|m: int| {
        &&& 0 <= m && m + 1 < code.len() - 2
        &&& #[trigger] code[m].instruction matches Instruction::Move { dest: d, .. } && d == dest
        &&& code[m + 1].instruction == (Instruction::JumpIfFalse { condition: dest, target: InstructionOffset((code.len() - 1) as u32) })
        &&& code[code.len() - 2].instruction matches Instruction::Move { dest: d2, .. } && d2 == dest
        &&& code[code.len() - 1].instruction is LoadNil
    }
}

/// The code of `a or b` ends so: the left value is moved into `dest`; when
/// `dest` is true a jump goes straight to the end (the right operand is not
/// evaluated and `dest` keeps the left value); when false the test jumps past
/// that jump to the right operand's code, whose value is moved into `dest`.
pub open spec fn or_shape(code: Seq<IrInstruction>, dest: Register) -> bool {
    exists|m: int| {
        &&& 0 <= m && m + 3 < code.len() - 2
        &&& #[trigger] code[m].instruction matches Instruction::Move { dest: d, .. } && d == dest
        &&& code[m + 1].instruction == (Instruction::JumpIfFalse { condition: dest, target: InstructionOffset((m + 3) as u32) })
        &&& code[m + 2].instruction == (Instruction::Jump { target: InstructionOffset((code.len() - 1) as u32) })
        &&& code[m + 3].instruction is LoadNil
        &&& code[code.len() - 2].instruction matches Instruction::Move { dest: d2, .. } && d2 == dest
        &&& code[code.len() - 1].instruction is LoadNil
    }
}

proof fn lemma_and_shape(code: Seq<IrInstruction>, dest: Register, m: int)
    requires
        0 <= m && m + 1 < code.len() - 2,
        code[m].instruction matches Instruction::Move { dest: d, .. } && d == dest,
        code[m + 1].instruction == (Instruction::JumpIfFalse { condition: dest, target: InstructionOffset((code.len() - 1) as u32) }),
        code[code.len() - 2].instruction matches Instruction::Move { dest: d2, .. } && d2 == dest,
        code[code.len() - 1].instruction is LoadNil,
    ensures
        and_shape(code, dest),
{
}

proof fn lemma_or_shape(code: Seq<IrInstruction>, dest: Register, m: int)
    requires
        0 <= m && m + 3 < code.len() - 2,
        code[m].instruction matches Instruction::Move { dest: d, .. } && d == dest,
        code[m + 1].instruction == (Instruction::JumpIfFalse { condition: dest, target: InstructionOffset((m + 3) as u32) }),
        code[m + 2].instruction == (Instruction::Jump { target: InstructionOffset((code.len() - 1) as u32) }),
        code[m + 3].instruction is LoadNil,
        code[code.len() - 2].instruction matches Instruction::Move { dest: d2, .. } && d2 == dest,
        code[code.len() - 1].instruction is LoadNil,
    ensures
        or_shape(code, dest),
{
}

/// `after` is `before` with instructions appended: none is changed or
/// removed.
pub open spec fn code_extends(before: Seq<IrInstruction>, after: Seq<IrInstruction>) -> bool {
    &&& before.len() <= after.len()
    &&& forall|i: int| 0 <= i < before.len() ==> after[i] == before[i]
}

/// `reg` is the register of binding `b` in `regs`: the first entry for `b`.
pub open spec fn holds_binding(regs: Seq<(BindingId, Register)>, b: BindingId, reg: Register) -> bool {
    exists|i: int| 0 <= i < regs.len() && #[trigger] regs[i] == (b, reg) && forall|k: int| 0 <= k < i ==> regs[k].0 != b
}

/// The instruction that leaves the value of expression `e` in `reg` is the
/// last of `code`: a constant load, a nil load, an operation that computes
/// what the source operator means on the registers that earlier code left
/// its operands in (left before right), the table read from the registers
/// of its table and key (or of a global name), the read of an upvalue's
/// slot, the call with its argument count or `...`, with result mode
/// `mode`, or the closure.  A parenthesised expression is its inner one
/// with one result; a local name is the register that `regs` gives its
/// binding; `and` and `or` end in the shapes that pick an operand; a table
/// constructor creates its table in `reg`.
pub open spec fn expr_result_at(e: ResolvedExpr, code: Seq<IrInstruction>, reg: Register, mode: ResultMode, regs: Seq<(BindingId, Register)>) -> bool
    decreases e,
{
    match e {
        ResolvedExpr::Literal { .. } | ResolvedExpr::Bool { .. } =>
            code.len() >= 1 && (code.last().instruction matches Instruction::LoadConst { dest, .. } && dest == reg),
        ResolvedExpr::Nil { .. } =>
            code.len() >= 1 && code.last().instruction == (Instruction::LoadNil { start: reg, count: 1 }),
        ResolvedExpr::Unary { op, expression, .. } =>
            code.len() >= 1 && (code.last().instruction matches Instruction::UnaryOp { dest, op: o, src } && dest == reg
                && (forall|a: i64| #[trigger] unary_operation_outcome(o, a) == source_unary_outcome(op, a))
                && exists|p: int| 0 <= p < code.len() && expr_result_at(*expression, #[trigger] code.take(p), src, ResultMode::Fixed(1), regs)),
        ResolvedExpr::Binary { op: BinaryOp::And, .. } => and_shape(code, reg),
        ResolvedExpr::Binary { op: BinaryOp::Or, .. } => or_shape(code, reg),
        ResolvedExpr::Binary { op, left, right, .. } => (code.len() >= 1 && (code.last().instruction matches Instruction::BinaryOp { dest, op: o, left: l, right: r } && dest == reg
                && (forall|a: i64, b: i64| #[trigger] binary_operation_outcome(o, a, b) == source_binary_outcome(op, a, b))
                && exists|p: int, q: int| 0 <= p <= q < code.len()
                    && expr_result_at(*left, #[trigger] code.take(p), l, ResultMode::Fixed(1), regs)
                    && expr_result_at(*right, #[trigger] code.take(q), r, ResultMode::Fixed(1), regs))),
        ResolvedExpr::Index { base, index, .. } =>
            code.len() >= 1 && (code.last().instruction matches Instruction::GetTable { dest, table, key } && dest == reg
                && exists|p: int, q: int| 0 <= p <= q < code.len()
                    && expr_result_at(*base, #[trigger] code.take(p), table, ResultMode::Fixed(1), regs)
                    && expr_result_at(*index, #[trigger] code.take(q), key, ResultMode::Fixed(1), regs)),
        ResolvedExpr::Field { base, .. } =>
            code.len() >= 1 && (code.last().instruction matches Instruction::GetTable { dest, table, .. } && dest == reg
                && exists|p: int| 0 <= p < code.len() && expr_result_at(*base, #[trigger] code.take(p), table, ResultMode::Fixed(1), regs)),
        ResolvedExpr::Call { arguments, .. } =>
            code.len() >= 1 && (code.last().instruction matches Instruction::Call { base, arg_count, result_mode }
                && base == reg && result_mode == mode && arg_count == arguments@.len()),
        ResolvedExpr::MethodCall { arguments, .. } =>
            code.len() >= 1 && (code.last().instruction matches Instruction::Call { base, arg_count, result_mode }
                && base == reg && result_mode == mode && arg_count == arguments@.len() + 1),
        ResolvedExpr::Vararg { .. } =>
            code.len() >= 1 && code.last().instruction == (Instruction::Vararg { base: reg, result_mode: mode }),
        ResolvedExpr::Function { .. } =>
            code.len() >= 1 && (code.last().instruction matches Instruction::Closure { dest, .. } && dest == reg),
        ResolvedExpr::Paren { expression, .. } => expr_result_at(*expression, code, reg, ResultMode::Fixed(1), regs),
        ResolvedExpr::Name { resolution: ResolvedName::Local(b), .. } => holds_binding(regs, b, reg),
        ResolvedExpr::Name { resolution: ResolvedName::Upvalue(u), .. } => code.len() >= 1
            && code.last().instruction == (Instruction::GetUpvalue { dest: reg, upvalue: UpvalueId(u.0 as u16) }),
        ResolvedExpr::Name { resolution: ResolvedName::Global(_), .. } | ResolvedExpr::Name { resolution: ResolvedName::EnvField { .. }, .. } =>
            code.len() >= 1 && (code.last().instruction matches Instruction::GetTable { dest, .. } && dest == reg),
        ResolvedExpr::TableConstructor { .. } => exists|m: int| 0 <= m < code.len() && (#[trigger] code[m]).instruction == (Instruction::NewTable { dest: reg }),
    }
}

/// The code ends with one move per declared local, in declaration order:
/// the register of the `i`-th local takes the `i`-th of consecutive
/// registers.
pub open spec fn locals_moved(code: Seq<IrInstruction>, regs: Seq<(BindingId, Register)>, bindings: Seq<BindingId>) -> bool {
    let start = code.len() - bindings.len();
    &&& code.len() >= bindings.len()
    &&& forall|i: int| 0 <= i < bindings.len() ==>
        ((#[trigger] code[start + i]).instruction matches Instruction::Move { dest, src }
            && holds_binding(regs, bindings[i], dest) && src.0 == move_source(code[start].instruction) + i)
}

/// The register a move reads.
pub open spec fn move_source(i: Instruction) -> int {
    match i {
        Instruction::Move { src, .. } => src.0 as int,
        _ => -1,
    }
}

/// How many values a `return` of `values` gives: all that a trailing call
/// or `...` gives, else one per value.
pub open spec fn returned_mode(values: Seq<ResolvedExpr>) -> ResultMode {
    if values.len() > 0 && is_open(values.last()) {
        ResultMode::All
    } else {
        ResultMode::Fixed(values.len() as u16)
    }
}

/// The register an operation or move writes.
pub open spec fn written_register(i: Instruction) -> Register {
    match i {
        Instruction::BinaryOp { dest, .. } => dest,
        Instruction::Move { dest, .. } => dest,
        Instruction::LoadConst { dest, .. } => dest,
        _ => Register(0),
    }
}

/// The left operand of a binary operation.
pub open spec fn left_operand(i: Instruction) -> Register {
    match i {
        Instruction::BinaryOp { left, .. } => left,
        _ => Register(0),
    }
}

/// The right operand of a binary operation.
pub open spec fn right_operand(i: Instruction) -> Register {
    match i {
        Instruction::BinaryOp { right, .. } => right,
        _ => Register(0),
    }
}

/// The test of a numeric `for` starts at `a`: the sign of the step (its
/// register compared below a register loaded just before with a constant)
/// picks one of two tests of the control register against the limit,
/// `>=` for a negative step and `<=` otherwise; each test leaves the loop
/// when false.
pub open spec fn numeric_for_test(code: Seq<IrInstruction>, a: int) -> bool {
    let control = left_operand(code[a + 2].instruction);
    let limit = right_operand(code[a + 2].instruction);
    let step = left_operand(code[a].instruction);
    let negative = written_register(code[a].instruction);
    let down = written_register(code[a + 2].instruction);
    let up = written_register(code[a + 5].instruction);
    &&& 1 <= a && a + 7 <= code.len()
    &&& code[a - 1].instruction matches Instruction::LoadConst { dest, .. } && dest == right_operand(code[a].instruction)
    &&& code[a].instruction == (Instruction::BinaryOp { dest: negative, op: BinaryOperation::Less, left: step, right: right_operand(code[a].instruction) })
    &&& untargeted(code[a + 1].instruction) == (Instruction::JumpIfFalse { condition: negative, target: InstructionOffset(0) })
    &&& code[a + 2].instruction == (Instruction::BinaryOp { dest: down, op: BinaryOperation::GreaterEqual, left: control, right: limit })
    &&& untargeted(code[a + 3].instruction) == (Instruction::JumpIfFalse { condition: down, target: InstructionOffset(0) })
    &&& untargeted(code[a + 4].instruction) == (Instruction::Jump { target: InstructionOffset(0) })
    &&& code[a + 5].instruction == (Instruction::BinaryOp { dest: up, op: BinaryOperation::LessEqual, left: control, right: limit })
    &&& untargeted(code[a + 6].instruction) == (Instruction::JumpIfFalse { condition: up, target: InstructionOffset(0) })
}

/// A numeric `for` over the local `b`: the loop test at `a` works on the
/// register of `b`, and the code ends by adding the step to it, moving the
/// sum back, jumping and the exit anchor.
pub open spec fn numeric_for_lowered(code: Seq<IrInstruction>, regs: Seq<(BindingId, Register)>, b: BindingId) -> bool {
    exists|a: int| #[trigger] numeric_for_test(code, a) && {
        let control = left_operand(code[a + 2].instruction);
        let step = left_operand(code[a].instruction);
        let n = code.len();
        &&& a + 7 <= n - 4
        &&& holds_binding(regs, b, control)
        &&& code[n - 4].instruction == (Instruction::BinaryOp { dest: written_register(code[n - 4].instruction), op: BinaryOperation::Add, left: control, right: step })
        &&& code[n - 3].instruction == (Instruction::Move { dest: control, src: written_register(code[n - 4].instruction) })
        &&& untargeted(code[n - 2].instruction) == (Instruction::Jump { target: InstructionOffset(0) })
        &&& code[n - 1].instruction is LoadNil
    }
}

/// Patching a jump leaves every other instruction as it was.
proof fn lemma_untargeted_fixed(after: Instruction, before: Instruction)
    requires
        untargeted(after) == untargeted(before),
        !(jump_target(before) is Some),
    ensures
        after == before,
{
}

/// The exit test of a generic `for` stands at `k`: right after the call of
/// the iterator a nil is loaded, the call's first result is compared with
/// it by `!=`, and a jump leaves the loop when that is false, so the loop
/// ends on nil alone and goes on when the first result is `false`.
pub open spec fn generic_for_exit_at(code: Seq<IrInstruction>, k: int) -> bool {
    let compared = code[k + 1].instruction;
    &&& 1 <= k && k + 3 <= code.len()
    &&& code[k - 1].instruction matches Instruction::Call { base, .. } && base == left_operand(compared)
    &&& code[k].instruction matches Instruction::LoadNil { start, count } && start == right_operand(compared) && count == 1
    &&& compared == (Instruction::BinaryOp { dest: written_register(compared), op: BinaryOperation::NotEqual, left: left_operand(compared), right: right_operand(compared) })
    &&& untargeted(code[k + 2].instruction) == (Instruction::JumpIfFalse { condition: written_register(compared), target: InstructionOffset(0) })
}

/// A call or `...`: an expression that can give any number of values.
pub open spec fn is_open(e: ResolvedExpr) -> bool {
    e is Call || e is MethodCall || e is Vararg
}

/// How many of `count` targets a list of `values` fills: a trailing call
/// or `...` fills every target left over; otherwise one per value.
pub open spec fn filled_targets(values: Seq<ResolvedExpr>, count: int) -> int {
    if values.len() > 0 && count > values.len() && is_open(values.last()) {
        count
    } else if values.len() < count {
        values.len() as int
    } else {
        count
    }
}

/// The code ends with one instruction per target register `base + i`,
/// `i < count`: a move of a value into it where the list gives one, else a
/// nil load.
pub open spec fn values_placed(code: Seq<IrInstruction>, base: Register, values: Seq<ResolvedExpr>, count: int) -> bool {
    let start = code.len() - count;
    &&& code.len() >= count
    &&& forall|i: int| 0 <= i < count ==> if i < filled_targets(values, count) {
        (#[trigger] code[start + i]).instruction matches Instruction::Move { dest, .. } && dest.0 == base.0 + i
    } else {
        code[start + i].instruction == (Instruction::LoadNil { start: Register((base.0 + i) as u16), count: 1 })
    }
}

/// Statements that always leave code behind: every statement but the empty
/// one, labels, `do` blocks, `global` declarations, and declarations or
/// assignments without names.
pub open spec fn emits_code(s: ResolvedStmt) -> bool {
    match s {
        ResolvedStmt::Local { bindings, .. } => bindings@.len() > 0,
        ResolvedStmt::Assignment { targets, .. } => targets@.len() > 0,
        ResolvedStmt::Return { .. } | ResolvedStmt::Call { .. } | ResolvedStmt::Break { .. } | ResolvedStmt::Goto { .. }
            | ResolvedStmt::If { .. } | ResolvedStmt::While { .. } | ResolvedStmt::Repeat { .. }
            | ResolvedStmt::NumericFor { .. } | ResolvedStmt::GenericFor { .. } | ResolvedStmt::Function { .. }
            | ResolvedStmt::LocalFunction { .. } => true,
        _ => false,
    }
}

/// One builder state follows another: the same function, limits and maps,
/// the invariant kept, and no instruction taken back.
pub closed spec fn kept(before: Builder, after: Builder) -> bool {
    &&& after.function == before.function
    &&& after.id == before.id
    &&& after.parent == before.parent
    &&& after.binding_registers == before.binding_registers
    &&& after.parameter_count == before.parameter_count
    &&& after.span == before.span
    &&& after.limits == before.limits
    &&& after.prototypes == before.prototypes
    &&& after.functions == before.functions
    &&& after.inv()
    &&& before.instructions@.len() <= after.instructions@.len()
    &&& forall|i: int| 0 <= i < before.instructions@.len()
        ==> untargeted((#[trigger] after.instructions@[i]).instruction) == untargeted(before.instructions@[i].instruction)
}

/// An instruction with its jump target, if it has one, cleared: what
/// patching a jump leaves as it was.
pub open spec fn untargeted(i: Instruction) -> Instruction {
    match i {
        Instruction::Jump { .. } => Instruction::Jump { target: InstructionOffset(0) },
        Instruction::JumpIfFalse { condition, .. } => Instruction::JumpIfFalse { condition, target: InstructionOffset(0) },
        _ => i,
    }
}

/// Every jump of a prototype lands on one of its own instructions.
pub open spec fn jumps_in_range(instructions: Seq<IrInstruction>) -> bool {
    forall|i: int| 0 <= i < instructions.len() ==> (jump_target(#[trigger] instructions[i].instruction) matches Some(t)
        ==> t.0 < instructions.len())
}

/// Every open result is followed, after nothing but `Close`, by a `Return`
/// that takes all results.
pub open spec fn open_results_consumed(instructions: Seq<IrInstruction>) -> bool {
    forall|i: int| 0 <= i < instructions.len() && is_open_result(#[trigger] instructions[i].instruction)
        ==> exists|j: int| #[trigger] consumed_at(instructions, i, j)
}

/// The open result at `i` reaches the open `Return` at `j` past `Close`
/// instructions only.
pub open spec fn consumed_at(instructions: Seq<IrInstruction>, i: int, j: int) -> bool {
    &&& i < j < instructions.len()
    &&& instructions[j].instruction matches Instruction::Return { result_mode: ResultMode::All, .. }
    &&& forall|k: int| i < k < j ==> (#[trigger] instructions[k].instruction) is Close
}

impl<'a> Builder<'a> {
    /// A builder for `function`, with its bindings in registers from R1 on
    /// (R0 is the frame's return base) and its environment source chosen.
    pub fn new(
        function: &'a ResolvedFunction,
        id: ProtoId,
        parent: Option<ProtoId>,
        span: Span,
        limits: &IrLimits,
        prototypes: &'a Vec<(FunctionId, ProtoId)>,
        functions: &'a Vec<ResolvedFunction>,
    ) -> (r: Result<Self, IrError>)
        ensures
            r matches Ok(b) ==> b.inv() && b.lowering_limits() == *limits && b.proto_id() == id && b.function_id() == function.id
                && b.lowers(*function, parent) && b.prototype_map() == prototypes@
                && b.code() == Seq::<IrInstruction>::empty() && !b.open_patches() && b.instruction_count() == 0,
            r matches Ok(b) ==> (function.id == FunctionId(0) && parent is None ==> b.lowers_root())
                && (function.upvalues@.len() <= 0x10000 ==> b.upvalues_fit()),
            function.upvalues@.len() > limits.max_upvalues_per_prototype ==> r is Err,
            function.bindings@.len() + 1 > limits.max_registers ==> r is Err,
    {
        if function.upvalues.len() > limits.max_upvalues_per_prototype {
            return Err(limit(function.span, "upvalue 數超過 IR 限制"));
        }
        let mut binding_registers: Vec<(BindingId, Register)> = Vec::new();
        let mut parameter_count: u16 = 0;
        let mut named_vararg: Option<(BindingId, Register)> = None;
        let mut index: usize = 0;
        while index < function.bindings.len()
            invariant
                index <= function.bindings@.len(),
                binding_registers@.len() == index,
                index < 0xffff,
                parameter_count <= index,
                parameter_count == parameter_total(function.bindings@.take(index as int)),
                forall|k: int| 0 <= k < index ==> binding_registers@[k] == (function.bindings@[k].id, Register((k + 1) as u16)),
            decreases function.bindings.len() - index,
        {
            assert(function.bindings@.take(index + 1).drop_last() =~= function.bindings@.take(index as int));
            let binding = &function.bindings[index];
            if index + 1 >= limits.max_registers as usize {
                return Err(limit(binding.span, "register 數超過 IR 限制"));
            }
            let register = Register((index + 1) as u16);
            binding_registers.push((binding.id, register));
            match binding.kind {
                BindingKind::Parameter => {
                    parameter_count = parameter_count + 1;
                },
                BindingKind::VarargTable => {
                    if named_vararg.is_none() {
                        named_vararg = Some((binding.id, register));
                    }
                },
                _ => {},
            }
            index = index + 1;
        }
        assert(function.bindings@.take(function.bindings@.len() as int) =~= function.bindings@);
        let global_environment_binding = match find_function(functions, FunctionId(0)) {
            Some(root) => {
                let mut found: Option<BindingId> = None;
                let mut k: usize = 0;
                while k < root.bindings.len()
                    invariant
                        k <= root.bindings@.len(),
                    decreases root.bindings.len() - k,
                {
                    if root.bindings[k].kind == BindingKind::Environment {
                        found = Some(root.bindings[k].id);
                        break;
                    }
                    k = k + 1;
                }
                match found {
                    Some(b) => b,
                    None => {
                        return Err(invalid(span, "P04 metadata 缺少 root _ENV binding"));
                    },
                }
            },
            None => {
                return Err(invalid(span, "P04 metadata 缺少 root _ENV binding"));
            },
        };
        let global_environment = if function.id == FunctionId(0) {
            let mut found: Option<Register> = None;
            let mut k: usize = 0;
            while k < binding_registers.len()
                invariant
                    k <= binding_registers@.len(),
                decreases binding_registers.len() - k,
            {
                if binding_registers[k].0 == global_environment_binding {
                    found = Some(binding_registers[k].1);
                    break;
                }
                k = k + 1;
            }
            match found {
                Some(r) => r,
                None => {
                    return Err(invalid(span, "root _ENV binding 未配置 register"));
                },
            }
        } else {
            Register((binding_registers.len() + 1) as u16)
        };
        let next_register: u16 = if function.id == FunctionId(0) {
            (binding_registers.len() + 1) as u16
        } else {
            match global_environment.0.checked_add(1) {
                Some(n) => n,
                None => {
                    return Err(limit(span, "register 數超過 IR 限制"));
                },
            }
        };
        if next_register > limits.max_registers {
            return Err(limit(span, "register 數超過 IR 限制"));
        }
        let environment_source = if function.id == FunctionId(0) {
            EnvironmentSource::RootExternal
        } else {
            let mut chosen: Option<EnvironmentSource> = None;
            let mut k: usize = 0;
            while k < function.upvalues.len()
                invariant
                    k <= function.upvalues@.len(),
                decreases function.upvalues.len() - k,
            {
                if upvalue_origin(functions, function, k, functions.len()) == Some(global_environment_binding) {
                    if k > 0xffffusize {
                        return Err(limit(span, "upvalue ID 超過 IR 限制"));
                    }
                    let upvalue = UpvalueId(k as u16);
                    chosen = Some(match function.upvalues[k] {
                        UpvalueSource::ParentLocal(_) => EnvironmentSource::ParentLocal { upvalue },
                        UpvalueSource::ParentUpvalue(_) => EnvironmentSource::ParentUpvalue { upvalue },
                    });
                    break;
                }
                k = k + 1;
            }
            match chosen {
                Some(source) => source,
                None => {
                    let parent_function = match function.parent {
                        Some(p) => match find_function(functions, p) {
                            Some(f) => f,
                            None => {
                                return Err(invalid(span, "P04 function 缺少 parent environment source"));
                            },
                        },
                        None => {
                            return Err(invalid(span, "P04 function 缺少 parent environment source"));
                        },
                    };
                    let parent_proto = proto_for(prototypes, parent_function.id, span)?;
                    let register = environment_slot(parent_function, global_environment_binding, span)?;
                    EnvironmentSource::ParentFrame { parent: parent_proto, register }
                },
            }
        };
        Ok(Builder {
            function,
            id,
            parent,
            span,
            limits: *limits,
            prototypes,
            functions,
            global_environment,
            global_environment_binding,
            environment_source,
            initial_top: Register(next_register),
            dynamic_top: Register(next_register),
            next_register,
            binding_registers,
            constants: Vec::new(),
            instructions: Vec::new(),
            close_paths: Vec::new(),
            label_frames: Vec::new(),
            pending_gotos: Vec::new(),
            loops: Vec::new(),
            parameter_count,
            is_variadic: named_vararg.is_some(),
            named_vararg,
        })
    }

    fn validate_environment_source(&self) -> (r: Result<(), IrError>)
        ensures
            self.lowers_root() ==> r is Ok,
    {
        match self.environment_source {
            EnvironmentSource::RootExternal => {
                if self.function.id != FunctionId(0) || self.parent.is_some() {
                    return Err(invalid(self.span, "只有 root prototype 可以使用外部 environment source"));
                }
            },
            EnvironmentSource::ParentFrame { parent, register } => {
                let parent_function = match self.function.parent {
                    Some(p) => match find_function(self.functions, p) {
                        Some(f) => f,
                        None => {
                            return Err(invalid(self.span, "environment source 缺少 parent function"));
                        },
                    },
                    None => {
                        return Err(invalid(self.span, "environment source 缺少 parent function"));
                    },
                };
                let expected_parent = proto_for(self.prototypes, parent_function.id, self.span)?;
                let expected_register = environment_slot(parent_function, self.global_environment_binding, self.span)?;
                if parent != expected_parent || register != expected_register {
                    return Err(invalid(self.span, "ParentFrame environment source 與 P04 parent metadata 不符"));
                }
            },
            EnvironmentSource::ParentLocal { upvalue } => {
                let index = upvalue.0 as usize;
                if index >= self.function.upvalues.len() {
                    return Err(invalid(self.span, "environment source 的 upvalue 不存在"));
                }
                let kind_matches = match self.function.upvalues[index] {
                    UpvalueSource::ParentLocal(_) => true,
                    _ => false,
                };
                if !kind_matches || upvalue_origin(self.functions, self.function, index, self.functions.len()) != Some(self.global_environment_binding) {
                    return Err(invalid(self.span, "environment source 與 P04 upvalue metadata 不符"));
                }
            },
            EnvironmentSource::ParentUpvalue { upvalue } => {
                let index = upvalue.0 as usize;
                if index >= self.function.upvalues.len() {
                    return Err(invalid(self.span, "environment source 的 upvalue 不存在"));
                }
                let kind_matches = match self.function.upvalues[index] {
                    UpvalueSource::ParentUpvalue(_) => true,
                    _ => false,
                };
                if !kind_matches || upvalue_origin(self.functions, self.function, index, self.functions.len()) != Some(self.global_environment_binding) {
                    return Err(invalid(self.span, "environment source 與 P04 upvalue metadata 不符"));
                }
            },
        }
        Ok(())
    }

    /// Every open result flows, past `Close` only, into an open `Return`.
    fn validate_open_results(&self) -> (r: Result<(), IrError>)
        ensures
            r is Ok <==> open_results_consumed(self.instructions@),
    {
        let n = self.instructions.len();
        let mut index: usize = 0;
        while index < n
            invariant
                n == self.instructions@.len(),
                index <= n,
                forall|i: int| 0 <= i < index && is_open_result(#[trigger] self.instructions@[i].instruction)
                    ==> exists|j: int| #[trigger] consumed_at(self.instructions@, i, j),
            decreases n - index,
        {
            let open = match self.instructions[index].instruction {
                Instruction::Call { result_mode: ResultMode::All, .. } => true,
                Instruction::Vararg { result_mode: ResultMode::All, .. } => true,
                _ => false,
            };
            if open {
                let mut next = index + 1;
                while next < n && is_close(&self.instructions[next].instruction)
                    invariant
                        n == self.instructions@.len(),
                        index < next <= n,
                        forall|k: int| index < k < next ==> (#[trigger] self.instructions@[k].instruction) is Close,
                    decreases n - next,
                {
                    next = next + 1;
                }
                let consumed = next < n && (match self.instructions[next].instruction {
                    Instruction::Return { result_mode: ResultMode::All, .. } => true,
                    _ => false,
                });
                proof {
                    if !consumed {
                        assert(is_open_result(self.instructions@[index as int].instruction));
                        assert forall|j: int| !consumed_at(self.instructions@, index as int, j) by {
                            if consumed_at(self.instructions@, index as int, j) {
                                if next < j {
                                    assert(self.instructions@[next as int].instruction is Close);
                                }
                            }
                        }
                    }
                }
                if !consumed {
                    return Err(invalid(self.instructions[index].span, "ResultMode::All 未立即流向 open return consumer"));
                }
                assert(consumed_at(self.instructions@, index as int, next as int));
            }
            index = index + 1;
        }
        Ok(())
    }

    /// The finished prototype: no control-flow patch left open, the
    /// environment source consistent with the metadata, open results
    /// consumed, every jump inside the prototype, and the frame within the
    /// register limit.
    pub fn finish(self) -> (r: Result<IrPrototype, IrError>)
        requires
            self.inv(),
        ensures
            r matches Ok(p) ==> {
                &&& p.id == self.proto_id()
                &&& p.function == self.function_id()
                &&& p.instructions@.len() <= self.lowering_limits().max_instructions
                &&& 1 <= p.register_count <= self.lowering_limits().max_registers
                &&& jumps_in_range(p.instructions@)
                &&& open_results_consumed(p.instructions@)
                &&& forall|f: ResolvedFunction, q: Option<ProtoId>| self.lowers(f, q) ==> p.parent == q && carries_metadata(p, f)
                &&& p.instructions@ == self.code()
                &&& p.frame.return_base == Register(0)
                &&& p.frame.registers_start_as_nil
                &&& p.frame.environment == p.global_environment
                &&& p.frame.register_limit == self.lowering_limits().max_registers
            },
            self.open_patches() ==> r is Err,
            !self.open_patches() && open_results_consumed(self.code()) && jumps_in_range(self.code()) && self.lowers_root()
                && self.upvalues_fit() && self.lowering_limits().max_registers >= 1 ==> r is Ok,
            !open_results_consumed(self.code()) ==> r is Err,
            !jumps_in_range(self.code()) ==> r is Err,
    {
        if self.label_frames.len() != 0 || self.pending_gotos.len() != 0 || self.loops.len() != 0 {
            return Err(invalid(self.span, "CFG lowering 有未完成的 control-flow patch"));
        }
        self.validate_environment_source()?;
        self.validate_open_results()?;
        let instruction_len = self.instructions.len();
        let mut i: usize = 0;
        while i < instruction_len
            invariant
                instruction_len == self.instructions@.len(),
                i <= instruction_len,
                forall|k: int| 0 <= k < i ==> (jump_target(#[trigger] self.instructions@[k].instruction) matches Some(t) ==> t.0 < instruction_len),
            decreases instruction_len - i,
        {
            let target = match self.instructions[i].instruction {
                Instruction::Jump { target } => Some(target),
                Instruction::JumpIfFalse { target, .. } => Some(target),
                _ => None,
            };
            if let Some(t) = target {
                if t.0 as usize >= instruction_len {
                    return Err(invalid(self.instructions[i].span, "CFG jump target 不在同一 prototype 指令範圍"));
                }
            }
            i = i + 1;
        }
        let register_count = if self.next_register >= 1 { self.next_register } else { 1 };
        if register_count > self.limits.max_registers {
            return Err(limit(self.span, "register 數超過 IR 限制"));
        }
        let mut upvalues: Vec<IrUpvalue> = Vec::new();
        let mut k: usize = 0;
        while k < self.function.upvalues.len()
            invariant
                k <= self.function.upvalues@.len(),
                upvalues@.len() == k,
                forall|j: int| 0 <= j < k ==> (#[trigger] upvalues@[j]).source == self.function.upvalues@[j] && upvalues@[j].id == UpvalueId(j as u16),
            decreases self.function.upvalues.len() - k,
        {
            if k > 0xffffusize {
                return Err(limit(self.span, "upvalue ID 超過 IR 限制"));
            }
            upvalues.push(IrUpvalue { id: UpvalueId(k as u16), source: self.function.upvalues[k] });
            k = k + 1;
        }
        let ghost before = self;
        let prototype = IrPrototype {
            id: self.id,
            function: self.function.id,
            parent: self.parent,
            span: self.span,
            register_count,
            parameter_count: self.parameter_count,
            is_variadic: self.is_variadic,
            named_vararg: self.named_vararg,
            frame: FrameLayout {
                register_limit: self.limits.max_registers,
                initial_top: self.initial_top,
                dynamic_top: self.dynamic_top,
                return_base: Register(0),
                environment: self.global_environment,
                environment_source: self.environment_source,
                registers_start_as_nil: true,
            },
            global_environment: self.global_environment,
            global_environment_binding: self.global_environment_binding,
            binding_registers: self.binding_registers,
            constants: self.constants,
            upvalues,
            instructions: self.instructions,
            close_paths: self.close_paths,
        };
        proof {
            assert forall|f: ResolvedFunction, q: Option<ProtoId>| before.lowers(f, q) implies prototype.parent == q && carries_metadata(prototype, f) by {
                assert(*before.function == f);
            }
        }
        Ok(prototype)
    }

    fn allocate(&mut self, span: Span) -> (r: Result<Register, IrError>)
        requires
            old(self).inv(),
        ensures
            kept(*old(self), *final(self)),
            code_extends(old(self).code(), final(self).code()),
            final(self).instructions@ == old(self).instructions@,
    {
        if self.next_register >= self.limits.max_registers {
            return Err(limit(span, "register 數超過 IR 限制"));
        }
        let register = Register(self.next_register);
        self.next_register = self.next_register + 1;
        Ok(register)
    }

    fn constant(&mut self, constant: IrConstant, span: Span) -> (r: Result<ConstId, IrError>)
        requires
            old(self).inv(),
        ensures
            kept(*old(self), *final(self)),
            code_extends(old(self).code(), final(self).code()),
            final(self).instructions@ == old(self).instructions@,
    {
        if self.constants.len() > 0xffff_ffffusize {
            return Err(limit(span, "constant ID 超過 IR 限制"));
        }
        let id = ConstId(self.constants.len() as u32);
        self.constants.push(constant);
        Ok(id)
    }

    /// Appends one instruction, within the instruction limit.
    pub fn emit(&mut self, instruction: Instruction, span: Span, close_path: Option<IrClosePath>) -> (r: Result<(), IrError>)
        requires
            old(self).inv(),
        ensures
            kept(*old(self), *final(self)),
            code_extends(old(self).code(), final(self).code()),
            r is Ok <==> old(self).instruction_count() < old(self).lowering_limits().max_instructions,
            r is Ok ==> final(self).code() == old(self).code().push(IrInstruction { instruction, span, close_path }),
            r is Err ==> final(self).code() == old(self).code(),
            r is Ok ==> final(self).instruction_count() == old(self).instruction_count() + 1,
            final(self).inv(),
            final(self).lowering_limits() == old(self).lowering_limits(),
            final(self).instruction_count() == final(self).code().len(),
            !old(self).open_patches() ==> !final(self).open_patches(),
    {
        if self.instructions.len() >= self.limits.max_instructions {
            return Err(limit(span, "instruction 數超過 IR 限制"));
        }
        self.instructions.push(IrInstruction { instruction, span, close_path });
        Ok(())
    }

    fn current_offset(&self, span: Span) -> (r: Result<InstructionOffset, IrError>)
        ensures
            r matches Ok(o) ==> o.0 == self.code().len(),
    {
        if self.instructions.len() > 0xffff_ffffusize {
            return Err(limit(span, "instruction offset 超過 IR 限制"));
        }
        Ok(InstructionOffset(self.instructions.len() as u32))
    }

    fn emit_jump_placeholder(&mut self, span: Span) -> (r: Result<usize, IrError>)
        requires
            old(self).inv(),
        ensures
            kept(*old(self), *final(self)),
            code_extends(old(self).code(), final(self).code()),
            r matches Ok(index) ==> index == old(self).code().len() && final(self).code().len() == index + 1
                && final(self).code().last().instruction is Jump,
    {
        let index = self.instructions.len();
        self.emit(Instruction::Jump { target: InstructionOffset(0xffff_ffffu32) }, span, None)?;
        Ok(index)
    }

    fn emit_jump_if_false_placeholder(&mut self, condition: Register, span: Span) -> (r: Result<usize, IrError>)
        requires
            old(self).inv(),
        ensures
            kept(*old(self), *final(self)),
            r matches Ok(index) ==> index == old(self).code().len() && final(self).code().len() == index + 1
                && final(self).code().last().instruction == (Instruction::JumpIfFalse { condition, target: InstructionOffset(0xffff_ffffu32) }),
            code_extends(old(self).code(), final(self).code()),
    {
        let index = self.instructions.len();
        self.emit(Instruction::JumpIfFalse { condition, target: InstructionOffset(0xffff_ffffu32) }, span, None)?;
        Ok(index)
    }

    /// Points the jump at `index` to `target`.
    fn patch_jump(&mut self, index: usize, target: InstructionOffset) -> (r: Result<(), IrError>)
        requires
            old(self).inv(),
        ensures
            kept(*old(self), *final(self)),
            final(self).instructions@.len() == old(self).instructions@.len(),
            forall|i: int| 0 <= i < old(self).code().len() && i != index ==> #[trigger] final(self).code()[i] == old(self).code()[i],
            r is Ok ==> index < old(self).code().len()
                && (old(self).code()[index as int].instruction matches Instruction::JumpIfFalse { condition, .. }
                    ==> final(self).code()[index as int].instruction == (Instruction::JumpIfFalse { condition, target }))
                && (old(self).code()[index as int].instruction is Jump
                    ==> final(self).code()[index as int].instruction == (Instruction::Jump { target })),
    {
        if index >= self.instructions.len() {
            return Err(invalid(self.span, "CFG patch 指向不存在的 instruction"));
        }
        let patched = match self.instructions[index].instruction {
            Instruction::Jump { .. } => Instruction::Jump { target },
            Instruction::JumpIfFalse { condition, .. } => Instruction::JumpIfFalse { condition, target },
            _ => {
                return Err(invalid(self.instructions[index].span, "CFG patch 指向非 jump instruction"));
            },
        };
        let span = self.instructions[index].span;
        let close_path = self.instructions[index].close_path.clone();
        self.instructions.set(index, IrInstruction { instruction: patched, span, close_path });
        Ok(())
    }

    /// The fixed opcode set has no no-op or label instruction: a write of a
    /// register nothing reads marks a join or a label.
    fn emit_cfg_anchor(&mut self, span: Span) -> (r: Result<InstructionOffset, IrError>)
        requires
            old(self).inv(),
        ensures
            kept(*old(self), *final(self)),
            code_extends(old(self).code(), final(self).code()),
            r matches Ok(offset) ==> final(self).code().len() == old(self).code().len() + 1 && offset.0 == old(self).code().len()
                && final(self).code().last().instruction is LoadNil,
    {
        let offset = self.current_offset(span)?;
        let dest = self.allocate(span)?;
        self.emit(Instruction::LoadNil { start: dest, count: 1 }, span, None)?;
        Ok(offset)
    }

    fn enter_label_frame(&mut self, block: &ResolvedBlock) -> (r: Result<(), IrError>)
        requires
            old(self).inv(),
        ensures
            kept(*old(self), *final(self)),
            final(self).instructions@ == old(self).instructions@,
    {
        let mut labels: Vec<LabelEntry> = Vec::new();
        let mut i: usize = 0;
        while i < block.statements.len()
            invariant
                i <= block.statements@.len(),
                *self == *old(self),
                old(self).inv(),
            decreases block.statements.len() - i,
        {
            if let ResolvedStmt::Label { name, span, .. } = &block.statements[i] {
                let mut j: usize = 0;
                while j < labels.len()
                    invariant
                        j <= labels@.len(),
                        *self == *old(self),
                        old(self).inv(),
                    decreases labels.len() - j,
                {
                    if bytes_equal(&labels[j].name, name.as_slice()) {
                        return Err(invalid(*span, "P04 block 有重複 label"));
                    }
                    j = j + 1;
                }
                labels.push(LabelEntry { name: name.clone(), offset: None });
            }
            i = i + 1;
        }
        self.label_frames.push(LabelFrame { scope: block.scope, labels });
        Ok(())
    }

    fn leave_label_frame(&mut self, block: &ResolvedBlock) -> (r: Result<(), IrError>)
        requires
            old(self).inv(),
        ensures
            kept(*old(self), *final(self)),
            final(self).instructions@ == old(self).instructions@,
    {
        let mut i: usize = 0;
        while i < self.pending_gotos.len()
            invariant
                i <= self.pending_gotos@.len(),
                *self == *old(self),
                old(self).inv(),
            decreases self.pending_gotos.len() - i,
        {
            if self.pending_gotos[i].scope == block.scope {
                return Err(invalid(self.pending_gotos[i].span, "P04 goto 缺少可 lower 的 label"));
            }
            i = i + 1;
        }
        let frame = match self.label_frames.pop() {
            Some(f) => f,
            None => {
                return Err(invalid(block.span, "CFG label scope stack 不一致"));
            },
        };
        if frame.scope != block.scope {
            return Err(invalid(block.span, "CFG label scope stack 不一致"));
        }
        Ok(())
    }

    fn define_label(&mut self, name: &Vec<u8>, span: Span) -> (r: Result<(), IrError>)
        requires
            old(self).inv(),
        ensures
            kept(*old(self), *final(self)),
    {
        let offset = self.emit_cfg_anchor(span)?;
        let mut frame = match self.label_frames.pop() {
            Some(f) => f,
            None => {
                return Err(invalid(span, "label 不在 block scope"));
            },
        };
        let mut found: Option<usize> = None;
        let mut j: usize = 0;
        while j < frame.labels.len()
            invariant
                j <= frame.labels@.len(),
                found matches Some(f) ==> f < frame.labels@.len(),
            decreases frame.labels.len() - j,
        {
            if bytes_equal(&frame.labels[j].name, name.as_slice()) {
                found = Some(j);
                break;
            }
            j = j + 1;
        }
        let position = match found {
            Some(p) => p,
            None => {
                self.label_frames.push(frame);
                return Err(invalid(span, "P04 label 不在目前 scope"));
            },
        };
        if frame.labels[position].offset.is_some() {
            self.label_frames.push(frame);
            return Err(invalid(span, "P04 label 重複定義"));
        }
        let label_name = frame.labels[position].name.clone();
        frame.labels.set(position, LabelEntry { name: label_name, offset: Some(offset) });
        let scope = frame.scope;
        self.label_frames.push(frame);
        let mut pending: Vec<PendingGoto> = Vec::new();
        std::mem::swap(&mut pending, &mut self.pending_gotos);
        let mut k: usize = 0;
        while k < pending.len()
            invariant
                kept(*old(self), *self),
                k <= pending@.len(),
            decreases pending.len() - k,
        {
            let matches = pending[k].scope == scope && bytes_equal(&pending[k].name, name.as_slice());
            if matches {
                self.patch_jump(pending[k].instruction, offset)?;
            } else {
                self.pending_gotos.push(PendingGoto {
                    instruction: pending[k].instruction,
                    scope: pending[k].scope,
                    name: pending[k].name.clone(),
                    span: pending[k].span,
                });
            }
            k = k + 1;
        }
        Ok(())
    }

    /// Emits one `Close` per binding of a close path, innermost first, each
    /// carrying the whole path.
    fn emit_close(&mut self, path: &ClosePath) -> (r: Result<(), IrError>)
        requires
            old(self).inv(),
        ensures
            kept(*old(self), *final(self)),
    {
        if path.bindings.len() == 0 {
            return Ok(());
        }
        let mut registers: Vec<Register> = Vec::new();
        let mut i: usize = 0;
        while i < path.bindings.len()
            invariant
                i <= path.bindings@.len(),
                *self == *old(self),
                old(self).inv(),
            decreases path.bindings.len() - i,
        {
            let register = self.binding_register(path.bindings[i], path.span)?;
            registers.push(register);
            i = i + 1;
        }
        let ir_path = IrClosePath {
            kind: path.kind,
            span: path.span,
            from_scope: path.from_scope,
            target_scope: path.target_scope,
            bindings: path.bindings.clone(),
            registers: registers.clone(),
        };
        self.close_paths.push(ir_path.clone());
        let mut i: usize = 0;
        while i < registers.len()
            invariant
                kept(*old(self), *self),
                i <= registers@.len(),
            decreases registers.len() - i,
        {
            self.emit(Instruction::Close { base: registers[i], count: 1 }, path.span, Some(ir_path.clone()))?;
            i = i + 1;
        }
        Ok(())
    }

    fn lower_goto(&mut self, name: &Vec<u8>, close_path: &ClosePath, span: Span) -> (r: Result<(), IrError>)
        requires
            old(self).inv(),
        ensures
            kept(*old(self), *final(self)),
            r is Ok ==> final(self).code().len() > old(self).code().len(),
    {
        let target_scope = match close_path.target_scope {
            Some(t) => t,
            None => {
                return Err(invalid(span, "P04 goto 缺少目標 scope"));
            },
        };
        let mut known: Option<Option<InstructionOffset>> = None;
        let mut f: usize = self.label_frames.len();
        while f > 0
            invariant
                f <= self.label_frames@.len(),
            decreases f,
        {
            f = f - 1;
            if self.label_frames[f].scope == target_scope {
                let frame = &self.label_frames[f];
                let mut j: usize = 0;
                while j < frame.labels.len()
                    invariant
                        j <= frame.labels@.len(),
                    decreases frame.labels.len() - j,
                {
                    if bytes_equal(&frame.labels[j].name, name.as_slice()) {
                        known = Some(frame.labels[j].offset);
                        break;
                    }
                    j = j + 1;
                }
                break;
            }
        }
        let known = match known {
            Some(k) => k,
            None => {
                return Err(invalid(span, "P04 goto 目標 label 不在 lexical scope"));
            },
        };
        self.emit_close(close_path)?;
        let jump = self.emit_jump_placeholder(span)?;
        match known {
            Some(offset) => {
                self.patch_jump(jump, offset)?;
            },
            None => {
                self.pending_gotos.push(PendingGoto { instruction: jump, scope: target_scope, name: name.clone(), span });
            },
        }
        Ok(())
    }

    fn push_loop(&mut self)
        requires
            old(self).inv(),
        ensures
            kept(*old(self), *final(self)),
            final(self).instructions@ == old(self).instructions@,
    {
        self.loops.push(LoopFrame { break_patches: Vec::new() });
    }

    fn lower_break(&mut self, close_path: &ClosePath, span: Span) -> (r: Result<(), IrError>)
        requires
            old(self).inv(),
        ensures
            kept(*old(self), *final(self)),
            r is Ok ==> final(self).code().len() >= 1 && final(self).code().last().instruction is Jump,
            r is Ok ==> final(self).code().len() > old(self).code().len(),
    {
        if self.loops.len() == 0 {
            return Err(invalid(span, "P04 break 不在 loop 中"));
        }
        self.emit_close(close_path)?;
        let jump = self.emit_jump_placeholder(span)?;
        match self.loops.pop() {
            Some(mut frame) => {
                frame.break_patches.push(jump);
                self.loops.push(frame);
            },
            None => {},
        }
        Ok(())
    }

    fn finish_loop(&mut self, exit: InstructionOffset, span: Span) -> (r: Result<(), IrError>)
        requires
            old(self).inv(),
        ensures
            kept(*old(self), *final(self)),
            final(self).code().len() == old(self).code().len(),
    {
        let frame = match self.loops.pop() {
            Some(f) => f,
            None => {
                return Err(invalid(span, "CFG loop stack 不一致"));
            },
        };
        let mut i: usize = 0;
        while i < frame.break_patches.len()
            invariant
                kept(*old(self), *self),
                i <= frame.break_patches@.len(),
                self.code().len() == old(self).code().len(),
            decreases frame.break_patches.len() - i,
        {
            self.patch_jump(frame.break_patches[i], exit)?;
            i = i + 1;
        }
        Ok(())
    }

    fn binding_register(&self, binding: BindingId, span: Span) -> (r: Result<Register, IrError>)
        ensures
            r matches Ok(reg) ==> holds_binding(self.registers(), binding, reg),
    {
        let mut i: usize = 0;
        while i < self.binding_registers.len()
            invariant
                i <= self.binding_registers@.len(),
                forall|k: int| 0 <= k < i ==> self.binding_registers@[k].0 != binding,
            decreases self.binding_registers.len() - i,
        {
            if self.binding_registers[i].0 == binding {
                return Ok(self.binding_registers[i].1);
            }
            i = i + 1;
        }
        Err(invalid(span, "P04 binding 不屬於目前 prototype"))
    }

    fn nil_register(&mut self, span: Span) -> (r: Result<Register, IrError>)
        requires
            old(self).inv(),
        ensures
            kept(*old(self), *final(self)),
            code_extends(old(self).code(), final(self).code()),
            r matches Ok(reg) ==> final(self).code().len() == old(self).code().len() + 1 && final(self).code().last().instruction == (Instruction::LoadNil { start: reg, count: 1 }),
    {
        let register = self.allocate(span)?;
        self.emit(Instruction::LoadNil { start: register, count: 1 }, span, None)?;
        Ok(register)
    }

    fn mark_dynamic_top(&mut self, base: Register)
        requires
            old(self).inv(),
        ensures
            kept(*old(self), *final(self)),
            code_extends(old(self).code(), final(self).code()),
            final(self).instructions@ == old(self).instructions@,
    {
        self.dynamic_top = base;
    }

    /// `count` fresh consecutive registers.
    fn reserve_registers(&mut self, count: usize, span: Span) -> (r: Result<Register, IrError>)
        requires
            old(self).inv(),
        ensures
            kept(*old(self), *final(self)),
            code_extends(old(self).code(), final(self).code()),
            final(self).instructions@ == old(self).instructions@,
    {
        let base = Register(self.next_register);
        let mut i: usize = 0;
        while i < count
            invariant
                kept(*old(self), *self),
                self.instructions@ == old(self).instructions@,
                i <= count,
            decreases count - i,
        {
            self.allocate(span)?;
            i = i + 1;
        }
        Ok(base)
    }

    fn constant_register(&mut self, constant: IrConstant, span: Span) -> (r: Result<Register, IrError>)
        requires
            old(self).inv(),
        ensures
            kept(*old(self), *final(self)),
            code_extends(old(self).code(), final(self).code()),
    {
        let dest = self.allocate(span)?;
        let constant = self.constant(constant, span)?;
        self.emit(Instruction::LoadConst { dest, constant }, span, None)?;
        Ok(dest)
    }

    fn name_constant(&mut self, name: &Vec<u8>, span: Span) -> (r: Result<Register, IrError>)
        requires
            old(self).inv(),
        ensures
            kept(*old(self), *final(self)),
            code_extends(old(self).code(), final(self).code()),
    {
        self.constant_register(IrConstant::Name(name.clone()), span)
    }

    fn global_table_register(&self, _span: Span) -> (r: Result<Register, IrError>) {
        Ok(self.global_environment)
    }

    fn lower_function(&mut self, body: &ResolvedFunctionBody) -> (r: Result<Register, IrError>)
        requires
            old(self).inv(),
        ensures
            kept(*old(self), *final(self)),
            code_extends(old(self).code(), final(self).code()),
            r matches Ok(reg) ==> final(self).code().len() >= 1 && (final(self).code().last().instruction matches Instruction::Closure { dest, .. } && dest == reg),
    {
        let dest = self.allocate(body.span)?;
        let proto = proto_for(self.prototypes, body.function, body.span)?;
        self.emit(Instruction::Closure { dest, proto }, body.span, None)?;
        Ok(dest)
    }

    fn load_upvalue(&mut self, upvalue: u32, span: Span) -> (r: Result<Register, IrError>)
        requires
            old(self).inv(),
        ensures
            kept(*old(self), *final(self)),
            code_extends(old(self).code(), final(self).code()),
            r matches Ok(reg) ==> final(self).code().len() >= 1
                && final(self).code().last().instruction == (Instruction::GetUpvalue { dest: reg, upvalue: UpvalueId(upvalue as u16) }),
    {
        let dest = self.allocate(span)?;
        if upvalue > 0xffffu32 {
            return Err(limit(span, "upvalue ID 超過 IR 限制"));
        }
        self.emit(Instruction::GetUpvalue { dest, upvalue: UpvalueId(upvalue as u16) }, span, None)?;
        Ok(dest)
    }

    /// The register holding `binding`, loading it through an upvalue when it
    /// belongs to an enclosing function.
    fn binding_value(&mut self, binding: BindingId, span: Span) -> (r: Result<Register, IrError>)
        requires
            old(self).inv(),
        ensures
            kept(*old(self), *final(self)),
            code_extends(old(self).code(), final(self).code()),
    {
        if binding.function == self.function.id {
            return self.binding_register(binding, span);
        }
        let mut found: Option<usize> = None;
        let mut i: usize = 0;
        while i < self.function.upvalues.len()
            invariant
                i <= self.function.upvalues@.len(),
            decreases self.function.upvalues.len() - i,
        {
            if upvalue_origin(self.functions, self.function, i, self.functions.len()) == Some(binding) {
                found = Some(i);
                break;
            }
            i = i + 1;
        }
        let index = match found {
            Some(i) => i,
            None => {
                return Err(invalid(span, "P04 binding 未以目前 function upvalue 提供"));
            },
        };
        if index > 0xffff_ffffusize {
            return Err(limit(span, "upvalue ID 超過 IR 限制"));
        }
        self.load_upvalue(index as u32, span)
    }

    fn lower_name(&mut self, name: &Vec<u8>, resolution: &ResolvedName, span: Span) -> (r: Result<Register, IrError>)
        requires
            old(self).inv(),
        ensures
            kept(*old(self), *final(self)),
            code_extends(old(self).code(), final(self).code()),
            resolution matches ResolvedName::Local(b) ==> (r matches Ok(reg) ==> holds_binding(final(self).registers(), *b, reg)),
            resolution matches ResolvedName::Upvalue(u) ==> (r matches Ok(reg) ==> final(self).code().len() >= 1
                && final(self).code().last().instruction == (Instruction::GetUpvalue { dest: reg, upvalue: UpvalueId(u.0 as u16) })),
            (resolution is Global || resolution is EnvField) ==> (r matches Ok(reg) ==> final(self).code().len() >= 1
                && (final(self).code().last().instruction matches Instruction::GetTable { dest, .. } && dest == reg)),
    {
        match resolution {
            ResolvedName::Local(binding) => self.binding_register(*binding, span),
            ResolvedName::Upvalue(upvalue) => self.load_upvalue(upvalue.0, span),
            ResolvedName::EnvField { env, .. } => {
                let key = self.name_constant(name, span)?;
                let table = self.binding_value(*env, span)?;
                let dest = self.allocate(span)?;
                self.emit(Instruction::GetTable { dest, table, key }, span, None)?;
                Ok(dest)
            },
            ResolvedName::Global(_) => {
                let key = self.name_constant(name, span)?;
                let table = self.global_table_register(span)?;
                let dest = self.allocate(span)?;
                self.emit(Instruction::GetTable { dest, table, key }, span, None)?;
                Ok(dest)
            },
        }
    }

    fn is_open_expression(&self, expression: &ResolvedExpr) -> (r: bool)
        ensures
            r == is_open(*expression),
    {
        match expression {
            ResolvedExpr::Call { .. } => true,
            ResolvedExpr::MethodCall { .. } => true,
            ResolvedExpr::Vararg { .. } => true,
            _ => false,
        }
    }

    fn open_slots(&self, expression: &ResolvedExpr, span: Span) -> (r: Result<usize, IrError>) {
        match expression {
            ResolvedExpr::Call { arguments, .. } => Ok(arguments.len().saturating_add(1)),
            ResolvedExpr::MethodCall { arguments, .. } => Ok(arguments.len().saturating_add(2)),
            ResolvedExpr::Vararg { .. } => Ok(1),
            _ => Err(invalid(span, "只有 Call 或 Vararg 可使用 ResultMode::All")),
        }
    }

    /// Moves a callee and its arguments into consecutive registers from
    /// `base`.
    fn move_call_inputs_at(&mut self, base: Register, callee: Register, arguments: &Vec<Register>, span: Span) -> (r: Result<u16, IrError>)
        requires
            old(self).inv(),
        ensures
            kept(*old(self), *final(self)),
            code_extends(old(self).code(), final(self).code()),
            r matches Ok(n) ==> n == arguments@.len() && final(self).code().len() == old(self).code().len() + 1 + n
                && final(self).code()[old(self).code().len() as int].instruction == (Instruction::Move { dest: base, src: callee })
                && forall|i: int| 0 <= i < n ==> (#[trigger] final(self).code()[old(self).code().len() + 1 + i]).instruction
                    == (Instruction::Move { dest: Register((base.0 + 1 + i) as u16), src: arguments@[i] }),
    {
        if arguments.len() > 0xffffusize {
            return Err(limit(span, "call arg 數超過 IR 限制"));
        }
        let arg_count = arguments.len() as u16;
        self.emit(Instruction::Move { dest: base, src: callee }, span, None)?;
        let mut i: usize = 0;
        while i < arguments.len()
            invariant
                kept(*old(self), *self),
                code_extends(old(self).code(), self.code()),
                i <= arguments@.len(),
                self.code().len() == old(self).code().len() + 1 + i,
                self.code()[old(self).code().len() as int].instruction == (Instruction::Move { dest: base, src: callee }),
                forall|j: int| 0 <= j < i ==> (#[trigger] self.code()[old(self).code().len() + 1 + j]).instruction
                    == (Instruction::Move { dest: Register((base.0 + 1 + j) as u16), src: arguments@[j] }),
            decreases arguments.len() - i,
        {
            let dest = register_offset(base, i + 1, span)?;
            self.emit(Instruction::Move { dest, src: arguments[i] }, span, None)?;
            i = i + 1;
        }
        Ok(arg_count)
    }

    /// Fresh consecutive registers holding a callee and its arguments.
    fn prepare_call_registers(&mut self, callee: Register, arguments: &Vec<Register>, span: Span) -> (r: Result<(Register, u16), IrError>)
        requires
            old(self).inv(),
        ensures
            kept(*old(self), *final(self)),
            code_extends(old(self).code(), final(self).code()),
            r matches Ok(p) ==> p.1 == arguments@.len(),
    {
        if arguments.len() > 0xffffusize {
            return Err(limit(span, "call arg 數超過 IR 限制"));
        }
        let base = self.reserve_registers(arguments.len().saturating_add(1), span)?;
        let arg_count = self.move_call_inputs_at(base, callee, arguments, span)?;
        Ok((base, arg_count))
    }
}

/// The bytes of a source offset in little-endian order, one per byte of a
/// machine word: the key of a positional table field.
fn offset_key(value: usize) -> (r: Vec<u8>) {
    let mut out: Vec<u8> = Vec::new();
    let mut i: u32 = 0;
    while i < usize::BITS / 8
        invariant
            i <= usize::BITS / 8,
        decreases usize::BITS / 8 - i,
    {
        let byte = ((value >> (8 * i)) & 0xff) as u8;
        out.push(byte);
        i = i + 1;
    }
    out
}

impl<'a> Builder<'a> {
    fn lower_block(&mut self, block: &ResolvedBlock) -> (r: Result<(), IrError>)
        requires
            old(self).inv(),
        ensures
            kept(*old(self), *final(self)),
        decreases block, 2int,
    {
        self.lower_block_statements(block)?;
        self.emit_close(&block.normal_close_path)
    }

    fn lower_block_statements(&mut self, block: &ResolvedBlock) -> (r: Result<(), IrError>)
        requires
            old(self).inv(),
        ensures
            kept(*old(self), *final(self)),
        decreases block, 1int,
    {
        self.enter_label_frame(block)?;
        let mut i: usize = 0;
        while i < block.statements.len()
            invariant
                kept(*old(self), *self),
                i <= block.statements@.len(),
            decreases block.statements.len() - i,
        {
            self.lower_statement(&block.statements[i])?;
            i = i + 1;
        }
        self.leave_label_frame(block)
    }

    #[verifier::loop_isolation(false)]
    fn lower_statement(&mut self, statement: &ResolvedStmt) -> (r: Result<(), IrError>)
        requires
            old(self).inv(),
        ensures
            kept(*old(self), *final(self)),
            statement is Return && r is Ok ==> ends_with_return(final(self).code()),
            r is Ok ==> (statement matches ResolvedStmt::Call { span, .. } ==> final(self).code().last().span == span
                && final(self).code().last().instruction matches Instruction::Call { result_mode: ResultMode::Fixed(0), .. }),
            statement is Break && r is Ok ==> final(self).code().len() >= 1 && final(self).code().last().instruction is Jump,
            emits_code(*statement) && r is Ok ==> final(self).code().len() > old(self).code().len(),
            r is Ok ==> (statement matches ResolvedStmt::Local { bindings, .. } ==> locals_moved(final(self).code(), final(self).registers(), bindings@)),
        decreases statement, 2int,
    {
        match statement {
            ResolvedStmt::Label { name, span, .. } => self.define_label(name, *span),
            ResolvedStmt::Return { values, close_path, span } => self.lower_return(values, close_path, *span),
            ResolvedStmt::Local { bindings, values, span, .. } => {
                let base = self.lower_fixed_values(values, bindings.len(), *span)?;
                let ghost c0 = self.code();
                let mut i: usize = 0;
                while i < bindings.len()
                    invariant
                kept(*old(self), *self),
                        i <= bindings@.len(),
                        i > 0 ==> self.code().len() > old(self).code().len(),
                        self.code().len() == c0.len() + i,
                        forall|j: int| 0 <= j < i ==> ((#[trigger] self.code()[c0.len() + j]).instruction matches Instruction::Move { dest, src }
                            && holds_binding(self.registers(), bindings@[j], dest) && src.0 == base.0 + j),
                    decreases bindings.len() - i,
                {
                    let dest = self.binding_register(bindings[i], *span)?;
                    let src = register_offset(base, i, *span)?;
                    self.emit(Instruction::Move { dest, src }, *span, None)?;
                    i = i + 1;
                }
                proof {
                    assert(self.code().len() - bindings@.len() == c0.len());
                    if bindings@.len() > 0 {
                        assert(self.code()[c0.len() + 0int].instruction matches Instruction::Move { .. });
                        assert(move_source(self.code()[c0.len() as int].instruction) == base.0);
                    }
                    assert(forall|j: int| 0 <= j < bindings@.len() ==> #[trigger] self.code()[self.code().len() - bindings@.len() + j] == self.code()[c0.len() + j]);
                    assert(forall|j: int| 0 <= j < bindings@.len() ==> ((#[trigger] self.code()[self.code().len() - bindings@.len() + j]).instruction matches Instruction::Move { dest, src }
                        && holds_binding(self.registers(), bindings@[j], dest) && src.0 == base.0 + j));
                }
                Ok(())
            },
            ResolvedStmt::Assignment { targets, values, span } => {
                // With several targets, the table and key of every indexed
                // target are fixed in registers of their own before any value
                // is evaluated or stored.
                let mut prepared: Vec<Option<(Register, Register)>> = Vec::new();
                let mut i: usize = 0;
                while i < targets.len()
                    invariant
                        kept(*old(self), *self),
                        i <= targets@.len(),
                        prepared@.len() == i,
                    decreases targets.len() - i,
                {
                    let fixed = if targets.len() > 1 {
                        match &targets[i] {
                            ResolvedExpr::Index { base, index, .. } => {
                                let table = self.lower_expr(base)?;
                                let table_copy = self.allocate(*span)?;
                                self.emit(Instruction::Move { dest: table_copy, src: table }, *span, None)?;
                                let key = self.lower_expr(index)?;
                                let key_copy = self.allocate(*span)?;
                                self.emit(Instruction::Move { dest: key_copy, src: key }, *span, None)?;
                                Some((table_copy, key_copy))
                            },
                            ResolvedExpr::Field { base, name, .. } => {
                                let table = self.lower_expr(base)?;
                                let table_copy = self.allocate(*span)?;
                                self.emit(Instruction::Move { dest: table_copy, src: table }, *span, None)?;
                                let key = self.name_constant(name, *span)?;
                                Some((table_copy, key))
                            },
                            _ => None,
                        }
                    } else {
                        None
                    };
                    prepared.push(fixed);
                    i = i + 1;
                }
                let base = self.lower_fixed_values(values, targets.len(), *span)?;
                let mut i: usize = 0;
                while i < targets.len()
                    invariant
                        kept(*old(self), *self),
                        i <= targets@.len(),
                        prepared@.len() == targets@.len(),
                        i > 0 ==> self.code().len() > old(self).code().len(),
                    decreases targets.len() - i,
                {
                    let src = register_offset(base, i, *span)?;
                    match prepared[i] {
                        Some((table, key)) => {
                            self.emit(Instruction::SetTable { table, key, value: src }, *span, None)?;
                        },
                        None => {
                            self.store_target(&targets[i], src, *span)?;
                        },
                    }
                    i = i + 1;
                }
                Ok(())
            },
            ResolvedStmt::Call { call, span } => self.lower_statement_call(call, *span),
            ResolvedStmt::Break { close_path, span } => self.lower_break(close_path, *span),
            ResolvedStmt::Goto { name, close_path, span, .. } => self.lower_goto(name, close_path, *span),
            ResolvedStmt::Do { body, .. } => self.lower_block(body),
            ResolvedStmt::If { clauses, else_block, span } => {
                let mut end_patches: Vec<usize> = Vec::new();
                let mut false_to_join: Vec<usize> = Vec::new();
                let mut index: usize = 0;
                while index < clauses.len()
                    invariant
                kept(*old(self), *self),
                        index <= clauses@.len(),
                    decreases clauses.len() - index,
                {
                    let condition = self.lower_expr(&clauses[index].condition)?;
                    let false_jump = self.emit_jump_if_false_placeholder(condition, expr_span(&clauses[index].condition))?;
                    self.lower_block(&clauses[index].body)?;
                    let end = self.emit_jump_placeholder(*span)?;
                    end_patches.push(end);
                    if index + 1 < clauses.len() {
                        let next_clause = self.current_offset(*span)?;
                        self.patch_jump(false_jump, next_clause)?;
                    } else {
                        match else_block {
                            Some(body) => {
                                let else_entry = self.emit_cfg_anchor(body.span)?;
                                self.patch_jump(false_jump, else_entry)?;
                                self.lower_block(body)?;
                            },
                            None => {
                                false_to_join.push(false_jump);
                            },
                        }
                    }
                    index = index + 1;
                }
                let join = self.emit_cfg_anchor(*span)?;
                let mut k: usize = 0;
                while k < end_patches.len()
                    invariant
                kept(*old(self), *self),
                        k <= end_patches@.len(),
                        self.code().len() > old(self).code().len(),
                    decreases end_patches.len() - k,
                {
                    self.patch_jump(end_patches[k], join)?;
                    k = k + 1;
                }
                let mut k: usize = 0;
                while k < false_to_join.len()
                    invariant
                kept(*old(self), *self),
                        k <= false_to_join@.len(),
                        self.code().len() > old(self).code().len(),
                    decreases false_to_join.len() - k,
                {
                    self.patch_jump(false_to_join[k], join)?;
                    k = k + 1;
                }
                Ok(())
            },
            ResolvedStmt::Function { name, body, span, .. } => {
                let closure = self.lower_function(body)?;
                self.store_target(name, closure, *span)
            },
            ResolvedStmt::LocalFunction { name, body, span } => {
                let closure = self.lower_function(body)?;
                let dest = self.binding_register(name.binding, *span)?;
                self.emit(Instruction::Move { dest, src: closure }, *span, None)
            },
            ResolvedStmt::Global { declaration, span } => self.lower_global(declaration, *span),
            _ => self.lower_loop_statement(statement),
        }
    }

    /// A numeric `for`: the initial value, limit and step are each evaluated
    /// once, before the loop, and kept in registers.
    #[verifier::spinoff_prover]
    #[verifier::rlimit(100)]
    fn lower_numeric_for(
        &mut self,
        name: &ResolvedLocalName,
        initial: &ResolvedExpr,
        end: &ResolvedExpr,
        step: &Option<ResolvedExpr>,
        body: &ResolvedBlock,
        span: &Span,
    ) -> (r: Result<(), IrError>)
        requires
            old(self).inv(),
        ensures
            kept(*old(self), *final(self)),
            r is Ok ==> final(self).code().len() > old(self).code().len(),
            r is Ok ==> numeric_for_lowered(final(self).code(), final(self).registers(), name.binding),
        decreases body, 3int,
    {
        let control = self.binding_register(name.binding, *span)?;
        let initial_value = self.lower_expr(initial)?;
        self.emit(Instruction::Move { dest: control, src: initial_value }, *span, None)?;
        let end_value = self.lower_expr(end)?;
        let end_register = self.allocate(*span)?;
        self.emit(Instruction::Move { dest: end_register, src: end_value }, *span, None)?;
        let step_value = match step {
            Some(step) => self.lower_expr(step)?,
            None => {
                let register = self.allocate(*span)?;
                let constant = self.constant(IrConstant::Literal(Literal::Integer(1)), *span)?;
                self.emit(Instruction::LoadConst { dest: register, constant }, *span, None)?;
                register
            },
        };
        let step_register = self.allocate(*span)?;
        self.emit(Instruction::Move { dest: step_register, src: step_value }, *span, None)?;
        let zero_register = self.allocate(*span)?;
        let zero_constant = self.constant(IrConstant::Literal(Literal::Integer(0)), *span)?;
        self.emit(Instruction::LoadConst { dest: zero_register, constant: zero_constant }, *span, None)?;
        let loop_start = self.current_offset(*span)?;
        let ghost a = self.code().len() as int;
        let negative = self.allocate(*span)?;
        self.emit(Instruction::BinaryOp { dest: negative, op: BinaryOperation::Less, left: step_register, right: zero_register }, *span, None)?;
        let positive_branch = self.emit_jump_if_false_placeholder(negative, *span)?;
        let negative_comparison = self.allocate(*span)?;
        self.emit(Instruction::BinaryOp { dest: negative_comparison, op: BinaryOperation::GreaterEqual, left: control, right: end_register }, *span, None)?;
        let negative_exit = self.emit_jump_if_false_placeholder(negative_comparison, *span)?;
        let negative_to_body = self.emit_jump_placeholder(*span)?;
        let positive_start = self.current_offset(*span)?;
        self.patch_jump(positive_branch, positive_start)?;
        let positive_comparison = self.allocate(*span)?;
        self.emit(Instruction::BinaryOp { dest: positive_comparison, op: BinaryOperation::LessEqual, left: control, right: end_register }, *span, None)?;
        let positive_exit = self.emit_jump_if_false_placeholder(positive_comparison, *span)?;
        let body_start = self.current_offset(*span)?;
        self.patch_jump(negative_to_body, body_start)?;
        proof {
            assert(numeric_for_test(self.code(), a));
        }
        let ghost tested = *self;
        self.push_loop();
        self.lower_block(body)?;
        let next = self.allocate(*span)?;
        let ghost s = self.code().len() as int;
        self.emit(Instruction::BinaryOp { dest: next, op: BinaryOperation::Add, left: control, right: step_register }, *span, None)?;
        self.emit(Instruction::Move { dest: control, src: next }, *span, None)?;
        self.emit(Instruction::Jump { target: loop_start }, *span, None)?;
        let exit = self.emit_cfg_anchor(*span)?;
        let ghost stepped = *self;
        self.patch_jump(negative_exit, exit)?;
        self.patch_jump(positive_exit, exit)?;
        self.finish_loop(exit, *span)?;
        proof {
            let c = self.code();
            let t = tested.code();
            assert(kept(tested, *self));
            assert forall|i: int| 0 <= i < t.len() && !(jump_target(t[i].instruction) is Some) implies #[trigger] c[i] .instruction == t[i].instruction by {
                lemma_untargeted_fixed(c[i].instruction, t[i].instruction);
            }
            assert(kept(stepped, *self));
            let st = stepped.code();
            assert(st.len() == s + 4);
            assert(c.len() == st.len());
            assert forall|i: int| s <= i < st.len() && !(jump_target(st[i].instruction) is Some) implies #[trigger] c[i].instruction == st[i].instruction by {
                lemma_untargeted_fixed(c[i].instruction, st[i].instruction);
            }
            assert(untargeted(c[s + 2].instruction) == untargeted(st[s + 2].instruction));
            assert(numeric_for_test(c, a));
        }
        Ok(())
    }

    /// Loops; an empty statement lowers to nothing.
    #[verifier::loop_isolation(false)]
    #[verifier::spinoff_prover]
    #[verifier::rlimit(100)]
    fn lower_loop_statement(&mut self, statement: &ResolvedStmt) -> (r: Result<(), IrError>)
        requires
            old(self).inv(),
        ensures
            kept(*old(self), *final(self)),
            (statement is While || statement is Repeat || statement is NumericFor || statement is GenericFor) && r is Ok
                ==> final(self).code().len() > old(self).code().len(),
            r is Ok ==> (statement matches ResolvedStmt::NumericFor { name, .. }
                ==> numeric_for_lowered(final(self).code(), final(self).registers(), name.binding)),
            r is Ok && statement is GenericFor ==> exists|k: int| #[trigger] generic_for_exit_at(final(self).code(), k),
        decreases statement, 1int,
    {
        match statement {
            ResolvedStmt::While { condition, body, span } => {
                let loop_start = self.current_offset(*span)?;
                let condition_register = self.lower_expr(condition)?;
                let exit_jump = self.emit_jump_if_false_placeholder(condition_register, expr_span(condition))?;
                self.push_loop();
                self.lower_block(body)?;
                self.emit(Instruction::Jump { target: loop_start }, *span, None)?;
                let exit = self.emit_cfg_anchor(*span)?;
                self.patch_jump(exit_jump, exit)?;
                self.finish_loop(exit, *span)
            },
            ResolvedStmt::Repeat { body, condition, span } => {
                // The `until` condition is still inside the body's scope; the
                // scope is left only after the test.
                let loop_start = self.emit_cfg_anchor(*span)?;
                self.push_loop();
                self.lower_block_statements(body)?;
                let condition_register = self.lower_expr(condition)?;
                self.emit_close(&body.normal_close_path)?;
                self.emit(Instruction::JumpIfFalse { condition: condition_register, target: loop_start }, expr_span(condition), None)?;
                let exit = self.emit_cfg_anchor(*span)?;
                self.finish_loop(exit, *span)
            },
            ResolvedStmt::NumericFor { name, initial, limit, step, body, span } => self.lower_numeric_for(name, initial, limit, step, body, span),
            ResolvedStmt::GenericFor { names, values, body, span, .. } => {
                // Every initial expression is evaluated in order and the list
                // is adjusted to four values (a trailing call fills the rest);
                // the first three form the iterator triple.
                if values.len() == 0 {
                    return Err(invalid(*span, "P04 generic for 缺少 iterator"));
                }
                let adjusted = self.lower_fixed_values(values, 4, *span)?;
                let iterator_source = adjusted;
                let iterator = self.allocate(*span)?;
                self.emit(Instruction::Move { dest: iterator, src: iterator_source }, *span, None)?;
                let state_source = register_offset(adjusted, 1, *span)?;
                let state = self.allocate(*span)?;
                self.emit(Instruction::Move { dest: state, src: state_source }, *span, None)?;
                let control_source = register_offset(adjusted, 2, *span)?;
                let control = self.allocate(*span)?;
                self.emit(Instruction::Move { dest: control, src: control_source }, *span, None)?;
                let loop_start = self.current_offset(*span)?;
                let call_base = self.allocate(*span)?;
                self.emit(Instruction::Move { dest: call_base, src: iterator }, *span, None)?;
                let call_state = self.allocate(*span)?;
                self.emit(Instruction::Move { dest: call_state, src: state }, *span, None)?;
                let call_control = self.allocate(*span)?;
                self.emit(Instruction::Move { dest: call_control, src: control }, *span, None)?;
                if names.len() > 0xffffusize {
                    return Err(limit(*span, "generic for result 數超過 IR 限制"));
                }
                let result_count = names.len() as u16;
                if result_count == 0 {
                    return Err(invalid(*span, "P04 generic for 缺少 control name"));
                }
                let mut extra: u16 = 3;
                while extra < result_count
                    invariant
                kept(*old(self), *self),
                        extra <= result_count || result_count < 3,
                    decreases result_count - extra,
                {
                    self.allocate(*span)?;
                    extra = extra + 1;
                }
                self.emit(Instruction::Call { base: call_base, arg_count: 2, result_mode: ResultMode::Fixed(result_count) }, *span, None)?;
                // A generic for ends only when the first result is nil; false
                // still counts as a control value.
                let ghost k = self.code().len() as int;
                let nil = self.nil_register(*span)?;
                let non_nil = self.allocate(*span)?;
                self.emit(Instruction::BinaryOp { dest: non_nil, op: BinaryOperation::NotEqual, left: call_base, right: nil }, *span, None)?;
                let exit_jump = self.emit_jump_if_false_placeholder(non_nil, *span)?;
                proof {
                    assert(generic_for_exit_at(self.code(), k));
                }
                let ghost tested = *self;
                self.emit(Instruction::Move { dest: control, src: call_base }, *span, None)?;
                let mut index: usize = 0;
                while index < names.len()
                    invariant
                kept(*old(self), *self),
                        kept(tested, *self),
                        index <= names@.len(),
                        names@.len() <= 0xffff,
                    decreases names.len() - index,
                {
                    let source = match call_base.0.checked_add(index as u16) {
                        Some(n) => Register(n),
                        None => {
                            return Err(limit(*span, "generic for register 超過 IR 限制"));
                        },
                    };
                    let destination = self.binding_register(names[index].binding, names[index].span)?;
                    self.emit(Instruction::Move { dest: destination, src: source }, names[index].span, None)?;
                    index = index + 1;
                }
                self.push_loop();
                self.lower_block(body)?;
                self.emit(Instruction::Jump { target: loop_start }, *span, None)?;
                let exit = self.emit_cfg_anchor(*span)?;
                self.patch_jump(exit_jump, exit)?;
                self.finish_loop(exit, *span)?;
                proof {
                    let c = self.code();
                    let t = tested.code();
                    assert(kept(tested, *self));
                    assert forall|i: int| 0 <= i < t.len() && !(jump_target(t[i].instruction) is Some) implies #[trigger] c[i].instruction == t[i].instruction by {
                        lemma_untargeted_fixed(c[i].instruction, t[i].instruction);
                    }
                    assert(generic_for_exit_at(c, k));
                }
                Ok(())
            },
            _ => Ok(()),
        }
    }

    /// Strict global declarations store into the global environment table.
    #[verifier::loop_isolation(false)]
    fn lower_global(&mut self, declaration: &ResolvedGlobalDeclaration, span: Span) -> (r: Result<(), IrError>)
        requires
            old(self).inv(),
        ensures
            kept(*old(self), *final(self)),
        decreases declaration, 0int,
    {
        let table = self.global_table_register(span)?;
        match declaration {
            ResolvedGlobalDeclaration::Names { names, values, .. } => {
                let mut index: usize = 0;
                while index < names.len()
                    invariant
                kept(*old(self), *self),
                        index <= names@.len(),
                    decreases names.len() - index,
                {
                    let value = if index < values.len() {
                        self.lower_expr(&values[index])?
                    } else {
                        let register = self.allocate(span)?;
                        self.emit(Instruction::LoadNil { start: register, count: 1 }, span, None)?;
                        register
                    };
                    let key = self.name_constant(&names[index].name, names[index].span)?;
                    self.emit(Instruction::SetTable { table, key, value }, span, None)?;
                    index = index + 1;
                }
                Ok(())
            },
            ResolvedGlobalDeclaration::Star { .. } => Ok(()),
            ResolvedGlobalDeclaration::Function { name, body, .. } => {
                let value = self.lower_function(body)?;
                let key = self.name_constant(name, span)?;
                self.emit(Instruction::SetTable { table, key, value }, span, None)
            },
        }
    }

    /// Evaluates `values` and places `count` of them in fresh consecutive
    /// registers, padding with nil.
    fn lower_fixed_values(&mut self, values: &Vec<ResolvedExpr>, count: usize, span: Span) -> (r: Result<Register, IrError>)
        requires
            old(self).inv(),
        ensures
            kept(*old(self), *final(self)),
            r matches Ok(base) ==> values_placed(final(self).code(), base, values@, count as int),
        decreases values, 0int,
    {
        let mut sources: Vec<Register> = Vec::new();
        let mut i: usize = 0;
        while i < values.len()
            invariant
                kept(*old(self), *self),
                i <= values@.len(),
                sources@.len() == if i > 0 && i == values@.len() && count > values@.len() && is_open(values@.last()) { count as int } else { i as int },
            decreases values.len() - i,
        {
            if i + 1 == values.len() && count > values.len() && self.is_open_expression(&values[i]) {
                // A trailing call or `...` fills every target left over.
                let wanted = count - i;
                if wanted > 0xffffusize {
                    return Err(limit(span, "結果數超過 IR 限制"));
                }
                let first = self.lower_expr_mode(&values[i], ResultMode::Fixed(wanted as u16))?;
                let top = self.next_register as usize;
                let end = first.0 as usize + wanted;
                if end > top {
                    self.reserve_registers(end - top, span)?;
                }
                let ghost before = sources@.len();
                let mut k: usize = 0;
                while k < wanted
                    invariant
                        kept(*old(self), *self),
                        k <= wanted,
                        sources@.len() == before + k,
                    decreases wanted - k,
                {
                    sources.push(register_offset(first, k, span)?);
                    k = k + 1;
                }
            } else {
                let v = self.lower_expr(&values[i])?;
                sources.push(v);
            }
            i = i + 1;
        }
        let base = self.reserve_registers(count, span)?;
        let ghost c0 = self.code();
        assert(sources@.len() == filled_targets(values@, count as int) || (sources@.len() >= count && filled_targets(values@, count as int) == count));
        let mut index: usize = 0;
        while index < count
            invariant
                kept(*old(self), *self),
                index <= count,
                sources@.len() == filled_targets(values@, count as int) || (sources@.len() >= count && filled_targets(values@, count as int) == count),
                self.code().len() == c0.len() + index,
                forall|j: int| 0 <= j < index ==> if j < filled_targets(values@, count as int) {
                    (#[trigger] self.code()[c0.len() + j]).instruction matches Instruction::Move { dest, .. } && dest.0 == base.0 + j
                } else {
                    self.code()[c0.len() + j].instruction == (Instruction::LoadNil { start: Register((base.0 + j) as u16), count: 1 })
                },
            decreases count - index,
        {
            let dest = register_offset(base, index, span)?;
            if index < sources.len() {
                self.emit(Instruction::Move { dest, src: sources[index] }, span, None)?;
            } else {
                self.emit(Instruction::LoadNil { start: dest, count: 1 }, span, None)?;
            }
            index = index + 1;
        }
        proof {
            assert(self.code().len() - count == c0.len());
            assert(forall|j: int| 0 <= j < count ==> #[trigger] self.code()[self.code().len() - count + j] == self.code()[c0.len() + j]);
        }
        Ok(base)
    }

    fn lower_return(&mut self, values: &Vec<ResolvedExpr>, close_path: &ClosePath, span: Span) -> (r: Result<(), IrError>)
        requires
            old(self).inv(),
        ensures
            kept(*old(self), *final(self)),
            r is Ok ==> ends_with_return(final(self).code()) && final(self).code().last().span == span,
            r is Ok ==> final(self).code().len() > old(self).code().len(),
            r is Ok && values@.len() == 0 ==> final(self).code().last().instruction
                == (Instruction::Return { base: Register(0), result_mode: ResultMode::Fixed(0) }),
            r is Ok && values@.len() > 0 && !(values@.len() == 1 && (values@[0] is Call || values@[0] is MethodCall))
                ==> (final(self).code().last().instruction matches Instruction::Return { result_mode, .. }
                    && result_mode == returned_mode(values@)),
            r is Ok && values@.len() == 1 && (values@[0] is Call || values@[0] is MethodCall)
                ==> final(self).code().last().instruction is TailCall,
        decreases values, 2int,
    {
        if values.len() == 1 {
            let is_call = match &values[0] {
                ResolvedExpr::Call { .. } => true,
                ResolvedExpr::MethodCall { .. } => true,
                _ => false,
            };
            if is_call {
                return self.lower_tail_return(&values[0], close_path, span);
            }
        }
        let (base, result_mode) = self.lower_return_values(values, span)?;
        self.emit_close(close_path)?;
        self.emit(Instruction::Return { base, result_mode }, span, None)
    }

    fn lower_return_values(&mut self, values: &Vec<ResolvedExpr>, span: Span) -> (r: Result<(Register, ResultMode), IrError>)
        requires
            old(self).inv(),
        ensures
            kept(*old(self), *final(self)),
            values@.len() == 0 ==> r == Ok::<(Register, ResultMode), IrError>((Register(0), ResultMode::Fixed(0))),
            r matches Ok(p) ==> values@.len() > 0 ==> p.1 == returned_mode(values@),
        decreases values, 1int,
    {
        if values.len() == 0 {
            return Ok((Register(0), ResultMode::Fixed(0)));
        }
        let last_index = values.len() - 1;
        if self.is_open_expression(&values[last_index]) {
            let mut prefix: Vec<Register> = Vec::new();
            let mut i: usize = 0;
            while i < last_index
                invariant
                kept(*old(self), *self),
                    i <= last_index,
                    last_index < values@.len(),
                decreases last_index - i,
            {
                let v = self.lower_expr(&values[i])?;
                prefix.push(v);
                i = i + 1;
            }
            let call_base_offset = prefix.len();
            let open = self.open_slots(&values[last_index], span)?;
            let slots = match call_base_offset.checked_add(open) {
                Some(n) => n,
                None => {
                    return Err(limit(span, "return register 數超過 IR 限制"));
                },
            };
            let base = self.reserve_registers(slots, span)?;
            let mut index: usize = 0;
            while index < prefix.len()
                invariant
                kept(*old(self), *self),
                    index <= prefix@.len(),
                    values@.len() > 0,
                decreases prefix.len() - index,
            {
                let dest = register_offset(base, index, span)?;
                self.emit(Instruction::Move { dest, src: prefix[index] }, span, None)?;
                index = index + 1;
            }
            let at = register_offset(base, call_base_offset, span)?;
            self.lower_open_expression_at(&values[last_index], at, span)?;
            Ok((base, ResultMode::All))
        } else {
            let base = self.lower_fixed_values(values, values.len(), span)?;
            if values.len() > 0xffffusize {
                return Err(limit(span, "return result 數超過 IR 限制"));
            }
            Ok((base, ResultMode::Fixed(values.len() as u16)))
        }
    }

    fn lower_tail_return(&mut self, expression: &ResolvedExpr, close_path: &ClosePath, span: Span) -> (r: Result<(), IrError>)
        requires
            old(self).inv(),
        ensures
            kept(*old(self), *final(self)),
            r is Ok ==> final(self).code().len() > old(self).code().len(),
            r is Ok ==> ends_with_return(final(self).code()) && final(self).code().last().span == span,
            r is Ok ==> (final(self).code().last().instruction matches Instruction::TailCall { arg_count, result_mode, .. }
                && result_mode == ResultMode::All
                && (expression matches ResolvedExpr::Call { arguments, .. } ==> arg_count == arguments@.len())
                && (expression matches ResolvedExpr::MethodCall { arguments, .. } ==> arg_count == arguments@.len() + 1)),
        decreases expression, 2int,
    {
        let (base, arg_count) = self.prepare_open_call(expression, span)?;
        self.emit_close(close_path)?;
        self.mark_dynamic_top(base);
        self.emit(Instruction::TailCall { base, arg_count, result_mode: ResultMode::All }, span, None)
    }

    fn lower_statement_call(&mut self, expression: &ResolvedExpr, span: Span) -> (r: Result<(), IrError>)
        requires
            old(self).inv(),
        ensures
            kept(*old(self), *final(self)),
            r is Ok ==> final(self).code().len() >= 1 && final(self).code().last().span == span
                && final(self).code().last().instruction matches Instruction::Call { result_mode: ResultMode::Fixed(0), .. },
            r is Ok ==> final(self).code().len() > old(self).code().len(),
        decreases expression, 2int,
    {
        let (base, arg_count) = self.prepare_open_call(expression, span)?;
        self.emit(Instruction::Call { base, arg_count, result_mode: ResultMode::Fixed(0) }, span, None)
    }

    /// A call's callee and arguments in fresh consecutive registers.
    fn prepare_open_call(&mut self, expression: &ResolvedExpr, span: Span) -> (r: Result<(Register, u16), IrError>)
        requires
            old(self).inv(),
        ensures
            kept(*old(self), *final(self)),
            code_extends(old(self).code(), final(self).code()),
            r matches Ok(p) ==> (expression matches ResolvedExpr::Call { arguments, .. } ==> p.1 == arguments@.len()),
            r matches Ok(p) ==> (expression matches ResolvedExpr::MethodCall { arguments, .. } ==> p.1 == arguments@.len() + 1),
        decreases expression, 1int,
    {
        match expression {
            ResolvedExpr::Call { callee, arguments, .. } => {
                let callee = self.lower_expr(callee)?;
                let arguments = self.lower_argument_registers(arguments)?;
                self.prepare_call_registers(callee, &arguments, span)
            },
            ResolvedExpr::MethodCall { receiver, method, arguments, .. } => {
                let receiver = self.lower_expr(receiver)?;
                let key = self.name_constant(method, span)?;
                let callee = self.allocate(span)?;
                self.emit(Instruction::GetTable { dest: callee, table: receiver, key }, span, None)?;
                let mut values: Vec<Register> = Vec::new();
                values.push(receiver);
                let mut rest = self.lower_argument_registers(arguments)?;
                values.append(&mut rest);
                self.prepare_call_registers(callee, &values, span)
            },
            _ => Err(invalid(span, "只有 Call 可作 call statement 或 tail call")),
        }
    }

    fn lower_argument_registers(&mut self, arguments: &Vec<ResolvedExpr>) -> (r: Result<Vec<Register>, IrError>)
        requires
            old(self).inv(),
        ensures
            kept(*old(self), *final(self)),
            code_extends(old(self).code(), final(self).code()),
            r matches Ok(v) ==> v@.len() == arguments@.len(),
        decreases arguments, 0int,
    {
        let mut values: Vec<Register> = Vec::new();
        let mut i: usize = 0;
        while i < arguments.len()
            invariant
                kept(*old(self), *self),
                code_extends(old(self).code(), self.code()),
                i <= arguments@.len(),
                values@.len() == i,
            decreases arguments.len() - i,
        {
            let v = self.lower_expr(&arguments[i])?;
            values.push(v);
            i = i + 1;
        }
        Ok(values)
    }

    /// An open call or vararg whose results start at `base`.
    fn lower_open_expression_at(&mut self, expression: &ResolvedExpr, base: Register, span: Span) -> (r: Result<(), IrError>)
        requires
            old(self).inv(),
        ensures
            kept(*old(self), *final(self)),
            code_extends(old(self).code(), final(self).code()),
        decreases expression, 1int,
    {
        match expression {
            ResolvedExpr::Call { callee, arguments, .. } => {
                let callee = self.lower_expr(callee)?;
                let arguments = self.lower_argument_registers(arguments)?;
                let arg_count = self.move_call_inputs_at(base, callee, &arguments, span)?;
                self.mark_dynamic_top(base);
                self.emit(Instruction::Call { base, arg_count, result_mode: ResultMode::All }, span, None)
            },
            ResolvedExpr::MethodCall { receiver, method, arguments, .. } => {
                let receiver = self.lower_expr(receiver)?;
                let key = self.name_constant(method, span)?;
                let callee = self.allocate(span)?;
                self.emit(Instruction::GetTable { dest: callee, table: receiver, key }, span, None)?;
                let mut values: Vec<Register> = Vec::new();
                values.push(receiver);
                let mut rest = self.lower_argument_registers(arguments)?;
                values.append(&mut rest);
                let arg_count = self.move_call_inputs_at(base, callee, &values, span)?;
                self.mark_dynamic_top(base);
                self.emit(Instruction::Call { base, arg_count, result_mode: ResultMode::All }, span, None)
            },
            ResolvedExpr::Vararg { .. } => {
                self.mark_dynamic_top(base);
                self.emit(Instruction::Vararg { base, result_mode: ResultMode::All }, span, None)
            },
            _ => Err(invalid(span, "只有 Call 或 Vararg 可使用 ResultMode::All")),
        }
    }

    fn lower_expr(&mut self, expression: &ResolvedExpr) -> (r: Result<Register, IrError>)
        requires
            old(self).inv(),
        ensures
            kept(*old(self), *final(self)),
            code_extends(old(self).code(), final(self).code()),
            r matches Ok(reg) ==> expr_result_at(*expression, final(self).code(), reg, ResultMode::Fixed(1), final(self).registers()),
        decreases expression, 3int,
    {
        self.lower_expr_mode(expression, ResultMode::Fixed(1))
    }

    #[verifier::loop_isolation(false)]
    #[verifier::spinoff_prover]
    #[verifier::rlimit(100)]
    fn lower_expr_mode(&mut self, expression: &ResolvedExpr, result_mode: ResultMode) -> (r: Result<Register, IrError>)
        requires
            old(self).inv(),
        ensures
            kept(*old(self), *final(self)),
            code_extends(old(self).code(), final(self).code()),
            r matches Ok(reg) ==> expr_result_at(*expression, final(self).code(), reg, result_mode, final(self).registers()),
        decreases expression, 2int,
    {
        let all = match result_mode {
            ResultMode::All => true,
            _ => false,
        };
        if all && !self.is_open_expression(expression) {
            return Err(invalid(expr_span(expression), "ResultMode::All 只可流向 Call、Vararg 或 Return"));
        }
        match expression {
            ResolvedExpr::Literal { literal, span } => {
                let dest = self.allocate(*span)?;
                let constant = self.constant(IrConstant::Literal(literal.clone()), *span)?;
                self.emit(Instruction::LoadConst { dest, constant }, *span, None)?;
                Ok(dest)
            },
            ResolvedExpr::Nil { span } => self.nil_register(*span),
            ResolvedExpr::Bool { value, span } => {
                let dest = self.allocate(*span)?;
                let constant = self.constant(IrConstant::Boolean(*value), *span)?;
                self.emit(Instruction::LoadConst { dest, constant }, *span, None)?;
                Ok(dest)
            },
            ResolvedExpr::Name { name, resolution, span } => self.lower_name(name, resolution, *span),
            ResolvedExpr::Vararg { span, .. } => {
                let count: usize = match result_mode {
                    ResultMode::Fixed(count) => if count >= 1 { count as usize } else { 1 },
                    ResultMode::All => 1,
                };
                let base = self.reserve_registers(count, *span)?;
                self.emit(Instruction::Vararg { base, result_mode }, *span, None)?;
                Ok(base)
            },
            ResolvedExpr::Unary { op, expression, span } => {
                let src = self.lower_expr(expression)?;
                let ghost c1 = self.code();
                let dest = self.allocate(*span)?;
                self.emit(Instruction::UnaryOp { dest, op: map_unary(*op), src }, *span, None)?;
                proof {
                    assert(self.code().take(c1.len() as int) =~= c1);
                    assert(expr_result_at(**expression, self.code().take(c1.len() as int), src, ResultMode::Fixed(1), self.registers()));
                }
                Ok(dest)
            },
            ResolvedExpr::Binary { op: BinaryOp::And, left, right, span } => {
                // `a and b`: `b` is evaluated only when `a` is truthy.
                let first = self.lower_expr(left)?;
                let dest = self.allocate(*span)?;
                let ghost m = self.code().len() as int;
                self.emit(Instruction::Move { dest, src: first }, *span, None)?;
                let skip = self.emit_jump_if_false_placeholder(dest, *span)?;
                let ghost c1 = self.code();
                let second = self.lower_expr(right)?;
                let ghost c2 = self.code();
                self.emit(Instruction::Move { dest, src: second }, *span, None)?;
                let join = self.emit_cfg_anchor(*span)?;
                let ghost c3 = self.code();
                self.patch_jump(skip, join)?;
                proof {
                    assert(c1[m].instruction == (Instruction::Move { dest, src: first }));
                    assert(c3[m] == c1[m] && c3[m + 1] == c1[m + 1]);
                    assert(self.code()[m] == c3[m]);
                    lemma_and_shape(self.code(), dest, m);
                }
                Ok(dest)
            },
            ResolvedExpr::Binary { op: BinaryOp::Or, left, right, span } => {
                // `a or b`: `b` is evaluated only when `a` is falsy.
                let first = self.lower_expr(left)?;
                let dest = self.allocate(*span)?;
                let ghost m = self.code().len() as int;
                self.emit(Instruction::Move { dest, src: first }, *span, None)?;
                let ghost c0 = self.code();
                let to_right = self.emit_jump_if_false_placeholder(dest, *span)?;
                let done = self.emit_jump_placeholder(*span)?;
                let entry = self.emit_cfg_anchor(*span)?;
                self.patch_jump(to_right, entry)?;
                let second = self.lower_expr(right)?;
                self.emit(Instruction::Move { dest, src: second }, *span, None)?;
                let join = self.emit_cfg_anchor(*span)?;
                self.patch_jump(done, join)?;
                proof {
                    assert(c0[m].instruction == (Instruction::Move { dest, src: first }));
                    lemma_or_shape(self.code(), dest, m);
                }
                Ok(dest)
            },
            ResolvedExpr::Binary { op, left: first, right: second, span } => {
                let left = self.lower_expr(first)?;
                let ghost c1 = self.code();
                let right = self.lower_expr(second)?;
                let ghost c2 = self.code();
                let dest = self.allocate(*span)?;
                self.emit(Instruction::BinaryOp { dest, op: map_binary(*op), left, right }, *span, None)?;
                proof {
                    assert(self.code().take(c1.len() as int) =~= c1);
                    assert(self.code().take(c2.len() as int) =~= c2);
                    assert(expr_result_at(**first, self.code().take(c1.len() as int), left, ResultMode::Fixed(1), self.registers()));
                    assert(expr_result_at(**second, self.code().take(c2.len() as int), right, ResultMode::Fixed(1), self.registers()));
                }
                Ok(dest)
            },
            ResolvedExpr::Paren { expression, .. } => self.lower_expr(expression),
            ResolvedExpr::Index { base, index, span } => {
                let table = self.lower_expr(base)?;
                let ghost c1 = self.code();
                let key = self.lower_expr(index)?;
                let ghost c2 = self.code();
                let dest = self.allocate(*span)?;
                self.emit(Instruction::GetTable { dest, table, key }, *span, None)?;
                proof {
                    assert(self.code().take(c1.len() as int) =~= c1);
                    assert(self.code().take(c2.len() as int) =~= c2);
                    assert(expr_result_at(**base, self.code().take(c1.len() as int), table, ResultMode::Fixed(1), self.registers()));
                    assert(expr_result_at(**index, self.code().take(c2.len() as int), key, ResultMode::Fixed(1), self.registers()));
                }
                Ok(dest)
            },
            ResolvedExpr::Field { base, name, span } => {
                let table = self.lower_expr(base)?;
                let ghost c1 = self.code();
                let key = self.name_constant(name, *span)?;
                let dest = self.allocate(*span)?;
                self.emit(Instruction::GetTable { dest, table, key }, *span, None)?;
                proof {
                    assert(self.code().take(c1.len() as int) =~= c1);
                    assert(expr_result_at(**base, self.code().take(c1.len() as int), table, ResultMode::Fixed(1), self.registers()));
                }
                Ok(dest)
            },
            ResolvedExpr::Call { span, .. } => {
                let (base, arg_count) = self.prepare_open_call(expression, *span)?;
                self.emit(Instruction::Call { base, arg_count, result_mode }, *span, None)?;
                Ok(base)
            },
            ResolvedExpr::MethodCall { span, .. } => {
                let (base, arg_count) = self.prepare_open_call(expression, *span)?;
                self.emit(Instruction::Call { base, arg_count, result_mode }, *span, None)?;
                Ok(base)
            },
            ResolvedExpr::Function { body, .. } => self.lower_function(body),
            ResolvedExpr::TableConstructor { fields, span } => {
                let table = self.allocate(*span)?;
                self.emit(Instruction::NewTable { dest: table }, *span, None)?;
                let ghost m = self.code().len() - 1;
                let mut i: usize = 0;
                while i < fields.len()
                    invariant
                kept(*old(self), *self),
                        i <= fields@.len(),
                        code_extends(old(self).code(), self.code()),
                        0 <= m < self.code().len() && self.code()[m].instruction == (Instruction::NewTable { dest: table }),
                    decreases fields.len() - i,
                {
                    match &fields[i] {
                        ResolvedTableField::Array { value, span, .. } => {
                            let key = self.constant_register(IrConstant::Name(offset_key(span.start_byte)), *span)?;
                            let value = self.lower_expr(value)?;
                            self.emit(Instruction::SetTable { table, key, value }, *span, None)?;
                        },
                        ResolvedTableField::Named { name, value, span, .. } => {
                            let key = self.name_constant(name, *span)?;
                            let value = self.lower_expr(value)?;
                            self.emit(Instruction::SetTable { table, key, value }, *span, None)?;
                        },
                        ResolvedTableField::Indexed { key, value, span, .. } => {
                            let key = self.lower_expr(key)?;
                            let value = self.lower_expr(value)?;
                            self.emit(Instruction::SetTable { table, key, value }, *span, None)?;
                        },
                    }
                    i = i + 1;
                }
                Ok(table)
            },
        }
    }

    /// Stores `value` into an assignment target.
    fn store_target(&mut self, target: &ResolvedExpr, value: Register, span: Span) -> (r: Result<(), IrError>)
        requires
            old(self).inv(),
        ensures
            kept(*old(self), *final(self)),
            r is Ok ==> final(self).code().len() > old(self).code().len(),
        decreases target, 0int,
    {
        match target {
            ResolvedExpr::Name { name, resolution, .. } => match resolution {
                ResolvedName::Local(binding) => {
                    let dest = self.binding_register(*binding, span)?;
                    self.emit(Instruction::Move { dest, src: value }, span, None)
                },
                ResolvedName::Upvalue(upvalue) => {
                    if upvalue.0 > 0xffffu32 {
                        return Err(limit(span, "upvalue ID 超過 IR 限制"));
                    }
                    self.emit(Instruction::SetUpvalue { upvalue: UpvalueId(upvalue.0 as u16), src: value }, span, None)
                },
                ResolvedName::EnvField { env, .. } => {
                    let key = self.name_constant(name, span)?;
                    let table = self.binding_value(*env, span)?;
                    self.emit(Instruction::SetTable { table, key, value }, span, None)
                },
                ResolvedName::Global(_) => {
                    let key = self.name_constant(name, span)?;
                    let table = self.global_table_register(span)?;
                    self.emit(Instruction::SetTable { table, key, value }, span, None)
                },
            },
            ResolvedExpr::Index { base, index, .. } => {
                let table = self.lower_expr(base)?;
                let key = self.lower_expr(index)?;
                self.emit(Instruction::SetTable { table, key, value }, span, None)
            },
            ResolvedExpr::Field { base, name, .. } => {
                let table = self.lower_expr(base)?;
                let key = self.name_constant(name, span)?;
                self.emit(Instruction::SetTable { table, key, value }, span, None)
            },
            _ => Err(invalid(span, "P04 assignment target 不可 lower")),
        }
    }
}

fn collect_block_bodies<'m>(block: &'m ResolvedBlock, bodies: &mut Vec<(FunctionId, &'m ResolvedFunctionBody)>)
    decreases block, 0int,
{
    let mut i: usize = 0;
    while i < block.statements.len()
        invariant
            i <= block.statements@.len(),
        decreases block.statements.len() - i,
    {
        collect_statement_bodies(&block.statements[i], bodies);
        i = i + 1;
    }
}

fn collect_body<'m>(body: &'m ResolvedFunctionBody, bodies: &mut Vec<(FunctionId, &'m ResolvedFunctionBody)>)
    decreases body, 0int,
{
    bodies.push((body.function, body));
    collect_block_bodies(&body.body, bodies);
}

fn collect_exprs_bodies<'m>(expressions: &'m Vec<ResolvedExpr>, bodies: &mut Vec<(FunctionId, &'m ResolvedFunctionBody)>)
    decreases expressions, 0int,
{
    let mut i: usize = 0;
    while i < expressions.len()
        invariant
            i <= expressions@.len(),
        decreases expressions.len() - i,
    {
        collect_expr_bodies(&expressions[i], bodies);
        i = i + 1;
    }
}

#[verifier::loop_isolation(false)]
fn collect_expr_bodies<'m>(expression: &'m ResolvedExpr, bodies: &mut Vec<(FunctionId, &'m ResolvedFunctionBody)>)
    decreases expression, 0int,
{
    match expression {
        ResolvedExpr::Unary { expression, .. } => collect_expr_bodies(expression, bodies),
        ResolvedExpr::Paren { expression, .. } => collect_expr_bodies(expression, bodies),
        ResolvedExpr::Binary { left, right, .. } => {
            collect_expr_bodies(left, bodies);
            collect_expr_bodies(right, bodies);
        },
        ResolvedExpr::Index { base, index, .. } => {
            collect_expr_bodies(base, bodies);
            collect_expr_bodies(index, bodies);
        },
        ResolvedExpr::Field { base, .. } => collect_expr_bodies(base, bodies),
        ResolvedExpr::Call { callee, arguments, .. } => {
            collect_expr_bodies(callee, bodies);
            collect_exprs_bodies(arguments, bodies);
        },
        ResolvedExpr::MethodCall { receiver, arguments, .. } => {
            collect_expr_bodies(receiver, bodies);
            collect_exprs_bodies(arguments, bodies);
        },
        ResolvedExpr::Function { body, .. } => collect_body(body, bodies),
        ResolvedExpr::TableConstructor { fields, .. } => {
            let mut i: usize = 0;
            while i < fields.len()
                invariant
                    i <= fields@.len(),
                decreases fields.len() - i,
            {
                match &fields[i] {
                    ResolvedTableField::Array { value, .. } => collect_expr_bodies(value, bodies),
                    ResolvedTableField::Named { value, .. } => collect_expr_bodies(value, bodies),
                    ResolvedTableField::Indexed { key, value, .. } => {
                        collect_expr_bodies(key, bodies);
                        collect_expr_bodies(value, bodies);
                    },
                }
                i = i + 1;
            }
        },
        _ => {},
    }
}

#[verifier::loop_isolation(false)]
fn collect_statement_bodies<'m>(statement: &'m ResolvedStmt, bodies: &mut Vec<(FunctionId, &'m ResolvedFunctionBody)>)
    decreases statement, 0int,
{
    match statement {
        ResolvedStmt::Return { values, .. } => collect_exprs_bodies(values, bodies),
        ResolvedStmt::Local { values, .. } => collect_exprs_bodies(values, bodies),
        ResolvedStmt::Assignment { targets, values, .. } => {
            collect_exprs_bodies(targets, bodies);
            collect_exprs_bodies(values, bodies);
        },
        ResolvedStmt::Call { call, .. } => collect_expr_bodies(call, bodies),
        ResolvedStmt::Do { body, .. } => collect_block_bodies(body, bodies),
        ResolvedStmt::If { clauses, else_block, .. } => {
            let mut i: usize = 0;
            while i < clauses.len()
                invariant
                    i <= clauses@.len(),
                decreases clauses.len() - i,
            {
                collect_expr_bodies(&clauses[i].condition, bodies);
                collect_block_bodies(&clauses[i].body, bodies);
                i = i + 1;
            }
            if let Some(body) = else_block {
                collect_block_bodies(body, bodies);
            }
        },
        ResolvedStmt::While { condition, body, .. } => {
            collect_expr_bodies(condition, bodies);
            collect_block_bodies(body, bodies);
        },
        ResolvedStmt::Repeat { body, condition, .. } => {
            collect_block_bodies(body, bodies);
            collect_expr_bodies(condition, bodies);
        },
        ResolvedStmt::NumericFor { initial, limit, step, body, .. } => {
            collect_expr_bodies(initial, bodies);
            collect_expr_bodies(limit, bodies);
            if let Some(step) = step {
                collect_expr_bodies(step, bodies);
            }
            collect_block_bodies(body, bodies);
        },
        ResolvedStmt::GenericFor { values, body, .. } => {
            collect_exprs_bodies(values, bodies);
            collect_block_bodies(body, bodies);
        },
        ResolvedStmt::Function { name, body, .. } => {
            collect_expr_bodies(name, bodies);
            collect_body(body, bodies);
        },
        ResolvedStmt::LocalFunction { body, .. } => collect_body(body, bodies),
        ResolvedStmt::Global { declaration, .. } => match declaration {
            ResolvedGlobalDeclaration::Names { values, .. } => collect_exprs_bodies(values, bodies),
            ResolvedGlobalDeclaration::Function { body, .. } => collect_body(body, bodies),
            ResolvedGlobalDeclaration::Star { .. } => {},
        },
        _ => {},
    }
}

/// The positions of `functions` ordered by function id, equal ids keeping
/// their order.
fn function_order(functions: &Vec<ResolvedFunction>) -> (r: Vec<usize>)
    ensures
        r@.len() == functions@.len(),
        forall|i: int| 0 <= i < r@.len() ==> r@[i] < functions@.len(),
        forall|i: int, j: int| 0 <= i < j < r@.len() ==> functions@[r@[i] as int].id.0 <= functions@[r@[j] as int].id.0,
{
    let mut order: Vec<usize> = Vec::new();
    let mut k: usize = 0;
    while k < functions.len()
        invariant
            k <= functions@.len(),
            order@.len() == k,
            forall|i: int| 0 <= i < order@.len() ==> order@[i] < functions@.len(),
            forall|i: int, j: int| 0 <= i < j < order@.len() ==> functions@[order@[i] as int].id.0 <= functions@[order@[j] as int].id.0,
        decreases functions.len() - k,
    {
        let key = functions[k].id.0;
        let mut p: usize = 0;
        while p < order.len() && functions[order[p]].id.0 <= key
            invariant
                p <= order@.len(),
                forall|i: int| 0 <= i < order@.len() ==> order@[i] < functions@.len(),
                forall|q: int| 0 <= q < p ==> functions@[order@[q] as int].id.0 <= key,
            decreases order.len() - p,
        {
            p = p + 1;
        }
        let ghost before = order@;
        order.insert(p, k);
        assert forall|i: int, j: int| 0 <= i < j < order@.len() implies functions@[order@[i] as int].id.0 <= functions@[order@[j] as int].id.0 by {
            if p < before.len() {
                assert(functions@[before[p as int] as int].id.0 > key);
            }
            if i < p && j == p {
            } else if i == p && j > p {
                assert(functions@[before[p as int] as int].id.0 <= functions@[before[j - 1] as int].id.0 || j - 1 == p);
            }
        }
        k = k + 1;
    }
    order
}

/// A lowered prototype fits the limits: instructions and registers within
/// bounds, every jump inside the prototype, and every open result consumed.
pub open spec fn prototype_fits(p: IrPrototype, limits: IrLimits) -> bool {
    &&& p.instructions@.len() <= limits.max_instructions
    &&& 1 <= p.register_count <= limits.max_registers
    &&& jumps_in_range(p.instructions@)
    &&& open_results_consumed(p.instructions@)
}

/// The bytecode profile of a language profile.
pub open spec fn lua_profile_of(p: LanguageProfile) -> LuaProfile {
    match p {
        LanguageProfile::Lua55 => LuaProfile::Lua55,
        LanguageProfile::Lua54 => LuaProfile::Lua54,
    }
}

/// Lowers a resolved tree to typed IR without rescanning the source: one
/// prototype per function, numbered in the order of function ids, each
/// within the IR limits, carrying its function's parent, upvalues, binding
/// registers and parameter count, with every jump inside its prototype and
/// every open result consumed by an open return.
#[verifier::spinoff_prover]
#[verifier::rlimit(40)]
pub fn lower(module: &ResolvedModule, limits: &IrLimits) -> (r: Result<IrModule, IrError>)
    ensures
        r matches Ok(ir) ==> {
            &&& ir.profile == lua_profile_of(module.profile)
            &&& ir.span == module.span
            &&& ir.function_prototypes@.len() == module.functions@.len()
            &&& ir.prototypes@.len() == module.functions@.len()
            &&& ir.prototypes@.len() <= limits.max_prototypes
            &&& forall|i: int| 0 <= i < ir.function_prototypes@.len() ==> (#[trigger] ir.function_prototypes@[i]).1 == ProtoId(i as u32)
            &&& forall|i: int, j: int| 0 <= i < j < ir.function_prototypes@.len() ==> (#[trigger] ir.function_prototypes@[i]).0.0 < (#[trigger] ir.function_prototypes@[j]).0.0
            &&& forall|k: int| 0 <= k < ir.prototypes@.len() ==> {
                &&& prototype_fits(#[trigger] ir.prototypes@[k], *limits)
                &&& ir.prototypes@[k].id == ProtoId(k as u32)
                &&& ir.prototypes@[k].function == ir.function_prototypes@[k].0
                &&& exists|f: int| 0 <= f < module.functions@.len()
                    && module.functions@[f].id == ir.function_prototypes@[k].0
                    && #[trigger] prototype_mirrors(ir.prototypes@[k], module.functions@[f], ir.function_prototypes@)
            }
        },
{
    let profile = match module.profile {
        LanguageProfile::Lua55 => LuaProfile::Lua55,
        LanguageProfile::Lua54 => LuaProfile::Lua54,
    };
    let mut bodies: Vec<(FunctionId, &ResolvedFunctionBody)> = Vec::new();
    collect_block_bodies(&module.root, &mut bodies);
    let order = function_order(&module.functions);
    let n = order.len();
    let mut i: usize = 1;
    while i < n
        invariant
            1 <= i,
            n == order@.len(),
            n == module.functions@.len(),
            forall|q: int| 0 <= q < n ==> order@[q] < module.functions@.len(),
            forall|a: int, b: int| 0 <= a < b < n ==> module.functions@[order@[a] as int].id.0 <= module.functions@[order@[b] as int].id.0,
            forall|a: int, b: int| 1 <= b < i && a == b - 1 ==> module.functions@[order@[a] as int].id.0 < module.functions@[order@[b] as int].id.0,
        decreases n - i,
    {
        if module.functions[order[i - 1]].id == module.functions[order[i]].id {
            return Err(invalid(module.span, "P04 function metadata 有重複 FunctionId"));
        }
        i = i + 1;
    }
    let mut has_root = false;
    let mut k: usize = 0;
    while k < module.functions.len()
        invariant
            k <= module.functions@.len(),
        decreases module.functions.len() - k,
    {
        if module.functions[k].id == FunctionId(0) {
            has_root = true;
        }
        k = k + 1;
    }
    if !has_root {
        return Err(invalid(module.span, "P04 metadata 缺少 root FunctionId"));
    }
    if n > limits.max_prototypes {
        return Err(limit(module.span, "prototype 數超過 IR 限制"));
    }
    let mut function_prototypes: Vec<(FunctionId, ProtoId)> = Vec::new();
    let mut index: usize = 0;
    while index < n
        invariant
            index <= n,
            n == order@.len(),
            n == module.functions@.len(),
            forall|q: int| 0 <= q < n ==> order@[q] < module.functions@.len(),
            function_prototypes@.len() == index,
            forall|q: int| 0 <= q < index ==> (#[trigger] function_prototypes@[q]).1 == ProtoId(q as u32),
            forall|q: int| 0 <= q < index ==> (#[trigger] function_prototypes@[q]).0 == module.functions@[order@[q] as int].id,
        decreases n - index,
    {
        let function = &module.functions[order[index]];
        if index > 0xffff_ffffusize {
            return Err(limit(function.span, "prototype ID 超過 IR 限制"));
        }
        function_prototypes.push((function.id, ProtoId(index as u32)));
        index = index + 1;
    }
    assert forall|a: int, b: int| 0 <= a < b < n implies (#[trigger] function_prototypes@[a]).0.0 < (#[trigger] function_prototypes@[b]).0.0 by {
        assert(module.functions@[order@[a] as int].id.0 <= module.functions@[order@[b - 1] as int].id.0);
        assert(module.functions@[order@[b - 1] as int].id.0 < module.functions@[order@[b] as int].id.0);
    }
    let mut prototypes: Vec<IrPrototype> = Vec::new();
    let mut index: usize = 0;
    while index < n
        invariant
            index <= n,
            n == order@.len(),
            n == module.functions@.len(),
            n == function_prototypes@.len(),
            forall|q: int| 0 <= q < n ==> order@[q] < module.functions@.len(),
            forall|q: int| 0 <= q < n ==> (#[trigger] function_prototypes@[q]).0 == module.functions@[order@[q] as int].id,
            prototypes@.len() == index,
            forall|q: int| 0 <= q < index ==> {
                &&& prototype_fits(#[trigger] prototypes@[q], *limits)
                &&& prototypes@[q].id == ProtoId(q as u32)
                &&& prototypes@[q].function == function_prototypes@[q].0
                &&& prototype_mirrors(prototypes@[q], module.functions@[order@[q] as int], function_prototypes@)
            },
        decreases n - index,
    {
        let function = &module.functions[order[index]];
        let mut found: Option<usize> = None;
        let mut count: usize = 0;
        let mut b: usize = 0;
        while b < bodies.len()
            invariant
                b <= bodies@.len(),
                count <= b,
                found matches Some(f) ==> f < bodies@.len(),
            decreases bodies.len() - b,
        {
            if bodies[b].0 == function.id {
                if found.is_none() {
                    found = Some(b);
                }
                count = count + 1;
            }
            b = b + 1;
        }
        let is_root = function.id == FunctionId(0);
        let block: &ResolvedBlock = if is_root {
            &module.root
        } else {
            match found {
                Some(f) => &bodies[f].1.body,
                None => {
                    return Err(invalid(function.span, "P04 function metadata 缺少 body"));
                },
            }
        };
        if !is_root && count != 1 {
            return Err(invalid(function.span, "P04 function body map 不唯一"));
        }
        let id = proto_for(&function_prototypes, function.id, function.span)?;
        if id != ProtoId(index as u32) {
            return Err(invalid(function.span, "P04 function metadata 有重複 FunctionId"));
        }
        let parent = match function.parent {
            Some(p) => Some(proto_for(&function_prototypes, p, function.span)?),
            None => None,
        };
        let mut builder = Builder::new(function, id, parent, block.span, limits, &function_prototypes, &module.functions)?;
        if !is_root {
            if let Some(f) = found {
                builder.is_variadic = bodies[f].1.vararg.is_some();
            }
        }
        builder.lower_block(block)?;
        proof {
            assert(builder.lowers(*function, parent));
        }
        let prototype = builder.finish()?;
        prototypes.push(prototype);
        index = index + 1;
    }
    let ir = IrModule { profile, span: module.span, function_prototypes, prototypes };
    Ok(ir)
}

/// A source range as RVLU writes it.
pub open spec fn span_model(s: Span) -> BytecodeSpan {
    BytecodeSpan { start_byte: s.start_byte as u64, end_byte: s.end_byte as u64 }
}

/// A binding id as RVLU writes it.
pub open spec fn binding_model(b: BindingId) -> BytecodeBindingId {
    BytecodeBindingId { function: b.function.0, ordinal: b.ordinal }
}

pub open spec fn exit_kind_model(k: ExitKind) -> BytecodeExitKind {
    match k {
        ExitKind::Normal => BytecodeExitKind::Normal,
        ExitKind::Return => BytecodeExitKind::Return,
        ExitKind::Break => BytecodeExitKind::Break,
        ExitKind::Goto => BytecodeExitKind::Goto,
        ExitKind::Error => BytecodeExitKind::Error,
    }
}

/// A close path as RVLU holds it.
pub open spec fn close_model(c: IrClosePath) -> ClosePathModel {
    ClosePathModel {
        kind: exit_kind_model(c.kind),
        span: span_model(c.span),
        from_scope: c.from_scope.0,
        target_scope: match c.target_scope {
            Some(scope) => Some(scope.0),
            None => None,
        },
        bindings: c.bindings@.map_values(|b: BindingId| binding_model(b)),
        registers: c.registers@,
    }
}

/// An instruction entry as RVLU holds it: the same instruction, range and
/// close path.
pub open spec fn instruction_model(e: IrInstruction) -> InstructionModel {
    InstructionModel {
        instruction: e.instruction,
        span: span_model(e.span),
        close_path: match e.close_path {
            Some(path) => Some(close_model(path)),
            None => None,
        },
    }
}

/// An upvalue as RVLU holds it; none where the parent upvalue it passes on
/// has an index that does not fit 16 bits.
pub open spec fn upvalue_model(u: IrUpvalue) -> Option<BytecodeUpvalue> {
    match u.source {
        UpvalueSource::ParentLocal(b) => Some(BytecodeUpvalue { id: u.id, source: BytecodeUpvalueSource::ParentLocal(binding_model(b)) }),
        UpvalueSource::ParentUpvalue(parent) => if parent.0 <= 0xffff {
            Some(BytecodeUpvalue { id: u.id, source: BytecodeUpvalueSource::ParentUpvalue(UpvalueId(parent.0 as u16)) })
        } else {
            None
        },
    }
}

/// The bit pattern the first entry of `floats` with numeral text `text`
/// gives, none if no entry has that text.
pub open spec fn float_bits(floats: Seq<(Vec<u8>, u64)>, text: Seq<u8>) -> Option<u64>
    decreases floats.len(),
{
    if floats.len() == 0 {
        None
    } else if floats[0].0@ == text {
        Some(floats[0].1)
    } else {
        float_bits(floats.drop_first(), text)
    }
}

/// Entries before `i` that do not have the text leave the search to the
/// rest.
proof fn lemma_float_bits_skip(floats: Seq<(Vec<u8>, u64)>, text: Seq<u8>, i: int)
    requires
        0 <= i <= floats.len(),
        forall|j: int| 0 <= j < i ==> (#[trigger] floats[j]).0@ != text,
    ensures
        float_bits(floats, text) == float_bits(floats.skip(i), text),
    decreases i,
{
    if i > 0 {
        assert forall|j: int| 0 <= j < i - 1 implies (#[trigger] floats.drop_first()[j]).0@ != text by {
            assert(floats.drop_first()[j] == floats[j + 1]);
        }
        lemma_float_bits_skip(floats.drop_first(), text, i - 1);
        assert(floats.drop_first().skip(i - 1) =~= floats.skip(i));
    } else {
        assert(floats.skip(0) =~= floats);
    }
}

/// A constant as RVLU holds it; a float numeral takes the bits `floats`
/// gives for its text, and has no form without them.
pub open spec fn constant_model(c: IrConstant, floats: Seq<(Vec<u8>, u64)>) -> Option<ConstantModel> {
    match c {
        IrConstant::Literal(Literal::Name(v)) => Some(ConstantModel::Name(v@)),
        IrConstant::Name(v) => Some(ConstantModel::Name(v@)),
        IrConstant::Literal(Literal::String(v)) => Some(ConstantModel::String(v@)),
        IrConstant::Literal(Literal::Integer(v)) => Some(ConstantModel::Integer(v)),
        IrConstant::Literal(Literal::Float(text)) => match float_bits(floats, text@) {
            Some(bits) => Some(ConstantModel::FloatBits(bits)),
            None => None,
        },
        IrConstant::Boolean(v) => Some(ConstantModel::Boolean(v)),
    }
}

/// Every constant and upvalue of `p` has an RVLU form.
pub open spec fn prototype_convertible(p: IrPrototype, floats: Seq<(Vec<u8>, u64)>) -> bool {
    &&& forall|i: int| 0 <= i < p.constants@.len() ==> constant_model(#[trigger] p.constants@[i], floats) is Some
    &&& forall|i: int| 0 <= i < p.upvalues@.len() ==> upvalue_model(#[trigger] p.upvalues@[i]) is Some
}

/// Every prototype of `ir` has an RVLU form.
pub open spec fn module_convertible(ir: IrModule, floats: Seq<(Vec<u8>, u64)>) -> bool {
    forall|i: int| 0 <= i < ir.prototypes@.len() ==> prototype_convertible(#[trigger] ir.prototypes@[i], floats)
}

/// `m` is the IR prototype `p` as RVLU holds it: the same ids, frame,
/// registers, constants, upvalues, instructions and close paths.
pub open spec fn prototype_carried(m: PrototypeModel, p: IrPrototype, floats: Seq<(Vec<u8>, u64)>) -> bool {
    &&& m.id == p.id
    &&& m.function == p.function.0
    &&& m.parent == p.parent
    &&& m.span == span_model(p.span)
    &&& m.register_count == p.register_count
    &&& m.parameter_count == p.parameter_count
    &&& m.is_variadic == p.is_variadic
    &&& m.named_vararg == match p.named_vararg {
        Some(pair) => Some((binding_model(pair.0), pair.1)),
        None => None,
    }
    &&& m.frame == p.frame
    &&& m.global_environment == p.global_environment
    &&& m.global_environment_binding == binding_model(p.global_environment_binding)
    &&& m.binding_registers == p.binding_registers@.map_values(|x: (BindingId, Register)| (binding_model(x.0), x.1))
    &&& m.constants.len() == p.constants@.len()
    &&& forall|i: int| 0 <= i < p.constants@.len() ==> constant_model(#[trigger] p.constants@[i], floats) == Some(m.constants[i])
    &&& m.upvalues.len() == p.upvalues@.len()
    &&& forall|i: int| 0 <= i < p.upvalues@.len() ==> upvalue_model(#[trigger] p.upvalues@[i]) == Some(m.upvalues[i])
    &&& m.instructions == p.instructions@.map_values(|e: IrInstruction| instruction_model(e))
    &&& m.close_paths == p.close_paths@.map_values(|c: IrClosePath| close_model(c))
}

/// `m` is the lowered module `ir` as RVLU holds it, in format version 2
/// with 64-bit integers and floats.
pub open spec fn module_carried(m: ModuleModel, ir: IrModule, floats: Seq<(Vec<u8>, u64)>) -> bool {
    &&& m.format_version == BytecodeVersion(RVLU_V2_NUMBER)
    &&& m.profile == ir.profile
    &&& m.numeric_config == RVLU_NUMERIC_I64_F64
    &&& m.span == span_model(ir.span)
    &&& m.function_prototypes == ir.function_prototypes@.map_values(|x: (FunctionId, ProtoId)| (x.0.0, x.1))
    &&& m.prototypes.len() == ir.prototypes@.len()
    &&& forall|i: int| 0 <= i < ir.prototypes@.len() ==> prototype_carried(#[trigger] m.prototypes[i], ir.prototypes@[i], floats)
}

/// A lowered module has one RVLU form at most.
pub proof fn lemma_module_carried_unique(a: ModuleModel, b: ModuleModel, ir: IrModule, floats: Seq<(Vec<u8>, u64)>)
    requires
        module_carried(a, ir, floats),
        module_carried(b, ir, floats),
    ensures
        a == b,
{
    assert forall|i: int| 0 <= i < a.prototypes.len() implies a.prototypes[i] == b.prototypes[i] by {
        let (x, y, p) = (a.prototypes[i], b.prototypes[i], ir.prototypes@[i]);
        assert(prototype_carried(x, p, floats));
        assert(prototype_carried(y, p, floats));
        assert forall|k: int| 0 <= k < x.constants.len() implies x.constants[k] == y.constants[k] by {
            assert(constant_model(p.constants@[k], floats) == Some(x.constants[k]));
        }
        assert forall|k: int| 0 <= k < x.upvalues.len() implies x.upvalues[k] == y.upvalues[k] by {
            assert(upvalue_model(p.upvalues@[k]) == Some(x.upvalues[k]));
        }
        assert(x.constants =~= y.constants);
        assert(x.upvalues =~= y.upvalues);
    }
    assert(a.prototypes =~= b.prototypes);
}

/// A module with an RVLU form has every constant and upvalue convertible.
proof fn lemma_carried_convertible(m: ModuleModel, ir: IrModule, floats: Seq<(Vec<u8>, u64)>)
    requires
        module_carried(m, ir, floats),
    ensures
        module_convertible(ir, floats),
{
    assert forall|i: int| 0 <= i < ir.prototypes@.len() implies prototype_convertible(#[trigger] ir.prototypes@[i], floats) by {
        let p = ir.prototypes@[i];
        assert(prototype_carried(m.prototypes[i], p, floats));
        assert forall|k: int| 0 <= k < p.constants@.len() implies constant_model(#[trigger] p.constants@[k], floats) is Some by {
            assert(constant_model(p.constants@[k], floats) == Some(m.prototypes[i].constants[k]));
        }
        assert forall|k: int| 0 <= k < p.upvalues@.len() implies upvalue_model(#[trigger] p.upvalues@[k]) is Some by {
            assert(upvalue_model(p.upvalues@[k]) == Some(m.prototypes[i].upvalues[k]));
        }
    }
}

fn bytecode_span(span: Span) -> (r: BytecodeSpan)
    ensures
        r == span_model(span),
{
    BytecodeSpan { start_byte: span.start_byte as u64, end_byte: span.end_byte as u64 }
}

fn bytecode_binding(binding: BindingId) -> (r: BytecodeBindingId)
    ensures
        r == binding_model(binding),
{
    BytecodeBindingId { function: binding.function.0, ordinal: binding.ordinal }
}

fn bytecode_close_path(close: &IrClosePath) -> (r: BytecodeClosePath)
    ensures
        r@ == close_model(*close),
{
    let kind = match close.kind {
        ExitKind::Normal => BytecodeExitKind::Normal,
        ExitKind::Return => BytecodeExitKind::Return,
        ExitKind::Break => BytecodeExitKind::Break,
        ExitKind::Goto => BytecodeExitKind::Goto,
        ExitKind::Error => BytecodeExitKind::Error,
    };
    let target_scope = match close.target_scope {
        Some(scope) => Some(scope.0),
        None => None,
    };
    let mut bindings: Vec<BytecodeBindingId> = Vec::new();
    let mut i: usize = 0;
    while i < close.bindings.len()
        invariant
            i <= close.bindings@.len(),
            bindings@.len() == i,
            forall|j: int| 0 <= j < i ==> bindings@[j] == binding_model(#[trigger] close.bindings@[j]),
        decreases close.bindings.len() - i,
    {
        bindings.push(bytecode_binding(close.bindings[i]));
        i = i + 1;
    }
    let mut registers: Vec<Register> = Vec::new();
    let mut i: usize = 0;
    while i < close.registers.len()
        invariant
            i <= close.registers@.len(),
            registers@ == close.registers@.subrange(0, i as int),
        decreases close.registers.len() - i,
    {
        registers.push(close.registers[i]);
        i = i + 1;
        assert(registers@ =~= close.registers@.subrange(0, i as int));
    }
    assert(registers@ =~= close.registers@);
    assert(bindings@ =~= close.bindings@.map_values(|b: BindingId| binding_model(b)));
    BytecodeClosePath {
        kind,
        span: bytecode_span(close.span),
        from_scope: close.from_scope.0,
        target_scope,
        bindings,
        registers,
    }
}

fn bytecode_upvalue(upvalue: &IrUpvalue) -> (r: Result<BytecodeUpvalue, BytecodeError>)
    ensures
        r is Ok <==> upvalue_model(*upvalue) is Some,
        r matches Ok(u) ==> upvalue_model(*upvalue) == Some(u),
{
    let source = match upvalue.source {
        UpvalueSource::ParentLocal(binding) => BytecodeUpvalueSource::ParentLocal(bytecode_binding(binding)),
        UpvalueSource::ParentUpvalue(parent) => {
            if parent.0 > 0xffffu32 {
                return Err(limit_error(0, "P04 upvalue ID 超過 RVLU 限制"));
            }
            BytecodeUpvalueSource::ParentUpvalue(UpvalueId(parent.0 as u16))
        },
    };
    Ok(BytecodeUpvalue { id: upvalue.id, source })
}

/// The value of a constant.  A float numeral takes the bit pattern that
/// `float_values` gives for its text; one with none there is refused.
fn bytecode_constant(constant: &IrConstant, float_values: &Vec<(Vec<u8>, u64)>) -> (r: Result<BytecodeConstant, BytecodeError>)
    ensures
        r is Ok <==> constant_model(*constant, float_values@) is Some,
        r matches Ok(c) ==> constant_model(*constant, float_values@) == Some(c@),
{
    match constant {
        IrConstant::Literal(Literal::Name(value)) => Ok(BytecodeConstant::Name(value.clone())),
        IrConstant::Name(value) => Ok(BytecodeConstant::Name(value.clone())),
        IrConstant::Literal(Literal::String(value)) => Ok(BytecodeConstant::String(value.clone())),
        IrConstant::Literal(Literal::Integer(value)) => Ok(BytecodeConstant::Integer(*value)),
        IrConstant::Literal(Literal::Float(text)) => {
            let mut i: usize = 0;
            while i < float_values.len()
                invariant
                    i <= float_values@.len(),
                    forall|j: int| 0 <= j < i ==> (#[trigger] float_values@[j]).0@ != text@,
                    *constant == IrConstant::Literal(Literal::Float(*text)),
                decreases float_values.len() - i,
            {
                if bytes_equal(&float_values[i].0, text.as_slice()) {
                    proof {
                        lemma_float_bits_skip(float_values@, text@, i as int);
                        let rest = float_values@.skip(i as int);
                        assert(rest[0] == float_values@[i as int]);
                        assert(rest[0].0@ == text@);
                        assert(float_bits(rest, text@) == Some(rest[0].1));
                        assert(float_bits(float_values@, text@) == Some(float_values@[i as int].1));
                    }
                    return Ok(BytecodeConstant::FloatBits(float_values[i].1));
                }
                i = i + 1;
            }
            proof {
                lemma_float_bits_skip(float_values@, text@, i as int);
                assert(float_values@.skip(i as int).len() == 0);
            }
            Err(verify_error(0, "float 常數缺少數值"))
        },
        IrConstant::Boolean(value) => Ok(BytecodeConstant::Boolean(*value)),
    }
}

fn bytecode_prototype(prototype: &IrPrototype, float_values: &Vec<(Vec<u8>, u64)>) -> (r: Result<BytecodePrototype, BytecodeError>)
    ensures
        r is Ok <==> prototype_convertible(*prototype, float_values@),
        r matches Ok(b) ==> prototype_carried(b@, *prototype, float_values@),
{
    let mut binding_registers: Vec<(BytecodeBindingId, Register)> = Vec::new();
    let mut i: usize = 0;
    while i < prototype.binding_registers.len()
        invariant
            i <= prototype.binding_registers@.len(),
            binding_registers@.len() == i,
            forall|j: int| 0 <= j < i ==> binding_registers@[j] == ({
                let x = #[trigger] prototype.binding_registers@[j];
                (binding_model(x.0), x.1)
            }),
        decreases prototype.binding_registers.len() - i,
    {
        let (binding, register) = prototype.binding_registers[i];
        binding_registers.push((bytecode_binding(binding), register));
        i = i + 1;
    }
    assert(binding_registers@ =~= prototype.binding_registers@.map_values(|x: (BindingId, Register)| (binding_model(x.0), x.1)));
    let mut constants: Vec<BytecodeConstant> = Vec::new();
    let mut i: usize = 0;
    while i < prototype.constants.len()
        invariant
            i <= prototype.constants@.len(),
            constants@.len() == i,
            forall|j: int| 0 <= j < i ==> constant_model(#[trigger] prototype.constants@[j], float_values@) == Some(constants@[j]@),
        decreases prototype.constants.len() - i,
    {
        let c = bytecode_constant(&prototype.constants[i], float_values)?;
        constants.push(c);
        i = i + 1;
    }
    let mut upvalues: Vec<BytecodeUpvalue> = Vec::new();
    let mut i: usize = 0;
    while i < prototype.upvalues.len()
        invariant
            i <= prototype.upvalues@.len(),
            upvalues@.len() == i,
            forall|j: int| 0 <= j < prototype.constants@.len() ==> constant_model(#[trigger] prototype.constants@[j], float_values@) is Some,
            forall|j: int| 0 <= j < i ==> upvalue_model(#[trigger] prototype.upvalues@[j]) == Some(upvalues@[j]),
        decreases prototype.upvalues.len() - i,
    {
        let u = bytecode_upvalue(&prototype.upvalues[i])?;
        upvalues.push(u);
        i = i + 1;
    }
    let mut instructions: Vec<BytecodeInstruction> = Vec::new();
    let mut i: usize = 0;
    while i < prototype.instructions.len()
        invariant
            i <= prototype.instructions@.len(),
            instructions@.len() == i,
            forall|j: int| 0 <= j < i ==> instructions@[j]@ == instruction_model(#[trigger] prototype.instructions@[j]),
        decreases prototype.instructions.len() - i,
    {
        let entry = &prototype.instructions[i];
        let close_path = match &entry.close_path {
            Some(path) => Some(bytecode_close_path(path)),
            None => None,
        };
        instructions.push(BytecodeInstruction { instruction: entry.instruction, span: bytecode_span(entry.span), close_path });
        i = i + 1;
    }
    let mut close_paths: Vec<BytecodeClosePath> = Vec::new();
    let mut i: usize = 0;
    while i < prototype.close_paths.len()
        invariant
            i <= prototype.close_paths@.len(),
            close_paths@.len() == i,
            forall|j: int| 0 <= j < i ==> close_paths@[j]@ == close_model(#[trigger] prototype.close_paths@[j]),
        decreases prototype.close_paths.len() - i,
    {
        close_paths.push(bytecode_close_path(&prototype.close_paths[i]));
        i = i + 1;
    }
    let named_vararg = match prototype.named_vararg {
        Some((binding, register)) => Some((bytecode_binding(binding), register)),
        None => None,
    };
    let b = BytecodePrototype {
        id: prototype.id,
        function: prototype.function.0,
        parent: prototype.parent,
        span: bytecode_span(prototype.span),
        register_count: prototype.register_count,
        parameter_count: prototype.parameter_count,
        is_variadic: prototype.is_variadic,
        named_vararg,
        frame: prototype.frame,
        global_environment: prototype.global_environment,
        global_environment_binding: bytecode_binding(prototype.global_environment_binding),
        binding_registers,
        constants,
        upvalues,
        instructions,
        close_paths,
    };
    assert(b@.instructions =~= prototype.instructions@.map_values(|e: IrInstruction| instruction_model(e)));
    assert(b@.close_paths =~= prototype.close_paths@.map_values(|c: IrClosePath| close_model(c)));
    Ok(b)
}

/// The RVLU candidate of a lowered module, in the only encodable format.
fn bytecode_module(module: &IrModule, float_values: &Vec<(Vec<u8>, u64)>) -> (r: Result<BytecodeModule, BytecodeError>)
    ensures
        r is Ok <==> module_convertible(*module, float_values@),
        r matches Ok(m) ==> module_carried(m@, *module, float_values@),
{
    let mut function_prototypes: Vec<(u32, ProtoId)> = Vec::new();
    let mut i: usize = 0;
    while i < module.function_prototypes.len()
        invariant
            i <= module.function_prototypes@.len(),
            function_prototypes@.len() == i,
            forall|j: int| 0 <= j < i ==> function_prototypes@[j] == ({
                let x = #[trigger] module.function_prototypes@[j];
                (x.0.0, x.1)
            }),
        decreases module.function_prototypes.len() - i,
    {
        let (function, prototype) = module.function_prototypes[i];
        function_prototypes.push((function.0, prototype));
        i = i + 1;
    }
    assert(function_prototypes@ =~= module.function_prototypes@.map_values(|x: (FunctionId, ProtoId)| (x.0.0, x.1)));
    let mut prototypes: Vec<BytecodePrototype> = Vec::new();
    let mut i: usize = 0;
    while i < module.prototypes.len()
        invariant
            i <= module.prototypes@.len(),
            prototypes@.len() == i,
            forall|j: int| 0 <= j < i ==> prototype_carried(#[trigger] prototypes@[j]@, module.prototypes@[j], float_values@),
            forall|j: int| 0 <= j < i ==> prototype_convertible(#[trigger] module.prototypes@[j], float_values@),
        decreases module.prototypes.len() - i,
    {
        let p = bytecode_prototype(&module.prototypes[i], float_values)?;
        prototypes.push(p);
        i = i + 1;
    }
    let m = BytecodeModule {
        format_version: crate::bytecode::rvlu_v2(),
        profile: module.profile,
        numeric_config: RVLU_NUMERIC_I64_F64,
        span: bytecode_span(module.span),
        function_prototypes,
        prototypes,
    };
    assert forall|j: int| 0 <= j < module.prototypes@.len() implies prototype_carried(#[trigger] m@.prototypes[j], module.prototypes@[j], float_values@) by {
        assert(m@.prototypes[j] == prototypes@[j]@);
    }
    Ok(m)
}

/// Turns lowered IR into RVLU bytes through the same verifier and codec as
/// every other module.  Float constants take their bit patterns from
/// `float_values`, keyed by numeral text.  The module written is the IR as
/// RVLU holds it (`module_carried`): the same prototypes, constants,
/// upvalues, instructions and close paths.  It is written exactly when
/// every constant and upvalue has an RVLU form and that module passes the
/// verifier for the IR's profile and fits the byte limits; the bytes are
/// its exact encoding.
pub fn emit(module: &IrModule, float_values: &Vec<(Vec<u8>, u64)>, limits: &VerifyLimits) -> (r: Result<EncodedModule, BytecodeError>)
    ensures
        !module_convertible(*module, float_values@) ==> r is Err,
        forall|m: ModuleModel| #[trigger] module_carried(m, *module, float_values@) ==> (r is Ok <==> {
            &&& module_valid(m, module.profile, *limits)
            &&& module_fits(m)
            &&& enc_module(m).len() <= limits.max_module_bytes
        }),
        r matches Ok(e) ==> {
            &&& module_carried(e.spec_module(), *module, float_values@)
            &&& module_valid(e.spec_module(), module.profile, *limits)
            &&& e.spec_bytes() == enc_module(e.spec_module())
        },
{
    let candidate = match bytecode_module(module, float_values) {
        Ok(c) => c,
        Err(e) => {
            proof {
                assert forall|m: ModuleModel| #[trigger] module_carried(m, *module, float_values@) implies false by {
                    lemma_carried_convertible(m, *module, float_values@);
                }
            }
            return Err(e);
        },
    };
    let r = encode_module(candidate, module.profile, limits);
    proof {
        assert forall|m: ModuleModel| #[trigger] module_carried(m, *module, float_values@) implies (r is Ok <==> {
            &&& module_valid(m, module.profile, *limits)
            &&& module_fits(m)
            &&& enc_module(m).len() <= limits.max_module_bytes
        }) by {
            lemma_module_carried_unique(m, candidate@, *module, float_values@);
        }
    }
    r
}

} // verus!
