//! The RVLU v2 byte format, stated over the mathematical module views.
//!
//! Every integer is little-endian.  A module is the magic `RVLU`, the format
//! number, the profile tag, the numeric configuration, the module span and a
//! length-prefixed prototype section.

use vstd::prelude::*;

use crate::bytecode::{
    BinaryOperation, EnvironmentSource, FrameLayout, Instruction, LuaProfile, ProtoId,
    Register, ResultMode, UnaryOperation, RVLU_V2_NUMBER,
};
use crate::module::{
    BytecodeBindingId, BytecodeExitKind, BytecodeSpan, BytecodeUpvalue, BytecodeUpvalueSource,
    ClosePathModel, ConstantModel, InstructionModel, ModuleModel, PrototypeModel,
};
use crate::wire::{enc_bool, enc_i64, enc_section, enc_u16, enc_u32, enc_u64, enc_u8};

verus! {

/// The four magic bytes `RVLU`.
pub const RVLU_MAGIC: [u8; 4] = [82u8, 86u8, 76u8, 85u8];

/// The only supported numeric configuration: 64-bit integers and IEEE doubles.
pub const RVLU_NUMERIC_I64_F64: u8 = 1;

pub open spec fn magic_bytes() -> Seq<u8> {
    seq![82u8, 86u8, 76u8, 85u8]
}

/// The largest count or length that a four-byte field holds.
pub open spec fn u32_max() -> nat {
    4294967295
}

/// The concatenation of `f` over the items of `s`, in order.
pub open spec fn concat_map<A>(s: Seq<A>, f: spec_fn(A) -> Seq<u8>) -> Seq<u8>
    decreases s.len(),
{
    if s.len() == 0 {
        Seq::<u8>::empty()
    } else {
        concat_map(s.drop_last(), f) + f(s.last())
    }
}

pub proof fn lemma_concat_map_step<A>(s: Seq<A>, f: spec_fn(A) -> Seq<u8>, i: int)
    requires
        0 <= i < s.len(),
    ensures
        concat_map(s.subrange(0, i + 1), f) == concat_map(s.subrange(0, i), f) + f(s[i]),
{
    assert(s.subrange(0, i + 1).drop_last() =~= s.subrange(0, i));
}

pub proof fn lemma_concat_map_full<A>(s: Seq<A>, f: spec_fn(A) -> Seq<u8>)
    ensures
        concat_map(s.subrange(0, s.len() as int), f) == concat_map(s, f),
{
    assert(s.subrange(0, s.len() as int) =~= s);
}

pub proof fn lemma_concat_map_push<A>(s: Seq<A>, a: A, f: spec_fn(A) -> Seq<u8>)
    ensures
        concat_map(s.push(a), f) == concat_map(s, f) + f(a),
{
    assert(s.push(a).drop_last() =~= s);
}

pub proof fn lemma_concat_map_append<A>(a: Seq<A>, b: Seq<A>, f: spec_fn(A) -> Seq<u8>)
    ensures
        concat_map(a + b, f) == concat_map(a, f) + concat_map(b, f),
    decreases b.len(),
{
    if b.len() == 0 {
        assert(a + b =~= a);
        assert(concat_map(a, f) + concat_map(b, f) =~= concat_map(a, f));
    } else {
        lemma_concat_map_append(a, b.drop_last(), f);
        assert((a + b).drop_last() =~= a + b.drop_last());
        assert(concat_map(a + b, f) =~= concat_map(a, f) + concat_map(b, f));
    }
}

/// Splitting a concatenation at item `i`: the items before, item `i`, the items after.
pub proof fn lemma_concat_map_at<A>(s: Seq<A>, i: int, f: spec_fn(A) -> Seq<u8>)
    requires
        0 <= i < s.len(),
    ensures
        concat_map(s.subrange(i, s.len() as int), f) == f(s[i]) + concat_map(s.subrange(i + 1, s.len() as int), f),
{
    let tail = s.subrange(i + 1, s.len() as int);
    lemma_concat_map_append(seq![s[i]], tail, f);
    assert(seq![s[i]] + tail =~= s.subrange(i, s.len() as int));
    assert(seq![s[i]].drop_last() =~= Seq::<A>::empty());
    assert(concat_map(Seq::<A>::empty(), f) == Seq::<u8>::empty());
    assert(concat_map(seq![s[i]], f) == concat_map(Seq::<A>::empty(), f) + f(s[i]));
    assert(concat_map(seq![s[i]], f) =~= f(s[i]));
}

pub open spec fn profile_tag(p: LuaProfile) -> u8 {
    match p {
        LuaProfile::Lua55 => 0,
        LuaProfile::Lua54 => 1,
    }
}

pub open spec fn unary_tag(op: UnaryOperation) -> u8 {
    match op {
        UnaryOperation::Negate => 0,
        UnaryOperation::Not => 1,
        UnaryOperation::Length => 2,
        UnaryOperation::BitNot => 3,
    }
}

pub open spec fn binary_tag(op: BinaryOperation) -> u8 {
    match op {
        BinaryOperation::Or => 0,
        BinaryOperation::And => 1,
        BinaryOperation::Equal => 2,
        BinaryOperation::NotEqual => 3,
        BinaryOperation::Less => 4,
        BinaryOperation::LessEqual => 5,
        BinaryOperation::Greater => 6,
        BinaryOperation::GreaterEqual => 7,
        BinaryOperation::Pipe => 8,
        BinaryOperation::BitXor => 9,
        BinaryOperation::Ampersand => 10,
        BinaryOperation::ShiftLeft => 11,
        BinaryOperation::ShiftRight => 12,
        BinaryOperation::Concat => 13,
        BinaryOperation::Add => 14,
        BinaryOperation::Subtract => 15,
        BinaryOperation::Multiply => 16,
        BinaryOperation::Divide => 17,
        BinaryOperation::FloorDivide => 18,
        BinaryOperation::Modulo => 19,
        BinaryOperation::Power => 20,
    }
}

pub open spec fn exit_tag(kind: BytecodeExitKind) -> u8 {
    match kind {
        BytecodeExitKind::Normal => 0,
        BytecodeExitKind::Return => 1,
        BytecodeExitKind::Break => 2,
        BytecodeExitKind::Goto => 3,
        BytecodeExitKind::Error => 4,
    }
}

pub open spec fn enc_span(s: BytecodeSpan) -> Seq<u8> {
    enc_u64(s.start_byte) + enc_u64(s.end_byte)
}

pub open spec fn enc_binding(b: BytecodeBindingId) -> Seq<u8> {
    enc_u32(b.function) + enc_u32(b.ordinal)
}

pub open spec fn enc_optional_proto(p: Option<ProtoId>) -> Seq<u8> {
    match p {
        Some(id) => enc_u8(1) + enc_u32(id.0),
        None => enc_u8(0),
    }
}

pub open spec fn enc_result_mode(mode: ResultMode) -> Seq<u8> {
    match mode {
        ResultMode::Fixed(count) => enc_u8(0) + enc_u16(count),
        ResultMode::All => enc_u8(1),
    }
}

pub open spec fn enc_reg(r: Register) -> Seq<u8> {
    enc_u16(r.0)
}

/// The opcode number of an instruction.
pub open spec fn instruction_tag(i: Instruction) -> u8 {
    match i {
        Instruction::LoadConst { .. } => 0,
        Instruction::LoadNil { .. } => 1,
        Instruction::Move { .. } => 2,
        Instruction::GetUpvalue { .. } => 3,
        Instruction::SetUpvalue { .. } => 4,
        Instruction::NewTable { .. } => 5,
        Instruction::GetTable { .. } => 6,
        Instruction::SetTable { .. } => 7,
        Instruction::UnaryOp { .. } => 8,
        Instruction::BinaryOp { .. } => 9,
        Instruction::Jump { .. } => 10,
        Instruction::JumpIfFalse { .. } => 11,
        Instruction::Closure { .. } => 12,
        Instruction::Call { .. } => 13,
        Instruction::TailCall { .. } => 14,
        Instruction::Vararg { .. } => 15,
        Instruction::Return { .. } => 16,
        Instruction::Close { .. } => 17,
        Instruction::NumericForPrepare { .. } => 18,
        Instruction::NumericForNext { .. } => 19,
    }
}

/// The operands of one instruction, in field order.
pub open spec fn instruction_body(i: Instruction) -> Seq<u8> {
    match i {
        Instruction::LoadConst { dest, constant } => enc_reg(dest) + enc_u32(constant.0),
        Instruction::LoadNil { start, count } => enc_reg(start) + enc_u16(count),
        Instruction::Move { dest, src } => enc_reg(dest) + enc_reg(src),
        Instruction::GetUpvalue { dest, upvalue } => enc_reg(dest) + enc_u16(upvalue.0),
        Instruction::SetUpvalue { upvalue, src } => enc_u16(upvalue.0) + enc_reg(src),
        Instruction::NewTable { dest } => enc_reg(dest),
        Instruction::GetTable { dest, table, key } => enc_reg(dest) + enc_reg(table) + enc_reg(key),
        Instruction::SetTable { table, key, value } => enc_reg(table) + enc_reg(key) + enc_reg(value),
        Instruction::UnaryOp { dest, op, src } => enc_reg(dest) + enc_u8(unary_tag(op)) + enc_reg(src),
        Instruction::BinaryOp { dest, op, left, right } => enc_reg(dest) + enc_u8(binary_tag(op))
            + enc_reg(left) + enc_reg(right),
        Instruction::Jump { target } => enc_u32(target.0),
        Instruction::JumpIfFalse { condition, target } => enc_reg(condition) + enc_u32(target.0),
        Instruction::Closure { dest, proto } => enc_reg(dest) + enc_u32(proto.0),
        Instruction::Call { base, arg_count, result_mode } => enc_reg(base) + enc_u16(arg_count)
            + enc_result_mode(result_mode),
        Instruction::TailCall { base, arg_count, result_mode } => enc_reg(base) + enc_u16(arg_count)
            + enc_result_mode(result_mode),
        Instruction::Vararg { base, result_mode } => enc_reg(base) + enc_result_mode(result_mode),
        Instruction::Return { base, result_mode } => enc_reg(base) + enc_result_mode(result_mode),
        Instruction::Close { base, count } => enc_reg(base) + enc_u16(count),
        Instruction::NumericForPrepare { control, limit, step, visible, exit } => enc_reg(control)
            + enc_reg(limit) + enc_reg(step) + enc_reg(visible) + enc_u32(exit.0),
        Instruction::NumericForNext { control, limit, step, visible, target, exit } => enc_reg(
            control,
        ) + enc_reg(limit) + enc_reg(step) + enc_reg(visible) + enc_u32(target.0) + enc_u32(exit.0),
    }
}

/// The opcode byte and operands of one instruction.
pub open spec fn enc_instruction(i: Instruction) -> Seq<u8> {
    enc_u8(instruction_tag(i)) + instruction_body(i)
}

pub open spec fn enc_environment_source(s: EnvironmentSource) -> Seq<u8> {
    match s {
        EnvironmentSource::RootExternal => enc_u8(0),
        EnvironmentSource::ParentFrame { parent, register } => enc_u8(1) + enc_u32(parent.0)
            + enc_reg(register),
        EnvironmentSource::ParentLocal { upvalue } => enc_u8(2) + enc_u16(upvalue.0),
        EnvironmentSource::ParentUpvalue { upvalue } => enc_u8(3) + enc_u16(upvalue.0),
    }
}

pub open spec fn enc_frame(f: FrameLayout) -> Seq<u8> {
    enc_u16(f.register_limit) + enc_reg(f.initial_top) + enc_reg(f.dynamic_top) + enc_reg(
        f.return_base,
    ) + enc_reg(f.environment) + enc_environment_source(f.environment_source) + enc_bool(
        f.registers_start_as_nil,
    )
}

pub open spec fn enc_optional_scope(s: Option<u32>) -> Seq<u8> {
    match s {
        Some(scope) => enc_u8(1) + enc_u32(scope),
        None => enc_u8(0),
    }
}

/// A count field followed by the items.
pub open spec fn enc_list<A>(s: Seq<A>, f: spec_fn(A) -> Seq<u8>) -> Seq<u8> {
    enc_u32(s.len() as u32) + concat_map(s, f)
}

/// The fixed fields of a close path: exit kind, span, scopes.
pub open spec fn enc_close_head(
    kind: BytecodeExitKind,
    span: BytecodeSpan,
    from_scope: u32,
    target_scope: Option<u32>,
) -> Seq<u8> {
    enc_u8(exit_tag(kind)) + enc_span(span) + enc_u32(from_scope) + enc_optional_scope(target_scope)
}

pub open spec fn enc_close_path(c: ClosePathModel) -> Seq<u8> {
    enc_close_head(c.kind, c.span, c.from_scope, c.target_scope) + enc_list(
        c.bindings,
        |b: BytecodeBindingId| enc_binding(b),
    ) + enc_list(c.registers, |r: Register| enc_reg(r))
}

pub open spec fn enc_constant(c: ConstantModel) -> Seq<u8> {
    match c {
        ConstantModel::Integer(v) => enc_u8(0) + enc_i64(v),
        ConstantModel::FloatBits(v) => enc_u8(1) + enc_u64(v),
        ConstantModel::Name(v) => enc_u8(2) + enc_u32(v.len() as u32) + v,
        ConstantModel::String(v) => enc_u8(3) + enc_u32(v.len() as u32) + v,
        ConstantModel::Boolean(v) => enc_u8(4) + enc_bool(v),
    }
}

pub open spec fn enc_optional_close(c: Option<ClosePathModel>) -> Seq<u8> {
    match c {
        Some(path) => enc_u8(1) + enc_close_path(path),
        None => enc_u8(0),
    }
}

/// An instruction entry: the instruction, its canonical effect byte, its span
/// and its optional close path.
pub open spec fn enc_entry(e: InstructionModel) -> Seq<u8> {
    enc_instruction(e.instruction) + enc_u8(e.instruction.spec_effect_flags()) + enc_span(e.span)
        + enc_optional_close(e.close_path)
}

pub open spec fn enc_binding_register(b: (BytecodeBindingId, Register)) -> Seq<u8> {
    enc_binding(b.0) + enc_reg(b.1)
}

pub open spec fn enc_upvalue(u: BytecodeUpvalue) -> Seq<u8> {
    enc_u16(u.id.0) + match u.source {
        BytecodeUpvalueSource::ParentLocal(binding) => enc_u8(0) + enc_binding(binding),
        BytecodeUpvalueSource::ParentUpvalue(parent) => enc_u8(1) + enc_u16(parent.0),
    }
}

pub open spec fn enc_constants(p: PrototypeModel) -> Seq<u8> {
    enc_list(p.constants, |c: ConstantModel| enc_constant(c))
}

pub open spec fn enc_instructions(p: PrototypeModel) -> Seq<u8> {
    enc_list(p.instructions, |e: InstructionModel| enc_entry(e))
}

pub open spec fn enc_metadata_parts(
    bindings: Seq<(BytecodeBindingId, Register)>,
    upvalues: Seq<BytecodeUpvalue>,
    close_paths: Seq<ClosePathModel>,
) -> Seq<u8> {
    enc_list(bindings, |b: (BytecodeBindingId, Register)| enc_binding_register(b)) + enc_list(
        upvalues,
        |u: BytecodeUpvalue| enc_upvalue(u),
    ) + enc_list(close_paths, |c: ClosePathModel| enc_close_path(c))
}

pub open spec fn enc_metadata(p: PrototypeModel) -> Seq<u8> {
    enc_metadata_parts(p.binding_registers, p.upvalues, p.close_paths)
}

pub open spec fn enc_named_vararg(v: Option<(BytecodeBindingId, Register)>) -> Seq<u8> {
    match v {
        Some((binding, register)) => enc_u8(1) + enc_binding(binding) + enc_reg(register),
        None => enc_u8(0),
    }
}

/// The head of a prototype record: every fixed field before the sections.
pub open spec fn enc_prototype_head(p: PrototypeModel) -> Seq<u8> {
    enc_u32(p.id.0) + enc_u32(p.function) + enc_optional_proto(p.parent) + enc_span(p.span)
        + enc_u16(p.register_count) + enc_u16(p.parameter_count) + enc_bool(p.is_variadic)
        + enc_named_vararg(p.named_vararg) + enc_frame(p.frame) + enc_reg(p.global_environment)
        + enc_binding(p.global_environment_binding)
}

/// A prototype record: its head and its three sections.
#[verifier::opaque]
pub open spec fn enc_prototype(p: PrototypeModel) -> Seq<u8> {
    enc_prototype_head(p) + enc_section(enc_constants(p)) + enc_section(enc_instructions(p))
        + enc_section(enc_metadata(p))
}

pub open spec fn enc_prototypes(m: ModuleModel) -> Seq<u8> {
    enc_list(m.prototypes, |p: PrototypeModel| enc_section(enc_prototype(p)))
}

/// The function map that a module's prototypes give, in prototype order; the
/// format does not carry it, and decoding rebuilds it.
pub open spec fn function_map(ps: Seq<PrototypeModel>) -> Seq<(u32, ProtoId)> {
    ps.map_values(|p: PrototypeModel| (p.function, p.id))
}

/// The whole module: the fixed header and the prototype section.
pub open spec fn enc_module(m: ModuleModel) -> Seq<u8> {
    magic_bytes() + enc_u16(RVLU_V2_NUMBER) + enc_u8(profile_tag(m.profile)) + enc_u8(
        m.numeric_config,
    ) + enc_span(m.span) + enc_section(enc_prototypes(m))
}

pub open spec fn close_fits(c: ClosePathModel) -> bool {
    c.bindings.len() <= u32_max() && c.registers.len() <= u32_max()
}

pub open spec fn constant_fits(c: ConstantModel) -> bool {
    match c {
        ConstantModel::Name(v) => v.len() <= u32_max(),
        ConstantModel::String(v) => v.len() <= u32_max(),
        _ => true,
    }
}

pub open spec fn entry_fits(e: InstructionModel) -> bool {
    match e.close_path {
        Some(c) => close_fits(c),
        None => true,
    }
}

/// Every count and section length of the prototype fits in four bytes.
#[verifier::opaque]
pub open spec fn prototype_fits(p: PrototypeModel) -> bool {
    &&& p.constants.len() <= u32_max()
    &&& forall|i: int| 0 <= i < p.constants.len() ==> constant_fits(#[trigger] p.constants[i])
    &&& enc_constants(p).len() <= u32_max()
    &&& p.instructions.len() <= u32_max()
    &&& forall|i: int| 0 <= i < p.instructions.len() ==> entry_fits(#[trigger] p.instructions[i])
    &&& enc_instructions(p).len() <= u32_max()
    &&& p.binding_registers.len() <= u32_max()
    &&& p.upvalues.len() <= u32_max()
    &&& p.close_paths.len() <= u32_max()
    &&& forall|i: int| 0 <= i < p.close_paths.len() ==> close_fits(#[trigger] p.close_paths[i])
    &&& enc_metadata(p).len() <= u32_max()
}

/// Every count and section length of the module fits in four bytes.
pub open spec fn module_fits(m: ModuleModel) -> bool {
    &&& m.prototypes.len() <= u32_max()
    &&& forall|i: int| 0 <= i < m.prototypes.len() ==> prototype_fits(#[trigger] m.prototypes[i])
    &&& forall|i: int|
        0 <= i < m.prototypes.len() ==> enc_prototype(#[trigger] m.prototypes[i]).len()
            <= u32_max()
    &&& enc_prototypes(m).len() <= u32_max()
}

} // verus!
