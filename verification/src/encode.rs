//! Writing RVLU v2 bytes from a module, one structure at a time.

use vstd::prelude::*;

use crate::bytecode::{
    BinaryOperation, EnvironmentSource, FrameLayout, Instruction, LuaProfile, ProtoId,
    Register, ResultMode, UnaryOperation,
};
use crate::format::{
    RVLU_MAGIC, binary_tag, close_fits, concat_map, constant_fits, enc_binding,
    enc_binding_register, enc_close_head, enc_close_path, enc_constant, enc_constants, enc_entry,
    enc_environment_source, enc_frame, enc_instruction, enc_instructions, enc_metadata,
    enc_module, enc_named_vararg, enc_optional_close, enc_optional_proto, enc_optional_scope,
    enc_prototype, enc_prototype_head, enc_prototypes, enc_reg, enc_result_mode, enc_span,
    enc_upvalue, entry_fits, exit_tag, lemma_concat_map_full, lemma_concat_map_step, magic_bytes,
    module_fits, profile_tag, prototype_fits, u32_max, unary_tag,
};
use crate::module::{
    BytecodeBindingId, BytecodeClosePath, BytecodeConstant, BytecodeError, BytecodeErrorCode,
    BytecodeExitKind, BytecodeInstruction, BytecodeModule, BytecodePrototype, BytecodeSpan,
    BytecodeUpvalue, BytecodeUpvalueSource, ClosePathModel, ConstantModel, InstructionModel,
    PrototypeModel, VerifyLimits, limit_error,
};
use crate::wire::{Writer, enc_section, enc_u16, enc_u32, enc_u8};

verus! {

/// `value` as a four-byte count; a larger value is a limit error.
pub fn checked_u32(value: usize, offset: usize, message: &str) -> (r: Result<u32, BytecodeError>)
    ensures
        r is Ok <==> value <= u32_max(),
        r matches Ok(v) ==> v == value,
        r matches Err(e) ==> e.code == BytecodeErrorCode::CompileLimit && e.offset == offset,
{
    if value > 4294967295usize {
        Err(limit_error(offset, message))
    } else {
        Ok(value as u32)
    }
}

pub fn profile_tag_of(profile: LuaProfile) -> (r: u8)
    ensures
        r == profile_tag(profile),
{
    match profile {
        LuaProfile::Lua55 => 0,
        LuaProfile::Lua54 => 1,
    }
}

fn unary_tag_of(op: UnaryOperation) -> (r: u8)
    ensures
        r == unary_tag(op),
{
    match op {
        UnaryOperation::Negate => 0,
        UnaryOperation::Not => 1,
        UnaryOperation::Length => 2,
        UnaryOperation::BitNot => 3,
    }
}

fn binary_tag_of(op: BinaryOperation) -> (r: u8)
    ensures
        r == binary_tag(op),
{
    match op {
        BinaryOperation::Or => 0,
        BinaryOperation::And => 1,
        BinaryOperation::Equal => 2,
        BinaryOperation::NotEqual => 3,
        BinaryOperation::Less => 4,
        BinaryOperation::LessEqual => 5,
        BinaryOperation::Greater => 6,
        BinaryOperation::GreaterEqual => 7,
        BinaryOperation::Pipe => 8,
        BinaryOperation::BitXor => 9,
        BinaryOperation::Ampersand => 10,
        BinaryOperation::ShiftLeft => 11,
        BinaryOperation::ShiftRight => 12,
        BinaryOperation::Concat => 13,
        BinaryOperation::Add => 14,
        BinaryOperation::Subtract => 15,
        BinaryOperation::Multiply => 16,
        BinaryOperation::Divide => 17,
        BinaryOperation::FloorDivide => 18,
        BinaryOperation::Modulo => 19,
        BinaryOperation::Power => 20,
    }
}

fn exit_tag_of(kind: BytecodeExitKind) -> (r: u8)
    ensures
        r == exit_tag(kind),
{
    match kind {
        BytecodeExitKind::Normal => 0,
        BytecodeExitKind::Return => 1,
        BytecodeExitKind::Break => 2,
        BytecodeExitKind::Goto => 3,
        BytecodeExitKind::Error => 4,
    }
}

pub fn write_span(w: &mut Writer, span: BytecodeSpan)
    ensures
        final(w).bytes@ == old(w).bytes@ + enc_span(span),
{
    w.u64(span.start_byte);
    w.u64(span.end_byte);
    assert(w.bytes@ =~= old(w).bytes@ + enc_span(span));
}

pub fn write_binding(w: &mut Writer, binding: BytecodeBindingId)
    ensures
        final(w).bytes@ == old(w).bytes@ + enc_binding(binding),
{
    w.u32(binding.function);
    w.u32(binding.ordinal);
    assert(w.bytes@ =~= old(w).bytes@ + enc_binding(binding));
}

fn write_optional_proto(w: &mut Writer, proto: Option<ProtoId>)
    ensures
        final(w).bytes@ == old(w).bytes@ + enc_optional_proto(proto),
{
    match proto {
        Some(id) => {
            w.u8(1);
            w.u32(id.0);
        },
        None => w.u8(0),
    }
    assert(w.bytes@ =~= old(w).bytes@ + enc_optional_proto(proto));
}

fn write_result_mode(w: &mut Writer, mode: ResultMode)
    ensures
        final(w).bytes@ == old(w).bytes@ + enc_result_mode(mode),
{
    match mode {
        ResultMode::Fixed(count) => {
            w.u8(0);
            w.u16(count);
        },
        ResultMode::All => w.u8(1),
    }
    assert(w.bytes@ =~= old(w).bytes@ + enc_result_mode(mode));
}

pub fn write_instruction(w: &mut Writer, instruction: &Instruction)
    ensures
        final(w).bytes@ == old(w).bytes@ + enc_instruction(*instruction),
{
    match *instruction {
        Instruction::LoadConst { dest, constant } => {
            w.u8(0);
            w.u16(dest.0);
            w.u32(constant.0);
        },
        Instruction::LoadNil { start, count } => {
            w.u8(1);
            w.u16(start.0);
            w.u16(count);
        },
        Instruction::Move { dest, src } => {
            w.u8(2);
            w.u16(dest.0);
            w.u16(src.0);
        },
        Instruction::GetUpvalue { dest, upvalue } => {
            w.u8(3);
            w.u16(dest.0);
            w.u16(upvalue.0);
        },
        Instruction::SetUpvalue { upvalue, src } => {
            w.u8(4);
            w.u16(upvalue.0);
            w.u16(src.0);
        },
        Instruction::NewTable { dest } => {
            w.u8(5);
            w.u16(dest.0);
        },
        Instruction::GetTable { dest, table, key } => {
            w.u8(6);
            w.u16(dest.0);
            w.u16(table.0);
            w.u16(key.0);
        },
        Instruction::SetTable { table, key, value } => {
            w.u8(7);
            w.u16(table.0);
            w.u16(key.0);
            w.u16(value.0);
        },
        Instruction::UnaryOp { dest, op, src } => {
            w.u8(8);
            w.u16(dest.0);
            w.u8(unary_tag_of(op));
            w.u16(src.0);
        },
        Instruction::BinaryOp { dest, op, left, right } => {
            w.u8(9);
            w.u16(dest.0);
            w.u8(binary_tag_of(op));
            w.u16(left.0);
            w.u16(right.0);
        },
        Instruction::Jump { target } => {
            w.u8(10);
            w.u32(target.0);
        },
        Instruction::JumpIfFalse { condition, target } => {
            w.u8(11);
            w.u16(condition.0);
            w.u32(target.0);
        },
        Instruction::Closure { dest, proto } => {
            w.u8(12);
            w.u16(dest.0);
            w.u32(proto.0);
        },
        Instruction::Call { base, arg_count, result_mode } => {
            w.u8(13);
            w.u16(base.0);
            w.u16(arg_count);
            write_result_mode(w, result_mode);
        },
        Instruction::TailCall { base, arg_count, result_mode } => {
            w.u8(14);
            w.u16(base.0);
            w.u16(arg_count);
            write_result_mode(w, result_mode);
        },
        Instruction::Vararg { base, result_mode } => {
            w.u8(15);
            w.u16(base.0);
            write_result_mode(w, result_mode);
        },
        Instruction::Return { base, result_mode } => {
            w.u8(16);
            w.u16(base.0);
            write_result_mode(w, result_mode);
        },
        Instruction::Close { base, count } => {
            w.u8(17);
            w.u16(base.0);
            w.u16(count);
        },
        Instruction::NumericForPrepare { control, limit, step, visible, exit } => {
            w.u8(18);
            w.u16(control.0);
            w.u16(limit.0);
            w.u16(step.0);
            w.u16(visible.0);
            w.u32(exit.0);
        },
        Instruction::NumericForNext { control, limit, step, visible, target, exit } => {
            w.u8(19);
            w.u16(control.0);
            w.u16(limit.0);
            w.u16(step.0);
            w.u16(visible.0);
            w.u32(target.0);
            w.u32(exit.0);
        },
    }
    assert(w.bytes@ =~= old(w).bytes@ + enc_instruction(*instruction));
}

pub fn write_frame(w: &mut Writer, frame: FrameLayout)
    ensures
        final(w).bytes@ == old(w).bytes@ + enc_frame(frame),
{
    w.u16(frame.register_limit);
    w.u16(frame.initial_top.0);
    w.u16(frame.dynamic_top.0);
    w.u16(frame.return_base.0);
    w.u16(frame.environment.0);
    let ghost mid = w.bytes@;
    match frame.environment_source {
        EnvironmentSource::RootExternal => w.u8(0),
        EnvironmentSource::ParentFrame { parent, register } => {
            w.u8(1);
            w.u32(parent.0);
            w.u16(register.0);
        },
        EnvironmentSource::ParentLocal { upvalue } => {
            w.u8(2);
            w.u16(upvalue.0);
        },
        EnvironmentSource::ParentUpvalue { upvalue } => {
            w.u8(3);
            w.u16(upvalue.0);
        },
    }
    assert(w.bytes@ =~= mid + enc_environment_source(frame.environment_source));
    w.bool(frame.registers_start_as_nil);
    assert(w.bytes@ =~= old(w).bytes@ + enc_frame(frame));
}

pub fn write_close_path(w: &mut Writer, close: &BytecodeClosePath) -> (r: Result<(), BytecodeError>)
    ensures
        r is Ok <==> close_fits(close@),
        r is Ok ==> final(w).bytes@ == old(w).bytes@ + enc_close_path(close@),
        r matches Err(e) ==> e.code == BytecodeErrorCode::CompileLimit && e.offset == 0,
{
    w.u8(exit_tag_of(close.kind));
    write_span(w, close.span);
    w.u32(close.from_scope);
    match close.target_scope {
        Some(scope) => {
            w.u8(1);
            w.u32(scope);
        },
        None => w.u8(0),
    }
    let ghost head = w.bytes@;
    assert(head =~= old(w).bytes@ + enc_close_head(close.kind, close.span, close.from_scope, close.target_scope));
    let count = checked_u32(close.bindings.len(), 0, "RVLU close bindings 過大")?;
    w.u32(count);
    let mut i: usize = 0;
    while i < close.bindings.len()
        invariant
            i <= close.bindings.len(),
            w.bytes@ == head + enc_u32(count) + concat_map(
                close.bindings@.subrange(0, i as int),
                |b: BytecodeBindingId| enc_binding(b),
            ),
        decreases close.bindings.len() - i,
    {
        proof {
            lemma_concat_map_step(close.bindings@, |b: BytecodeBindingId| enc_binding(b), i as int);
        }
        write_binding(w, close.bindings[i]);
        i = i + 1;
        assert(w.bytes@ =~= head + enc_u32(count) + concat_map(
            close.bindings@.subrange(0, i as int),
            |b: BytecodeBindingId| enc_binding(b),
        ));
    }
    proof {
        lemma_concat_map_full(close.bindings@, |b: BytecodeBindingId| enc_binding(b));
    }
    let ghost mid = w.bytes@;
    let count = checked_u32(close.registers.len(), 0, "RVLU close registers 過大")?;
    w.u32(count);
    let mut i: usize = 0;
    while i < close.registers.len()
        invariant
            i <= close.registers.len(),
            w.bytes@ == mid + enc_u32(count) + concat_map(
                close.registers@.subrange(0, i as int),
                |r: Register| enc_reg(r),
            ),
        decreases close.registers.len() - i,
    {
        proof {
            lemma_concat_map_step(close.registers@, |r: Register| enc_reg(r), i as int);
        }
        w.u16(close.registers[i].0);
        i = i + 1;
        assert(w.bytes@ =~= mid + enc_u32(count) + concat_map(
            close.registers@.subrange(0, i as int),
            |r: Register| enc_reg(r),
        ));
    }
    proof {
        lemma_concat_map_full(close.registers@, |r: Register| enc_reg(r));
    }
    assert(w.bytes@ =~= old(w).bytes@ + enc_close_path(close@));
    Ok(())
}

fn write_blob(w: &mut Writer, value: &Vec<u8>) -> (r: Result<(), BytecodeError>)
    ensures
        r is Ok <==> value@.len() <= u32_max(),
        r is Ok ==> final(w).bytes@ == old(w).bytes@ + enc_u32(value@.len() as u32) + value@,
        r matches Err(e) ==> e.code == BytecodeErrorCode::CompileLimit && e.offset == 0,
{
    let count = checked_u32(value.len(), 0, "RVLU blob 過大")?;
    w.u32(count);
    w.bytes(value.as_slice());
    Ok(())
}

fn write_constant(w: &mut Writer, constant: &BytecodeConstant) -> (r: Result<(), BytecodeError>)
    ensures
        r is Ok <==> constant_fits(constant@),
        r is Ok ==> final(w).bytes@ == old(w).bytes@ + enc_constant(constant@),
        r matches Err(e) ==> e.code == BytecodeErrorCode::CompileLimit && e.offset == 0,
{
    match constant {
        BytecodeConstant::Integer(value) => {
            w.u8(0);
            w.i64(*value);
        },
        BytecodeConstant::FloatBits(value) => {
            w.u8(1);
            w.u64(*value);
        },
        BytecodeConstant::Name(value) => {
            w.u8(2);
            write_blob(w, value)?;
        },
        BytecodeConstant::String(value) => {
            w.u8(3);
            write_blob(w, value)?;
        },
        BytecodeConstant::Boolean(value) => {
            w.u8(4);
            w.bool(*value);
        },
    }
    assert(w.bytes@ =~= old(w).bytes@ + enc_constant(constant@));
    Ok(())
}

/// The constants section body of a prototype.
pub fn encode_constants(p: &BytecodePrototype, limits: &VerifyLimits) -> (r: Result<Vec<u8>, BytecodeError>)
    ensures
        r is Ok <==> p.constants@.len() <= limits.max_constants && p@.constants.len() <= u32_max()
            && forall|i: int| 0 <= i < p@.constants.len() ==> constant_fits(#[trigger] p@.constants[i]),
        r matches Ok(v) ==> v@ == enc_constants(p@),
        r matches Err(e) ==> e.code == BytecodeErrorCode::CompileLimit && e.offset == 0,
{
    let constants = &p.constants;
    if constants.len() > limits.max_constants {
        return Err(limit_error(0, "RVLU constant 數超過限制"));
    }
    let mut w = Writer::new();
    let count = checked_u32(constants.len(), 0, "RVLU constant 數過大")?;
    w.u32(count);
    let ghost f = |c: ConstantModel| enc_constant(c);
    let ghost cs = p@.constants;
    let mut i: usize = 0;
    while i < constants.len()
        invariant
            constants == p.constants,
            f == (|c: ConstantModel| enc_constant(c)),
            cs == p@.constants,
            cs.len() == constants@.len(),
            i <= constants.len(),
            forall|j: int| 0 <= j < i ==> constant_fits(#[trigger] cs[j]),
            w.bytes@ == enc_u32(count) + concat_map(cs.subrange(0, i as int), f),
        decreases constants.len() - i,
    {
        proof {
            lemma_concat_map_step(cs, f, i as int);
        }
        let res = write_constant(&mut w, &constants[i]);
        if res.is_err() {
            return Err(res.unwrap_err());
        }
        assert(cs[i as int] == constants@[i as int]@);
        assert(f(cs[i as int]) == enc_constant(cs[i as int]));
        i = i + 1;
        assert(w.bytes@ =~= enc_u32(count) + concat_map(cs.subrange(0, i as int), f));
    }
    proof {
        lemma_concat_map_full(cs, f);
    }
    Ok(w.bytes)
}

fn write_entry(w: &mut Writer, entry: &BytecodeInstruction) -> (r: Result<(), BytecodeError>)
    ensures
        r is Ok <==> entry_fits(entry@),
        r is Ok ==> final(w).bytes@ == old(w).bytes@ + enc_entry(entry@),
        r matches Err(e) ==> e.code == BytecodeErrorCode::CompileLimit && e.offset == 0,
{
    write_instruction(w, &entry.instruction);
    w.u8(entry.instruction.canonical_effect_flags());
    write_span(w, entry.span);
    let ghost mid = w.bytes@;
    match &entry.close_path {
        Some(path) => {
            w.u8(1);
            write_close_path(w, path)?;
        },
        None => w.u8(0),
    }
    assert(w.bytes@ =~= mid + enc_optional_close(entry@.close_path));
    assert(w.bytes@ =~= old(w).bytes@ + enc_entry(entry@));
    Ok(())
}

/// The instructions section body of a prototype.
pub fn encode_instructions(p: &BytecodePrototype, limits: &VerifyLimits) -> (r: Result<Vec<u8>, BytecodeError>)
    ensures
        r is Ok <==> p.instructions@.len() <= limits.max_instructions && p@.instructions.len() <= u32_max()
            && forall|i: int| 0 <= i < p@.instructions.len() ==> entry_fits(#[trigger] p@.instructions[i]),
        r matches Ok(v) ==> v@ == enc_instructions(p@),
        r matches Err(e) ==> e.code == BytecodeErrorCode::CompileLimit && e.offset == 0,
{
    let instructions = &p.instructions;
    if instructions.len() > limits.max_instructions {
        return Err(limit_error(0, "RVLU instruction 數超過限制"));
    }
    let mut w = Writer::new();
    let count = checked_u32(instructions.len(), 0, "RVLU instruction 數過大")?;
    w.u32(count);
    let ghost f = |e: InstructionModel| enc_entry(e);
    let ghost es = p@.instructions;
    let mut i: usize = 0;
    while i < instructions.len()
        invariant
            instructions == p.instructions,
            f == (|e: InstructionModel| enc_entry(e)),
            es == p@.instructions,
            es.len() == instructions@.len(),
            i <= instructions.len(),
            forall|j: int| 0 <= j < i ==> entry_fits(#[trigger] es[j]),
            w.bytes@ == enc_u32(count) + concat_map(es.subrange(0, i as int), f),
        decreases instructions.len() - i,
    {
        proof {
            lemma_concat_map_step(es, f, i as int);
        }
        let res = write_entry(&mut w, &instructions[i]);
        if res.is_err() {
            return Err(res.unwrap_err());
        }
        assert(es[i as int] == instructions@[i as int]@);
        assert(f(es[i as int]) == enc_entry(es[i as int]));
        i = i + 1;
        assert(w.bytes@ =~= enc_u32(count) + concat_map(es.subrange(0, i as int), f));
    }
    proof {
        lemma_concat_map_full(es, f);
    }
    Ok(w.bytes)
}

fn write_upvalue(w: &mut Writer, upvalue: BytecodeUpvalue)
    ensures
        final(w).bytes@ == old(w).bytes@ + enc_upvalue(upvalue),
{
    w.u16(upvalue.id.0);
    match upvalue.source {
        BytecodeUpvalueSource::ParentLocal(binding) => {
            w.u8(0);
            write_binding(w, binding);
        },
        BytecodeUpvalueSource::ParentUpvalue(parent) => {
            w.u8(1);
            w.u16(parent.0);
        },
    }
    assert(w.bytes@ =~= old(w).bytes@ + enc_upvalue(upvalue));
}

/// The metadata section body of a prototype: binding registers, upvalues
/// and close paths.
pub fn encode_metadata(p: &BytecodePrototype, limits: &VerifyLimits) -> (r: Result<Vec<u8>, BytecodeError>)
    ensures
        r is Ok <==> p.upvalues@.len() <= limits.max_upvalues_per_prototype
            && p@.binding_registers.len() <= u32_max() && p@.upvalues.len() <= u32_max()
            && p@.close_paths.len() <= u32_max()
            && forall|i: int| 0 <= i < p@.close_paths.len() ==> close_fits(#[trigger] p@.close_paths[i]),
        r matches Ok(v) ==> v@ == enc_metadata(p@),
        r matches Err(e) ==> e.code == BytecodeErrorCode::CompileLimit && e.offset == 0,
{
    if p.upvalues.len() > limits.max_upvalues_per_prototype {
        return Err(limit_error(0, "RVLU upvalue 數超過限制"));
    }
    let mut w = Writer::new();
    let count = checked_u32(p.binding_registers.len(), 0, "RVLU binding metadata 過大")?;
    w.u32(count);
    let ghost fb = |b: (BytecodeBindingId, Register)| enc_binding_register(b);
    let mut i: usize = 0;
    while i < p.binding_registers.len()
        invariant
            i <= p.binding_registers.len(),
            fb == (|b: (BytecodeBindingId, Register)| enc_binding_register(b)),
            w.bytes@ == enc_u32(count) + concat_map(p.binding_registers@.subrange(0, i as int), fb),
        decreases p.binding_registers.len() - i,
    {
        proof {
            lemma_concat_map_step(p.binding_registers@, fb, i as int);
        }
        let (binding, register) = p.binding_registers[i];
        write_binding(&mut w, binding);
        w.u16(register.0);
        assert(fb(p.binding_registers@[i as int]) == enc_binding(binding) + enc_reg(register));
        i = i + 1;
        assert(w.bytes@ =~= enc_u32(count) + concat_map(p.binding_registers@.subrange(0, i as int), fb));
    }
    proof {
        lemma_concat_map_full(p.binding_registers@, fb);
    }
    let ghost part1 = w.bytes@;
    let count = checked_u32(p.upvalues.len(), 0, "RVLU upvalue metadata 過大")?;
    w.u32(count);
    let ghost fu = |u: BytecodeUpvalue| enc_upvalue(u);
    let mut i: usize = 0;
    while i < p.upvalues.len()
        invariant
            i <= p.upvalues.len(),
            fu == (|u: BytecodeUpvalue| enc_upvalue(u)),
            w.bytes@ == part1 + enc_u32(count) + concat_map(p.upvalues@.subrange(0, i as int), fu),
        decreases p.upvalues.len() - i,
    {
        proof {
            lemma_concat_map_step(p.upvalues@, fu, i as int);
        }
        write_upvalue(&mut w, p.upvalues[i]);
        assert(fu(p.upvalues@[i as int]) == enc_upvalue(p.upvalues@[i as int]));
        i = i + 1;
        assert(w.bytes@ =~= part1 + enc_u32(count) + concat_map(p.upvalues@.subrange(0, i as int), fu));
    }
    proof {
        lemma_concat_map_full(p.upvalues@, fu);
    }
    let ghost part2 = w.bytes@;
    let count = checked_u32(p.close_paths.len(), 0, "RVLU close metadata 過大")?;
    w.u32(count);
    let ghost fc = |c: ClosePathModel| enc_close_path(c);
    let ghost cs = p@.close_paths;
    let mut i: usize = 0;
    while i < p.close_paths.len()
        invariant
            cs == p@.close_paths,
            fc == (|c: ClosePathModel| enc_close_path(c)),
            cs.len() == p.close_paths@.len(),
            i <= p.close_paths.len(),
            forall|j: int| 0 <= j < i ==> close_fits(#[trigger] cs[j]),
            w.bytes@ == part2 + enc_u32(count) + concat_map(cs.subrange(0, i as int), fc),
        decreases p.close_paths.len() - i,
    {
        proof {
            lemma_concat_map_step(cs, fc, i as int);
        }
        let res = write_close_path(&mut w, &p.close_paths[i]);
        if res.is_err() {
            return Err(res.unwrap_err());
        }
        assert(cs[i as int] == p.close_paths@[i as int]@);
        assert(fc(cs[i as int]) == enc_close_path(cs[i as int]));
        i = i + 1;
        assert(w.bytes@ =~= part2 + enc_u32(count) + concat_map(cs.subrange(0, i as int), fc));
    }
    proof {
        lemma_concat_map_full(cs, fc);
    }
    assert(w.bytes@ =~= enc_metadata(p@));
    Ok(w.bytes)
}

fn write_section(w: &mut Writer, body: &Vec<u8>, message: &str) -> (r: Result<(), BytecodeError>)
    ensures
        r is Ok <==> body@.len() <= u32_max(),
        r is Ok ==> final(w).bytes@ == old(w).bytes@ + enc_section(body@),
        r matches Err(e) ==> e.code == BytecodeErrorCode::CompileLimit && e.offset == 0,
{
    let count = checked_u32(body.len(), 0, message)?;
    w.u32(count);
    w.bytes(body.as_slice());
    assert(w.bytes@ =~= old(w).bytes@ + enc_section(body@));
    Ok(())
}

/// The limit checks that encoding one prototype applies again.
pub open spec fn prototype_within_limits(p: BytecodePrototype, limits: VerifyLimits) -> bool {
    &&& p.constants@.len() <= limits.max_constants
    &&& p.instructions@.len() <= limits.max_instructions
    &&& p.upvalues@.len() <= limits.max_upvalues_per_prototype
}

/// One prototype record.
pub fn encode_prototype(p: &BytecodePrototype, limits: &VerifyLimits) -> (r: Result<Vec<u8>, BytecodeError>)
    ensures
        r is Ok <==> prototype_fits(p@) && prototype_within_limits(*p, *limits),
        r matches Ok(v) ==> v@ == enc_prototype(p@),
        r matches Err(e) ==> e.code == BytecodeErrorCode::CompileLimit && e.offset == 0,
{
    reveal(enc_prototype);
    reveal(prototype_fits);
    let mut w = Writer::new();
    w.u32(p.id.0);
    w.u32(p.function);
    write_optional_proto(&mut w, p.parent);
    write_span(&mut w, p.span);
    w.u16(p.register_count);
    w.u16(p.parameter_count);
    w.bool(p.is_variadic);
    let ghost before_vararg = w.bytes@;
    match p.named_vararg {
        Some((binding, register)) => {
            w.u8(1);
            write_binding(&mut w, binding);
            w.u16(register.0);
        },
        None => w.u8(0),
    }
    assert(w.bytes@ =~= before_vararg + enc_named_vararg(p.named_vararg));
    write_frame(&mut w, p.frame);
    w.u16(p.global_environment.0);
    write_binding(&mut w, p.global_environment_binding);
    assert(w.bytes@ =~= enc_prototype_head(p@));
    let constants = encode_constants(p, limits)?;
    write_section(&mut w, &constants, "RVLU constants section 太大")?;
    let instructions = encode_instructions(p, limits)?;
    write_section(&mut w, &instructions, "RVLU instructions section 太大")?;
    let metadata = encode_metadata(p, limits)?;
    write_section(&mut w, &metadata, "RVLU metadata section 太大")?;
    assert(w.bytes@ =~= enc_prototype(p@));
    Ok(w.bytes)
}

/// The prototype section body of a module: the count, then one
/// length-prefixed record per prototype.
pub fn encode_prototype_section(m: &BytecodeModule, limits: &VerifyLimits) -> (r: Result<Vec<u8>, BytecodeError>)
    ensures
        r is Ok <==> m@.prototypes.len() <= u32_max()
            && (forall|i: int| 0 <= i < m@.prototypes.len() ==> prototype_fits(#[trigger] m@.prototypes[i])
                && enc_prototype(m@.prototypes[i]).len() <= u32_max())
            && (forall|i: int| 0 <= i < m.prototypes@.len() ==> prototype_within_limits(#[trigger] m.prototypes@[i], *limits)),
        r matches Ok(v) ==> v@ == enc_prototypes(m@),
        r matches Err(e) ==> e.code == BytecodeErrorCode::CompileLimit && e.offset == 0,
{
    let mut w = Writer::new();
    let count = checked_u32(m.prototypes.len(), 0, "RVLU prototype 數過大")?;
    w.u32(count);
    let ghost f = |p: crate::module::PrototypeModel| enc_section(enc_prototype(p));
    let ghost ps = m@.prototypes;
    let mut i: usize = 0;
    while i < m.prototypes.len()
        invariant
            ps == m@.prototypes,
            f == (|p: crate::module::PrototypeModel| enc_section(enc_prototype(p))),
            ps.len() == m.prototypes@.len(),
            i <= m.prototypes.len(),
            forall|j: int| 0 <= j < i ==> prototype_fits(#[trigger] ps[j]) && enc_prototype(ps[j]).len() <= u32_max(),
            forall|j: int| 0 <= j < i ==> prototype_within_limits(#[trigger] m.prototypes@[j], *limits),
            w.bytes@ == enc_u32(count) + concat_map(ps.subrange(0, i as int), f),
        decreases m.prototypes.len() - i,
    {
        proof {
            lemma_concat_map_step(ps, f, i as int);
        }
        let record = encode_prototype(&m.prototypes[i], limits);
        let record = match record {
            Ok(v) => v,
            Err(e) => {
                return Err(e);
            },
        };
        let res = write_section(&mut w, &record, "RVLU prototype record 太大");
        if res.is_err() {
            return Err(res.unwrap_err());
        }
        assert(ps[i as int] == m.prototypes@[i as int]@);
        assert(f(ps[i as int]) == enc_section(enc_prototype(ps[i as int])));
        i = i + 1;
        assert(w.bytes@ =~= enc_u32(count) + concat_map(ps.subrange(0, i as int), f));
    }
    proof {
        lemma_concat_map_full(ps, f);
    }
    Ok(w.bytes)
}

/// The whole module's bytes, before the module byte limit is applied.
pub fn encode_module_bytes(m: &BytecodeModule, limits: &VerifyLimits) -> (r: Result<Vec<u8>, BytecodeError>)
    ensures
        r is Ok <==> module_fits(m@) && (forall|i: int| 0 <= i < m.prototypes@.len() ==> prototype_within_limits(#[trigger] m.prototypes@[i], *limits)),
        r matches Ok(v) ==> v@ == enc_module(m@),
        r matches Err(e) ==> e.code == BytecodeErrorCode::CompileLimit && e.offset == 0,
{
    let mut w = Writer::new();
    w.bytes(&RVLU_MAGIC);
    w.u16(crate::bytecode::RVLU_V2_NUMBER);
    w.u8(profile_tag_of(m.profile));
    w.u8(m.numeric_config);
    write_span(&mut w, m.span);
    assert(RVLU_MAGIC@ =~= magic_bytes());
    let section = encode_prototype_section(m, limits)?;
    write_section(&mut w, &section, "RVLU prototype section 太大")?;
    assert(w.bytes@ =~= enc_module(m@));
    Ok(w.bytes)
}

} // verus!
