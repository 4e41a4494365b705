//! Reading RVLU v2 bytes back into a module, one structure at a time.
//!
//! Each reader states both directions of the format: what it accepts is the
//! encoding of what it returns, and the encoding of a value is read back as
//! that value.

use vstd::prelude::*;

use crate::bytecode::{
    BinaryOperation, ConstId, EnvironmentSource, FrameLayout, Instruction, InstructionOffset,
    ProtoId, Register, ResultMode, UnaryOperation, UpvalueId,
};
use crate::format::{
    close_fits, concat_map, enc_close_head, enc_close_path, constant_fits, enc_constant, enc_entry,
    enc_binding_register, enc_upvalue, enc_optional_close, enc_metadata, enc_metadata_parts, enc_list, enc_optional_scope, enc_reg, exit_tag,
    lemma_concat_map_at, lemma_concat_map_push, u32_max,
    binary_tag, enc_binding, enc_environment_source, enc_frame, enc_instruction,
    enc_optional_proto, enc_result_mode, enc_span, instruction_body, instruction_tag, unary_tag,
    enc_named_vararg, enc_prototype, enc_prototype_head, enc_constants, enc_instructions, prototype_fits,
};
use crate::module::{
    bytecode_refusal, close_view, BytecodeConstant, BytecodeInstruction, BytecodeUpvalue, BytecodeUpvalueSource, ConstantModel, InstructionModel,
    BytecodeBindingId, BytecodeClosePath, BytecodeError, BytecodeErrorCode, BytecodeExitKind,
    BytecodeSpan, ClosePathModel, PrototypeModel, VerifyLimits, verify_error, BytecodePrototype,
};
use crate::injective::lemma_assoc;
use crate::wire::{Reader, Section, enc_section, enc_bool, enc_i64, enc_u16, enc_u32, enc_u64, enc_u8, lemma_split};

verus! {

pub fn read_span(r: &mut Reader) -> (res: Result<BytecodeSpan, BytecodeError>)
    requires
        old(r).wf(),
    ensures
        final(r).wf(),
        final(r).bytes == old(r).bytes,
        final(r).end == old(r).end,
        res matches Ok(s) ==> old(r).rest() == enc_span(s) + final(r).rest() && s.start_byte <= s.end_byte,
        forall|m: BytecodeSpan, t: Seq<u8>| #[trigger] (enc_span(m) + t) == old(r).rest() && m.start_byte <= m.end_byte ==> (res matches Ok(s) && s == m && final(r).rest() == t),
        res matches Err(e) ==> e.code == BytecodeErrorCode::Verify,
        res matches Err(e) ==> bytecode_refusal(e),
{
    let ghost rest0 = r.rest();
    let at = r.location();
    proof {
        assert forall|m: BytecodeSpan, t: Seq<u8>| #[trigger] (enc_span(m) + t) == rest0 implies rest0 == enc_u64(m.start_byte) + (enc_u64(m.end_byte) + t) by {
            assert(rest0 =~= enc_u64(m.start_byte) + (enc_u64(m.end_byte) + t));
        }
    }
    let start_byte = r.u64()?;
    let end_byte = r.u64()?;
    if start_byte > end_byte {
        return Err(verify_error(at, "RVLU span 無效"));
    }
    let s = BytecodeSpan { start_byte, end_byte };
    assert(rest0 =~= enc_span(s) + r.rest());
    Ok(s)
}

pub fn read_binding(r: &mut Reader) -> (res: Result<BytecodeBindingId, BytecodeError>)
    requires
        old(r).wf(),
    ensures
        final(r).wf(),
        final(r).bytes == old(r).bytes,
        final(r).end == old(r).end,
        res matches Ok(b) ==> old(r).rest() == enc_binding(b) + final(r).rest(),
        forall|m: BytecodeBindingId, t: Seq<u8>| #[trigger] (enc_binding(m) + t) == old(r).rest() ==> (res matches Ok(b) && b == m && final(r).rest() == t),
        res matches Err(e) ==> e.code == BytecodeErrorCode::Verify,
        res matches Err(e) ==> bytecode_refusal(e),
{
    let ghost rest0 = r.rest();
    proof {
        assert forall|m: BytecodeBindingId, t: Seq<u8>| #[trigger] (enc_binding(m) + t) == rest0 implies rest0 == enc_u32(m.function) + (enc_u32(m.ordinal) + t) by {
            assert(rest0 =~= enc_u32(m.function) + (enc_u32(m.ordinal) + t));
        }
    }
    let function = r.u32()?;
    let ordinal = r.u32()?;
    let b = BytecodeBindingId { function, ordinal };
    assert(rest0 =~= enc_binding(b) + r.rest());
    Ok(b)
}

pub fn read_optional_proto(r: &mut Reader) -> (res: Result<Option<ProtoId>, BytecodeError>)
    requires
        old(r).wf(),
    ensures
        final(r).wf(),
        final(r).bytes == old(r).bytes,
        final(r).end == old(r).end,
        res matches Ok(p) ==> old(r).rest() == enc_optional_proto(p) + final(r).rest(),
        forall|m: Option<ProtoId>, t: Seq<u8>| #[trigger] (enc_optional_proto(m) + t) == old(r).rest() ==> (res matches Ok(p) && p == m && final(r).rest() == t),
        res matches Err(e) ==> e.code == BytecodeErrorCode::Verify,
        res matches Err(e) ==> bytecode_refusal(e),
{
    let ghost rest0 = r.rest();
    let at = r.location();
    proof {
        assert forall|m: Option<ProtoId>, t: Seq<u8>| #[trigger] (enc_optional_proto(m) + t) == rest0 implies
            (match m { Some(id) => rest0 == enc_u8(1) + (enc_u32(id.0) + t), None => rest0 == enc_u8(0) + t }) by {
            if let Some(id) = m {
                assert(rest0 =~= enc_u8(1) + (enc_u32(id.0) + t));
            }
        }
    }
    let tag = r.u8()?;
    if tag == 0 {
        assert(rest0 =~= enc_optional_proto(None) + r.rest());
        Ok(None)
    } else if tag == 1 {
        let id = ProtoId(r.u32()?);
        assert(rest0 =~= enc_optional_proto(Some(id)) + r.rest());
        Ok(Some(id))
    } else {
        Err(verify_error(at, "RVLU parent flag 無效"))
    }
}

pub fn read_result_mode(r: &mut Reader) -> (res: Result<ResultMode, BytecodeError>)
    requires
        old(r).wf(),
    ensures
        final(r).wf(),
        final(r).bytes == old(r).bytes,
        final(r).end == old(r).end,
        res matches Ok(p) ==> old(r).rest() == enc_result_mode(p) + final(r).rest(),
        forall|m: ResultMode, t: Seq<u8>| #[trigger] (enc_result_mode(m) + t) == old(r).rest() ==> (res matches Ok(p) && p == m && final(r).rest() == t),
        res matches Err(e) ==> e.code == BytecodeErrorCode::Verify,
        res matches Err(e) ==> bytecode_refusal(e),
{
    let ghost rest0 = r.rest();
    let at = r.location();
    proof {
        assert forall|m: ResultMode, t: Seq<u8>| #[trigger] (enc_result_mode(m) + t) == rest0 implies
            (match m { ResultMode::Fixed(c) => rest0 == enc_u8(0) + (enc_u16(c) + t), ResultMode::All => rest0 == enc_u8(1) + t }) by {
            if let ResultMode::Fixed(c) = m {
                assert(rest0 =~= enc_u8(0) + (enc_u16(c) + t));
            }
        }
    }
    let tag = r.u8()?;
    if tag == 0 {
        let count = r.u16()?;
        assert(rest0 =~= enc_result_mode(ResultMode::Fixed(count)) + r.rest());
        Ok(ResultMode::Fixed(count))
    } else if tag == 1 {
        assert(rest0 =~= enc_result_mode(ResultMode::All) + r.rest());
        Ok(ResultMode::All)
    } else {
        Err(verify_error(at, "RVLU result mode 無效"))
    }
}

/// A one-byte flag that must be 0 or 1.
pub fn read_flag(r: &mut Reader, message: &str) -> (res: Result<bool, BytecodeError>)
    requires
        old(r).wf(),
    ensures
        final(r).wf(),
        final(r).bytes == old(r).bytes,
        final(r).end == old(r).end,
        res matches Ok(b) ==> old(r).rest() == enc_bool(b) + final(r).rest(),
        forall|m: bool, t: Seq<u8>| #[trigger] (enc_bool(m) + t) == old(r).rest() ==> (res matches Ok(b) && b == m && final(r).rest() == t),
        res matches Err(e) ==> e.code == BytecodeErrorCode::Verify && e.offset == old(r).offset,
        res matches Err(e) ==> bytecode_refusal(e),
{
    let ghost rest0 = r.rest();
    let at = r.location();
    let tag = r.u8()?;
    proof {
        assert forall|m: bool, t: Seq<u8>| #[trigger] (enc_bool(m) + t) == rest0 implies (tag == (if m { 1u8 } else { 0u8 }) && r.rest() == t) by {
            assert(enc_bool(m) == enc_u8(if m { 1u8 } else { 0u8 }));
            lemma_split(enc_u8(tag), r.rest(), enc_bool(m), t);
        }
    }
    if tag == 0 {
        assert(rest0 =~= enc_bool(false) + r.rest());
        Ok(false)
    } else if tag == 1 {
        assert(rest0 =~= enc_bool(true) + r.rest());
        Ok(true)
    } else {
        proof {
            assert forall|m: bool, t: Seq<u8>| #[trigger] (enc_bool(m) + t) == rest0 implies false by {
                assert(rest0[0] == enc_bool(m)[0]);
            }
        }
        Err(verify_error(at, message))
    }
}

fn parse_unary(tag: u8, offset: usize) -> (res: Result<UnaryOperation, BytecodeError>)
    ensures
        res matches Ok(op) ==> unary_tag(op) == tag,
        forall|op: UnaryOperation| #[trigger] unary_tag(op) == tag ==> res == Ok::<UnaryOperation, BytecodeError>(op),
        res matches Err(e) ==> e.code == BytecodeErrorCode::Verify,
        res matches Err(e) ==> bytecode_refusal(e),
{
    match tag {
        0 => Ok(UnaryOperation::Negate),
        1 => Ok(UnaryOperation::Not),
        2 => Ok(UnaryOperation::Length),
        3 => Ok(UnaryOperation::BitNot),
        _ => Err(verify_error(offset, "RVLU unary op 無效")),
    }
}

fn parse_binary(tag: u8, offset: usize) -> (res: Result<BinaryOperation, BytecodeError>)
    ensures
        res matches Ok(op) ==> binary_tag(op) == tag,
        forall|op: BinaryOperation| #[trigger] binary_tag(op) == tag ==> res == Ok::<BinaryOperation, BytecodeError>(op),
        res matches Err(e) ==> e.code == BytecodeErrorCode::Verify,
        res matches Err(e) ==> bytecode_refusal(e),
{
    match tag {
        0 => Ok(BinaryOperation::Or),
        1 => Ok(BinaryOperation::And),
        2 => Ok(BinaryOperation::Equal),
        3 => Ok(BinaryOperation::NotEqual),
        4 => Ok(BinaryOperation::Less),
        5 => Ok(BinaryOperation::LessEqual),
        6 => Ok(BinaryOperation::Greater),
        7 => Ok(BinaryOperation::GreaterEqual),
        8 => Ok(BinaryOperation::Pipe),
        9 => Ok(BinaryOperation::BitXor),
        10 => Ok(BinaryOperation::Ampersand),
        11 => Ok(BinaryOperation::ShiftLeft),
        12 => Ok(BinaryOperation::ShiftRight),
        13 => Ok(BinaryOperation::Concat),
        14 => Ok(BinaryOperation::Add),
        15 => Ok(BinaryOperation::Subtract),
        16 => Ok(BinaryOperation::Multiply),
        17 => Ok(BinaryOperation::Divide),
        18 => Ok(BinaryOperation::FloorDivide),
        19 => Ok(BinaryOperation::Modulo),
        20 => Ok(BinaryOperation::Power),
        _ => Err(verify_error(offset, "RVLU binary op 無效")),
    }
}


fn read_operands_load_const(
    r: &mut Reader,
    offset: usize,
    Ghost(expect): Ghost<Option<(Instruction, Seq<u8>)>>,
) -> (res: Result<Instruction, BytecodeError>)
    requires
        old(r).wf(),
    ensures
        final(r).wf(),
        final(r).bytes == old(r).bytes,
        final(r).end == old(r).end,
        res matches Ok(x) ==> instruction_tag(x) == 0 && old(r).rest() == instruction_body(x) + final(r).rest(),
        expect matches Some((m, t)) ==> (instruction_tag(m) == 0 && old(r).rest() == instruction_body(m) + t ==> (res matches Ok(x) && x == m && final(r).rest() == t)),
        res matches Err(e) ==> e.code == BytecodeErrorCode::Verify,
        res matches Err(e) ==> bytecode_refusal(e),
{
    let ghost rest1 = r.rest();
    proof {
        if let Some((m, t)) = expect {
            if rest1 == instruction_body(m) + t {
                if let Instruction::LoadConst { dest: m_dest, constant: m_constant } = m {
                    assert(rest1 =~= (enc_u16(m_dest.0) + (enc_u32(m_constant.0) + t)));
                }
            }
        }
    }
    let dest = Register(r.u16()?);
    let constant = ConstId(r.u32()?);
    let x = Instruction::LoadConst { dest, constant };
    proof {
        assert(rest1 =~= instruction_body(x) + r.rest());
    }
    Ok(x)
}

fn read_operands_load_nil(
    r: &mut Reader,
    offset: usize,
    Ghost(expect): Ghost<Option<(Instruction, Seq<u8>)>>,
) -> (res: Result<Instruction, BytecodeError>)
    requires
        old(r).wf(),
    ensures
        final(r).wf(),
        final(r).bytes == old(r).bytes,
        final(r).end == old(r).end,
        res matches Ok(x) ==> instruction_tag(x) == 1 && old(r).rest() == instruction_body(x) + final(r).rest(),
        expect matches Some((m, t)) ==> (instruction_tag(m) == 1 && old(r).rest() == instruction_body(m) + t ==> (res matches Ok(x) && x == m && final(r).rest() == t)),
        res matches Err(e) ==> e.code == BytecodeErrorCode::Verify,
        res matches Err(e) ==> bytecode_refusal(e),
{
    let ghost rest1 = r.rest();
    proof {
        if let Some((m, t)) = expect {
            if rest1 == instruction_body(m) + t {
                if let Instruction::LoadNil { start: m_start, count: m_count } = m {
                    assert(rest1 =~= (enc_u16(m_start.0) + (enc_u16(m_count) + t)));
                }
            }
        }
    }
    let start = Register(r.u16()?);
    let count = r.u16()?;
    let x = Instruction::LoadNil { start, count };
    proof {
        assert(rest1 =~= instruction_body(x) + r.rest());
    }
    Ok(x)
}

fn read_operands_move(
    r: &mut Reader,
    offset: usize,
    Ghost(expect): Ghost<Option<(Instruction, Seq<u8>)>>,
) -> (res: Result<Instruction, BytecodeError>)
    requires
        old(r).wf(),
    ensures
        final(r).wf(),
        final(r).bytes == old(r).bytes,
        final(r).end == old(r).end,
        res matches Ok(x) ==> instruction_tag(x) == 2 && old(r).rest() == instruction_body(x) + final(r).rest(),
        expect matches Some((m, t)) ==> (instruction_tag(m) == 2 && old(r).rest() == instruction_body(m) + t ==> (res matches Ok(x) && x == m && final(r).rest() == t)),
        res matches Err(e) ==> e.code == BytecodeErrorCode::Verify,
        res matches Err(e) ==> bytecode_refusal(e),
{
    let ghost rest1 = r.rest();
    proof {
        if let Some((m, t)) = expect {
            if rest1 == instruction_body(m) + t {
                if let Instruction::Move { dest: m_dest, src: m_src } = m {
                    assert(rest1 =~= (enc_u16(m_dest.0) + (enc_u16(m_src.0) + t)));
                }
            }
        }
    }
    let dest = Register(r.u16()?);
    let src = Register(r.u16()?);
    let x = Instruction::Move { dest, src };
    proof {
        assert(rest1 =~= instruction_body(x) + r.rest());
    }
    Ok(x)
}

fn read_operands_get_upvalue(
    r: &mut Reader,
    offset: usize,
    Ghost(expect): Ghost<Option<(Instruction, Seq<u8>)>>,
) -> (res: Result<Instruction, BytecodeError>)
    requires
        old(r).wf(),
    ensures
        final(r).wf(),
        final(r).bytes == old(r).bytes,
        final(r).end == old(r).end,
        res matches Ok(x) ==> instruction_tag(x) == 3 && old(r).rest() == instruction_body(x) + final(r).rest(),
        expect matches Some((m, t)) ==> (instruction_tag(m) == 3 && old(r).rest() == instruction_body(m) + t ==> (res matches Ok(x) && x == m && final(r).rest() == t)),
        res matches Err(e) ==> e.code == BytecodeErrorCode::Verify,
        res matches Err(e) ==> bytecode_refusal(e),
{
    let ghost rest1 = r.rest();
    proof {
        if let Some((m, t)) = expect {
            if rest1 == instruction_body(m) + t {
                if let Instruction::GetUpvalue { dest: m_dest, upvalue: m_upvalue } = m {
                    assert(rest1 =~= (enc_u16(m_dest.0) + (enc_u16(m_upvalue.0) + t)));
                }
            }
        }
    }
    let dest = Register(r.u16()?);
    let upvalue = UpvalueId(r.u16()?);
    let x = Instruction::GetUpvalue { dest, upvalue };
    proof {
        assert(rest1 =~= instruction_body(x) + r.rest());
    }
    Ok(x)
}

fn read_operands_set_upvalue(
    r: &mut Reader,
    offset: usize,
    Ghost(expect): Ghost<Option<(Instruction, Seq<u8>)>>,
) -> (res: Result<Instruction, BytecodeError>)
    requires
        old(r).wf(),
    ensures
        final(r).wf(),
        final(r).bytes == old(r).bytes,
        final(r).end == old(r).end,
        res matches Ok(x) ==> instruction_tag(x) == 4 && old(r).rest() == instruction_body(x) + final(r).rest(),
        expect matches Some((m, t)) ==> (instruction_tag(m) == 4 && old(r).rest() == instruction_body(m) + t ==> (res matches Ok(x) && x == m && final(r).rest() == t)),
        res matches Err(e) ==> e.code == BytecodeErrorCode::Verify,
        res matches Err(e) ==> bytecode_refusal(e),
{
    let ghost rest1 = r.rest();
    proof {
        if let Some((m, t)) = expect {
            if rest1 == instruction_body(m) + t {
                if let Instruction::SetUpvalue { upvalue: m_upvalue, src: m_src } = m {
                    assert(rest1 =~= (enc_u16(m_upvalue.0) + (enc_u16(m_src.0) + t)));
                }
            }
        }
    }
    let upvalue = UpvalueId(r.u16()?);
    let src = Register(r.u16()?);
    let x = Instruction::SetUpvalue { upvalue, src };
    proof {
        assert(rest1 =~= instruction_body(x) + r.rest());
    }
    Ok(x)
}

fn read_operands_new_table(
    r: &mut Reader,
    offset: usize,
    Ghost(expect): Ghost<Option<(Instruction, Seq<u8>)>>,
) -> (res: Result<Instruction, BytecodeError>)
    requires
        old(r).wf(),
    ensures
        final(r).wf(),
        final(r).bytes == old(r).bytes,
        final(r).end == old(r).end,
        res matches Ok(x) ==> instruction_tag(x) == 5 && old(r).rest() == instruction_body(x) + final(r).rest(),
        expect matches Some((m, t)) ==> (instruction_tag(m) == 5 && old(r).rest() == instruction_body(m) + t ==> (res matches Ok(x) && x == m && final(r).rest() == t)),
        res matches Err(e) ==> e.code == BytecodeErrorCode::Verify,
        res matches Err(e) ==> bytecode_refusal(e),
{
    let ghost rest1 = r.rest();
    proof {
        if let Some((m, t)) = expect {
            if rest1 == instruction_body(m) + t {
                if let Instruction::NewTable { dest: m_dest } = m {
                    assert(rest1 =~= (enc_u16(m_dest.0) + t));
                }
            }
        }
    }
    let dest = Register(r.u16()?);
    let x = Instruction::NewTable { dest };
    proof {
        assert(rest1 =~= instruction_body(x) + r.rest());
    }
    Ok(x)
}

fn read_operands_get_table(
    r: &mut Reader,
    offset: usize,
    Ghost(expect): Ghost<Option<(Instruction, Seq<u8>)>>,
) -> (res: Result<Instruction, BytecodeError>)
    requires
        old(r).wf(),
    ensures
        final(r).wf(),
        final(r).bytes == old(r).bytes,
        final(r).end == old(r).end,
        res matches Ok(x) ==> instruction_tag(x) == 6 && old(r).rest() == instruction_body(x) + final(r).rest(),
        expect matches Some((m, t)) ==> (instruction_tag(m) == 6 && old(r).rest() == instruction_body(m) + t ==> (res matches Ok(x) && x == m && final(r).rest() == t)),
        res matches Err(e) ==> e.code == BytecodeErrorCode::Verify,
        res matches Err(e) ==> bytecode_refusal(e),
{
    let ghost rest1 = r.rest();
    proof {
        if let Some((m, t)) = expect {
            if rest1 == instruction_body(m) + t {
                if let Instruction::GetTable { dest: m_dest, table: m_table, key: m_key } = m {
                    assert(rest1 =~= (enc_u16(m_dest.0) + (enc_u16(m_table.0) + (enc_u16(m_key.0) + t))));
                }
            }
        }
    }
    let dest = Register(r.u16()?);
    let table = Register(r.u16()?);
    let key = Register(r.u16()?);
    let x = Instruction::GetTable { dest, table, key };
    proof {
        assert(rest1 =~= instruction_body(x) + r.rest());
    }
    Ok(x)
}

fn read_operands_set_table(
    r: &mut Reader,
    offset: usize,
    Ghost(expect): Ghost<Option<(Instruction, Seq<u8>)>>,
) -> (res: Result<Instruction, BytecodeError>)
    requires
        old(r).wf(),
    ensures
        final(r).wf(),
        final(r).bytes == old(r).bytes,
        final(r).end == old(r).end,
        res matches Ok(x) ==> instruction_tag(x) == 7 && old(r).rest() == instruction_body(x) + final(r).rest(),
        expect matches Some((m, t)) ==> (instruction_tag(m) == 7 && old(r).rest() == instruction_body(m) + t ==> (res matches Ok(x) && x == m && final(r).rest() == t)),
        res matches Err(e) ==> e.code == BytecodeErrorCode::Verify,
        res matches Err(e) ==> bytecode_refusal(e),
{
    let ghost rest1 = r.rest();
    proof {
        if let Some((m, t)) = expect {
            if rest1 == instruction_body(m) + t {
                if let Instruction::SetTable { table: m_table, key: m_key, value: m_value } = m {
                    assert(rest1 =~= (enc_u16(m_table.0) + (enc_u16(m_key.0) + (enc_u16(m_value.0) + t))));
                }
            }
        }
    }
    let table = Register(r.u16()?);
    let key = Register(r.u16()?);
    let value = Register(r.u16()?);
    let x = Instruction::SetTable { table, key, value };
    proof {
        assert(rest1 =~= instruction_body(x) + r.rest());
    }
    Ok(x)
}

fn read_operands_unary_op(
    r: &mut Reader,
    offset: usize,
    Ghost(expect): Ghost<Option<(Instruction, Seq<u8>)>>,
) -> (res: Result<Instruction, BytecodeError>)
    requires
        old(r).wf(),
    ensures
        final(r).wf(),
        final(r).bytes == old(r).bytes,
        final(r).end == old(r).end,
        res matches Ok(x) ==> instruction_tag(x) == 8 && old(r).rest() == instruction_body(x) + final(r).rest(),
        expect matches Some((m, t)) ==> (instruction_tag(m) == 8 && old(r).rest() == instruction_body(m) + t ==> (res matches Ok(x) && x == m && final(r).rest() == t)),
        res matches Err(e) ==> e.code == BytecodeErrorCode::Verify,
        res matches Err(e) ==> bytecode_refusal(e),
{
    let ghost rest1 = r.rest();
    proof {
        if let Some((m, t)) = expect {
            if rest1 == instruction_body(m) + t {
                if let Instruction::UnaryOp { dest: m_dest, op: m_op, src: m_src } = m {
                    assert(rest1 =~= (enc_u16(m_dest.0) + (enc_u8(unary_tag(m_op)) + (enc_u16(m_src.0) + t))));
                }
            }
        }
    }
    let dest = Register(r.u16()?);
    let op_tag = r.u8()?;
            let op = parse_unary(op_tag, offset)?;
    let src = Register(r.u16()?);
    let x = Instruction::UnaryOp { dest, op, src };
    proof {
        assert(rest1 =~= instruction_body(x) + r.rest());
    }
    Ok(x)
}

fn read_operands_binary_op(
    r: &mut Reader,
    offset: usize,
    Ghost(expect): Ghost<Option<(Instruction, Seq<u8>)>>,
) -> (res: Result<Instruction, BytecodeError>)
    requires
        old(r).wf(),
    ensures
        final(r).wf(),
        final(r).bytes == old(r).bytes,
        final(r).end == old(r).end,
        res matches Ok(x) ==> instruction_tag(x) == 9 && old(r).rest() == instruction_body(x) + final(r).rest(),
        expect matches Some((m, t)) ==> (instruction_tag(m) == 9 && old(r).rest() == instruction_body(m) + t ==> (res matches Ok(x) && x == m && final(r).rest() == t)),
        res matches Err(e) ==> e.code == BytecodeErrorCode::Verify,
        res matches Err(e) ==> bytecode_refusal(e),
{
    let ghost rest1 = r.rest();
    proof {
        if let Some((m, t)) = expect {
            if rest1 == instruction_body(m) + t {
                if let Instruction::BinaryOp { dest: m_dest, op: m_op, left: m_left, right: m_right } = m {
                    assert(rest1 =~= (enc_u16(m_dest.0) + (enc_u8(binary_tag(m_op)) + (enc_u16(m_left.0) + (enc_u16(m_right.0) + t)))));
                }
            }
        }
    }
    let dest = Register(r.u16()?);
    let op_tag = r.u8()?;
            let op = parse_binary(op_tag, offset)?;
    let left = Register(r.u16()?);
    let right = Register(r.u16()?);
    let x = Instruction::BinaryOp { dest, op, left, right };
    proof {
        assert(rest1 =~= instruction_body(x) + r.rest());
    }
    Ok(x)
}

fn read_operands_jump(
    r: &mut Reader,
    offset: usize,
    Ghost(expect): Ghost<Option<(Instruction, Seq<u8>)>>,
) -> (res: Result<Instruction, BytecodeError>)
    requires
        old(r).wf(),
    ensures
        final(r).wf(),
        final(r).bytes == old(r).bytes,
        final(r).end == old(r).end,
        res matches Ok(x) ==> instruction_tag(x) == 10 && old(r).rest() == instruction_body(x) + final(r).rest(),
        expect matches Some((m, t)) ==> (instruction_tag(m) == 10 && old(r).rest() == instruction_body(m) + t ==> (res matches Ok(x) && x == m && final(r).rest() == t)),
        res matches Err(e) ==> e.code == BytecodeErrorCode::Verify,
        res matches Err(e) ==> bytecode_refusal(e),
{
    let ghost rest1 = r.rest();
    proof {
        if let Some((m, t)) = expect {
            if rest1 == instruction_body(m) + t {
                if let Instruction::Jump { target: m_target } = m {
                    assert(rest1 =~= (enc_u32(m_target.0) + t));
                }
            }
        }
    }
    let target = InstructionOffset(r.u32()?);
    let x = Instruction::Jump { target };
    proof {
        assert(rest1 =~= instruction_body(x) + r.rest());
    }
    Ok(x)
}

fn read_operands_jump_if_false(
    r: &mut Reader,
    offset: usize,
    Ghost(expect): Ghost<Option<(Instruction, Seq<u8>)>>,
) -> (res: Result<Instruction, BytecodeError>)
    requires
        old(r).wf(),
    ensures
        final(r).wf(),
        final(r).bytes == old(r).bytes,
        final(r).end == old(r).end,
        res matches Ok(x) ==> instruction_tag(x) == 11 && old(r).rest() == instruction_body(x) + final(r).rest(),
        expect matches Some((m, t)) ==> (instruction_tag(m) == 11 && old(r).rest() == instruction_body(m) + t ==> (res matches Ok(x) && x == m && final(r).rest() == t)),
        res matches Err(e) ==> e.code == BytecodeErrorCode::Verify,
        res matches Err(e) ==> bytecode_refusal(e),
{
    let ghost rest1 = r.rest();
    proof {
        if let Some((m, t)) = expect {
            if rest1 == instruction_body(m) + t {
                if let Instruction::JumpIfFalse { condition: m_condition, target: m_target } = m {
                    assert(rest1 =~= (enc_u16(m_condition.0) + (enc_u32(m_target.0) + t)));
                }
            }
        }
    }
    let condition = Register(r.u16()?);
    let target = InstructionOffset(r.u32()?);
    let x = Instruction::JumpIfFalse { condition, target };
    proof {
        assert(rest1 =~= instruction_body(x) + r.rest());
    }
    Ok(x)
}

fn read_operands_closure(
    r: &mut Reader,
    offset: usize,
    Ghost(expect): Ghost<Option<(Instruction, Seq<u8>)>>,
) -> (res: Result<Instruction, BytecodeError>)
    requires
        old(r).wf(),
    ensures
        final(r).wf(),
        final(r).bytes == old(r).bytes,
        final(r).end == old(r).end,
        res matches Ok(x) ==> instruction_tag(x) == 12 && old(r).rest() == instruction_body(x) + final(r).rest(),
        expect matches Some((m, t)) ==> (instruction_tag(m) == 12 && old(r).rest() == instruction_body(m) + t ==> (res matches Ok(x) && x == m && final(r).rest() == t)),
        res matches Err(e) ==> e.code == BytecodeErrorCode::Verify,
        res matches Err(e) ==> bytecode_refusal(e),
{
    let ghost rest1 = r.rest();
    proof {
        if let Some((m, t)) = expect {
            if rest1 == instruction_body(m) + t {
                if let Instruction::Closure { dest: m_dest, proto: m_proto } = m {
                    assert(rest1 =~= (enc_u16(m_dest.0) + (enc_u32(m_proto.0) + t)));
                }
            }
        }
    }
    let dest = Register(r.u16()?);
    let proto = ProtoId(r.u32()?);
    let x = Instruction::Closure { dest, proto };
    proof {
        assert(rest1 =~= instruction_body(x) + r.rest());
    }
    Ok(x)
}

fn read_operands_call(
    r: &mut Reader,
    offset: usize,
    Ghost(expect): Ghost<Option<(Instruction, Seq<u8>)>>,
) -> (res: Result<Instruction, BytecodeError>)
    requires
        old(r).wf(),
    ensures
        final(r).wf(),
        final(r).bytes == old(r).bytes,
        final(r).end == old(r).end,
        res matches Ok(x) ==> instruction_tag(x) == 13 && old(r).rest() == instruction_body(x) + final(r).rest(),
        expect matches Some((m, t)) ==> (instruction_tag(m) == 13 && old(r).rest() == instruction_body(m) + t ==> (res matches Ok(x) && x == m && final(r).rest() == t)),
        res matches Err(e) ==> e.code == BytecodeErrorCode::Verify,
        res matches Err(e) ==> bytecode_refusal(e),
{
    let ghost rest1 = r.rest();
    proof {
        if let Some((m, t)) = expect {
            if rest1 == instruction_body(m) + t {
                if let Instruction::Call { base: m_base, arg_count: m_arg_count, result_mode: m_result_mode } = m {
                    assert(rest1 =~= (enc_u16(m_base.0) + (enc_u16(m_arg_count) + (enc_result_mode(m_result_mode) + t))));
                }
            }
        }
    }
    let base = Register(r.u16()?);
    let arg_count = r.u16()?;
    let result_mode = read_result_mode(r)?;
    let x = Instruction::Call { base, arg_count, result_mode };
    proof {
        assert(rest1 =~= instruction_body(x) + r.rest());
    }
    Ok(x)
}

fn read_operands_tail_call(
    r: &mut Reader,
    offset: usize,
    Ghost(expect): Ghost<Option<(Instruction, Seq<u8>)>>,
) -> (res: Result<Instruction, BytecodeError>)
    requires
        old(r).wf(),
    ensures
        final(r).wf(),
        final(r).bytes == old(r).bytes,
        final(r).end == old(r).end,
        res matches Ok(x) ==> instruction_tag(x) == 14 && old(r).rest() == instruction_body(x) + final(r).rest(),
        expect matches Some((m, t)) ==> (instruction_tag(m) == 14 && old(r).rest() == instruction_body(m) + t ==> (res matches Ok(x) && x == m && final(r).rest() == t)),
        res matches Err(e) ==> e.code == BytecodeErrorCode::Verify,
        res matches Err(e) ==> bytecode_refusal(e),
{
    let ghost rest1 = r.rest();
    proof {
        if let Some((m, t)) = expect {
            if rest1 == instruction_body(m) + t {
                if let Instruction::TailCall { base: m_base, arg_count: m_arg_count, result_mode: m_result_mode } = m {
                    assert(rest1 =~= (enc_u16(m_base.0) + (enc_u16(m_arg_count) + (enc_result_mode(m_result_mode) + t))));
                }
            }
        }
    }
    let base = Register(r.u16()?);
    let arg_count = r.u16()?;
    let result_mode = read_result_mode(r)?;
    let x = Instruction::TailCall { base, arg_count, result_mode };
    proof {
        assert(rest1 =~= instruction_body(x) + r.rest());
    }
    Ok(x)
}

fn read_operands_vararg(
    r: &mut Reader,
    offset: usize,
    Ghost(expect): Ghost<Option<(Instruction, Seq<u8>)>>,
) -> (res: Result<Instruction, BytecodeError>)
    requires
        old(r).wf(),
    ensures
        final(r).wf(),
        final(r).bytes == old(r).bytes,
        final(r).end == old(r).end,
        res matches Ok(x) ==> instruction_tag(x) == 15 && old(r).rest() == instruction_body(x) + final(r).rest(),
        expect matches Some((m, t)) ==> (instruction_tag(m) == 15 && old(r).rest() == instruction_body(m) + t ==> (res matches Ok(x) && x == m && final(r).rest() == t)),
        res matches Err(e) ==> e.code == BytecodeErrorCode::Verify,
        res matches Err(e) ==> bytecode_refusal(e),
{
    let ghost rest1 = r.rest();
    proof {
        if let Some((m, t)) = expect {
            if rest1 == instruction_body(m) + t {
                if let Instruction::Vararg { base: m_base, result_mode: m_result_mode } = m {
                    assert(rest1 =~= (enc_u16(m_base.0) + (enc_result_mode(m_result_mode) + t)));
                }
            }
        }
    }
    let base = Register(r.u16()?);
    let result_mode = read_result_mode(r)?;
    let x = Instruction::Vararg { base, result_mode };
    proof {
        assert(rest1 =~= instruction_body(x) + r.rest());
    }
    Ok(x)
}

fn read_operands_return(
    r: &mut Reader,
    offset: usize,
    Ghost(expect): Ghost<Option<(Instruction, Seq<u8>)>>,
) -> (res: Result<Instruction, BytecodeError>)
    requires
        old(r).wf(),
    ensures
        final(r).wf(),
        final(r).bytes == old(r).bytes,
        final(r).end == old(r).end,
        res matches Ok(x) ==> instruction_tag(x) == 16 && old(r).rest() == instruction_body(x) + final(r).rest(),
        expect matches Some((m, t)) ==> (instruction_tag(m) == 16 && old(r).rest() == instruction_body(m) + t ==> (res matches Ok(x) && x == m && final(r).rest() == t)),
        res matches Err(e) ==> e.code == BytecodeErrorCode::Verify,
        res matches Err(e) ==> bytecode_refusal(e),
{
    let ghost rest1 = r.rest();
    proof {
        if let Some((m, t)) = expect {
            if rest1 == instruction_body(m) + t {
                if let Instruction::Return { base: m_base, result_mode: m_result_mode } = m {
                    assert(rest1 =~= (enc_u16(m_base.0) + (enc_result_mode(m_result_mode) + t)));
                }
            }
        }
    }
    let base = Register(r.u16()?);
    let result_mode = read_result_mode(r)?;
    let x = Instruction::Return { base, result_mode };
    proof {
        assert(rest1 =~= instruction_body(x) + r.rest());
    }
    Ok(x)
}

fn read_operands_close(
    r: &mut Reader,
    offset: usize,
    Ghost(expect): Ghost<Option<(Instruction, Seq<u8>)>>,
) -> (res: Result<Instruction, BytecodeError>)
    requires
        old(r).wf(),
    ensures
        final(r).wf(),
        final(r).bytes == old(r).bytes,
        final(r).end == old(r).end,
        res matches Ok(x) ==> instruction_tag(x) == 17 && old(r).rest() == instruction_body(x) + final(r).rest(),
        expect matches Some((m, t)) ==> (instruction_tag(m) == 17 && old(r).rest() == instruction_body(m) + t ==> (res matches Ok(x) && x == m && final(r).rest() == t)),
        res matches Err(e) ==> e.code == BytecodeErrorCode::Verify,
        res matches Err(e) ==> bytecode_refusal(e),
{
    let ghost rest1 = r.rest();
    proof {
        if let Some((m, t)) = expect {
            if rest1 == instruction_body(m) + t {
                if let Instruction::Close { base: m_base, count: m_count } = m {
                    assert(rest1 =~= (enc_u16(m_base.0) + (enc_u16(m_count) + t)));
                }
            }
        }
    }
    let base = Register(r.u16()?);
    let count = r.u16()?;
    let x = Instruction::Close { base, count };
    proof {
        assert(rest1 =~= instruction_body(x) + r.rest());
    }
    Ok(x)
}

fn read_operands_numeric_for_prepare(
    r: &mut Reader,
    offset: usize,
    Ghost(expect): Ghost<Option<(Instruction, Seq<u8>)>>,
) -> (res: Result<Instruction, BytecodeError>)
    requires
        old(r).wf(),
    ensures
        final(r).wf(),
        final(r).bytes == old(r).bytes,
        final(r).end == old(r).end,
        res matches Ok(x) ==> instruction_tag(x) == 18 && old(r).rest() == instruction_body(x) + final(r).rest(),
        expect matches Some((m, t)) ==> (instruction_tag(m) == 18 && old(r).rest() == instruction_body(m) + t ==> (res matches Ok(x) && x == m && final(r).rest() == t)),
        res matches Err(e) ==> e.code == BytecodeErrorCode::Verify,
        res matches Err(e) ==> bytecode_refusal(e),
{
    let ghost rest1 = r.rest();
    proof {
        if let Some((m, t)) = expect {
            if rest1 == instruction_body(m) + t {
                if let Instruction::NumericForPrepare { control: m_control, limit: m_limit, step: m_step, visible: m_visible, exit: m_exit } = m {
                    assert(rest1 =~= (enc_u16(m_control.0) + (enc_u16(m_limit.0) + (enc_u16(m_step.0) + (enc_u16(m_visible.0) + (enc_u32(m_exit.0) + t))))));
                }
            }
        }
    }
    let control = Register(r.u16()?);
    let limit = Register(r.u16()?);
    let step = Register(r.u16()?);
    let visible = Register(r.u16()?);
    let exit = InstructionOffset(r.u32()?);
    let x = Instruction::NumericForPrepare { control, limit, step, visible, exit };
    proof {
        assert(rest1 =~= instruction_body(x) + r.rest());
    }
    Ok(x)
}

fn read_operands_numeric_for_next(
    r: &mut Reader,
    offset: usize,
    Ghost(expect): Ghost<Option<(Instruction, Seq<u8>)>>,
) -> (res: Result<Instruction, BytecodeError>)
    requires
        old(r).wf(),
    ensures
        final(r).wf(),
        final(r).bytes == old(r).bytes,
        final(r).end == old(r).end,
        res matches Ok(x) ==> instruction_tag(x) == 19 && old(r).rest() == instruction_body(x) + final(r).rest(),
        expect matches Some((m, t)) ==> (instruction_tag(m) == 19 && old(r).rest() == instruction_body(m) + t ==> (res matches Ok(x) && x == m && final(r).rest() == t)),
        res matches Err(e) ==> e.code == BytecodeErrorCode::Verify,
        res matches Err(e) ==> bytecode_refusal(e),
{
    let ghost rest1 = r.rest();
    proof {
        if let Some((m, t)) = expect {
            if rest1 == instruction_body(m) + t {
                if let Instruction::NumericForNext { control: m_control, limit: m_limit, step: m_step, visible: m_visible, target: m_target, exit: m_exit } = m {
                    assert(rest1 =~= (enc_u16(m_control.0) + (enc_u16(m_limit.0) + (enc_u16(m_step.0) + (enc_u16(m_visible.0) + (enc_u32(m_target.0) + (enc_u32(m_exit.0) + t)))))));
                }
            }
        }
    }
    let control = Register(r.u16()?);
    let limit = Register(r.u16()?);
    let step = Register(r.u16()?);
    let visible = Register(r.u16()?);
    let target = InstructionOffset(r.u32()?);
    let exit = InstructionOffset(r.u32()?);
    let x = Instruction::NumericForNext { control, limit, step, visible, target, exit };
    proof {
        assert(rest1 =~= instruction_body(x) + r.rest());
    }
    Ok(x)
}

/// One instruction: its opcode byte and operands.  An unknown opcode or
/// operator byte is refused at the instruction's offset.
pub fn read_instruction_expecting(
    r: &mut Reader,
    Ghost(expect): Ghost<Option<(Instruction, Seq<u8>)>>,
) -> (res: Result<Instruction, BytecodeError>)
    requires
        old(r).wf(),
    ensures
        final(r).wf(),
        final(r).bytes == old(r).bytes,
        final(r).end == old(r).end,
        res matches Ok(x) ==> old(r).rest() == enc_instruction(x) + final(r).rest(),
        expect matches Some((m, t)) ==> (old(r).rest() == enc_instruction(m) + t ==> (res matches Ok(x) && x == m && final(r).rest() == t)),
        res matches Err(e) ==> e.code == BytecodeErrorCode::Verify,
        old(r).rest().len() >= 1 && old(r).rest()[0] > 19 ==> (res matches Err(e) && e.code == BytecodeErrorCode::Verify && e.offset == old(r).offset),
        res matches Err(e) ==> bytecode_refusal(e),
{
    let ghost rest0 = r.rest();
    let offset = r.location();
    let ghost inner: Option<(Instruction, Seq<u8>)> = match expect {
        Some((m, t)) => if rest0 == enc_instruction(m) + t { Some((m, t)) } else { None },
        None => None,
    };
    proof {
        if let Some((m, t)) = inner {
            assert(rest0 =~= enc_u8(instruction_tag(m)) + (instruction_body(m) + t));
        }
    }
    let tag = r.u8()?;
    let ghost rest1 = r.rest();
    assert(rest0[0] == tag);
    let instruction = match tag {
        0 => read_operands_load_const(r, offset, Ghost(expect)),
        1 => read_operands_load_nil(r, offset, Ghost(expect)),
        2 => read_operands_move(r, offset, Ghost(expect)),
        3 => read_operands_get_upvalue(r, offset, Ghost(expect)),
        4 => read_operands_set_upvalue(r, offset, Ghost(expect)),
        5 => read_operands_new_table(r, offset, Ghost(expect)),
        6 => read_operands_get_table(r, offset, Ghost(expect)),
        7 => read_operands_set_table(r, offset, Ghost(expect)),
        8 => read_operands_unary_op(r, offset, Ghost(expect)),
        9 => read_operands_binary_op(r, offset, Ghost(expect)),
        10 => read_operands_jump(r, offset, Ghost(expect)),
        11 => read_operands_jump_if_false(r, offset, Ghost(expect)),
        12 => read_operands_closure(r, offset, Ghost(expect)),
        13 => read_operands_call(r, offset, Ghost(expect)),
        14 => read_operands_tail_call(r, offset, Ghost(expect)),
        15 => read_operands_vararg(r, offset, Ghost(expect)),
        16 => read_operands_return(r, offset, Ghost(expect)),
        17 => read_operands_close(r, offset, Ghost(expect)),
        18 => read_operands_numeric_for_prepare(r, offset, Ghost(expect)),
        19 => read_operands_numeric_for_next(r, offset, Ghost(expect)),
        _ => Err(verify_error(offset, "RVLU opcode 無效")),
    };
    let instruction = instruction?;
    proof {
        assert(rest0 =~= enc_instruction(instruction) + r.rest());
    }
    Ok(instruction)
}

pub fn read_environment_source(r: &mut Reader) -> (res: Result<EnvironmentSource, BytecodeError>)
    requires
        old(r).wf(),
    ensures
        final(r).wf(),
        final(r).bytes == old(r).bytes,
        final(r).end == old(r).end,
        res matches Ok(p) ==> old(r).rest() == enc_environment_source(p) + final(r).rest(),
        forall|m: EnvironmentSource, t: Seq<u8>| #[trigger] (enc_environment_source(m) + t) == old(r).rest() ==> (res matches Ok(p) && p == m && final(r).rest() == t),
        res matches Err(e) ==> e.code == BytecodeErrorCode::Verify,
        res matches Err(e) ==> bytecode_refusal(e),
{
    let ghost rest0 = r.rest();
    let at = r.location();
    proof {
        assert forall|m: EnvironmentSource, t: Seq<u8>| #[trigger] (enc_environment_source(m) + t) == rest0 implies
            (match m {
                EnvironmentSource::RootExternal => rest0 == enc_u8(0) + t,
                EnvironmentSource::ParentFrame { parent, register } => rest0 == enc_u8(1) + (enc_u32(parent.0) + (enc_u16(register.0) + t)),
                EnvironmentSource::ParentLocal { upvalue } => rest0 == enc_u8(2) + (enc_u16(upvalue.0) + t),
                EnvironmentSource::ParentUpvalue { upvalue } => rest0 == enc_u8(3) + (enc_u16(upvalue.0) + t),
            }) by {
            match m {
                EnvironmentSource::RootExternal => {},
                EnvironmentSource::ParentFrame { parent, register } => {
                    assert(rest0 =~= enc_u8(1) + (enc_u32(parent.0) + (enc_u16(register.0) + t)));
                },
                EnvironmentSource::ParentLocal { upvalue } => {
                    assert(rest0 =~= enc_u8(2) + (enc_u16(upvalue.0) + t));
                },
                EnvironmentSource::ParentUpvalue { upvalue } => {
                    assert(rest0 =~= enc_u8(3) + (enc_u16(upvalue.0) + t));
                },
            }
        }
    }
    let tag = r.u8()?;
    if tag == 0 {
        let v = EnvironmentSource::RootExternal;
        assert(rest0 =~= enc_environment_source(v) + r.rest());
        Ok(v)
    } else if tag == 1 {
        let parent = ProtoId(r.u32()?);
        let register = Register(r.u16()?);
        let v = EnvironmentSource::ParentFrame { parent, register };
        assert(rest0 =~= enc_environment_source(v) + r.rest());
        Ok(v)
    } else if tag == 2 {
        let upvalue = UpvalueId(r.u16()?);
        let v = EnvironmentSource::ParentLocal { upvalue };
        assert(rest0 =~= enc_environment_source(v) + r.rest());
        Ok(v)
    } else if tag == 3 {
        let upvalue = UpvalueId(r.u16()?);
        let v = EnvironmentSource::ParentUpvalue { upvalue };
        assert(rest0 =~= enc_environment_source(v) + r.rest());
        Ok(v)
    } else {
        Err(verify_error(at, "RVLU environment source 無效"))
    }
}

pub fn read_frame(r: &mut Reader) -> (res: Result<FrameLayout, BytecodeError>)
    requires
        old(r).wf(),
    ensures
        final(r).wf(),
        final(r).bytes == old(r).bytes,
        final(r).end == old(r).end,
        res matches Ok(f) ==> old(r).rest() == enc_frame(f) + final(r).rest(),
        forall|m: FrameLayout, t: Seq<u8>| #[trigger] (enc_frame(m) + t) == old(r).rest() ==> (res matches Ok(f) && f == m && final(r).rest() == t),
        res matches Err(e) ==> e.code == BytecodeErrorCode::Verify,
        res matches Err(e) ==> bytecode_refusal(e),
{
    let ghost rest0 = r.rest();
    proof {
        assert forall|m: FrameLayout, t: Seq<u8>| #[trigger] (enc_frame(m) + t) == rest0 implies
            rest0 == enc_u16(m.register_limit) + (enc_u16(m.initial_top.0) + (enc_u16(m.dynamic_top.0) + (enc_u16(m.return_base.0) + (enc_u16(m.environment.0) + (enc_environment_source(m.environment_source) + (enc_bool(m.registers_start_as_nil) + t)))))) by {
            assert(rest0 =~= enc_u16(m.register_limit) + (enc_u16(m.initial_top.0) + (enc_u16(m.dynamic_top.0) + (enc_u16(m.return_base.0) + (enc_u16(m.environment.0) + (enc_environment_source(m.environment_source) + (enc_bool(m.registers_start_as_nil) + t)))))));
        }
    }
    let register_limit = r.u16()?;
    let initial_top = Register(r.u16()?);
    let dynamic_top = Register(r.u16()?);
    let return_base = Register(r.u16()?);
    let environment = Register(r.u16()?);
    let environment_source = read_environment_source(r)?;
    let registers_start_as_nil = read_flag(r, "RVLU frame nil flag 無效")?;
    let f = FrameLayout {
        register_limit,
        initial_top,
        dynamic_top,
        return_base,
        environment,
        environment_source,
        registers_start_as_nil,
    };
    assert(rest0 =~= enc_frame(f) + r.rest());
    Ok(f)
}

fn parse_exit(tag: u8, offset: usize) -> (res: Result<BytecodeExitKind, BytecodeError>)
    ensures
        res matches Ok(k) ==> exit_tag(k) == tag,
        forall|k: BytecodeExitKind| #[trigger] exit_tag(k) == tag ==> res == Ok::<BytecodeExitKind, BytecodeError>(k),
        res matches Err(e) ==> e.code == BytecodeErrorCode::Verify,
        res matches Err(e) ==> bytecode_refusal(e),
{
    match tag {
        0 => Ok(BytecodeExitKind::Normal),
        1 => Ok(BytecodeExitKind::Return),
        2 => Ok(BytecodeExitKind::Break),
        3 => Ok(BytecodeExitKind::Goto),
        4 => Ok(BytecodeExitKind::Error),
        _ => Err(verify_error(offset, "RVLU close exit kind 無效")),
    }
}

pub fn read_optional_scope(r: &mut Reader) -> (res: Result<Option<u32>, BytecodeError>)
    requires
        old(r).wf(),
    ensures
        final(r).wf(),
        final(r).bytes == old(r).bytes,
        final(r).end == old(r).end,
        res matches Ok(p) ==> old(r).rest() == enc_optional_scope(p) + final(r).rest(),
        forall|m: Option<u32>, t: Seq<u8>| #[trigger] (enc_optional_scope(m) + t) == old(r).rest() ==> (res matches Ok(p) && p == m && final(r).rest() == t),
        res matches Err(e) ==> e.code == BytecodeErrorCode::Verify,
        res matches Err(e) ==> bytecode_refusal(e),
{
    let ghost rest0 = r.rest();
    let at = r.location();
    proof {
        assert forall|m: Option<u32>, t: Seq<u8>| #[trigger] (enc_optional_scope(m) + t) == rest0 implies
            (match m { Some(id) => rest0 == enc_u8(1) + (enc_u32(id) + t), None => rest0 == enc_u8(0) + t }) by {
            if let Some(id) = m {
                assert(rest0 =~= enc_u8(1) + (enc_u32(id) + t));
            }
        }
    }
    let tag = r.u8()?;
    if tag == 0 {
        assert(rest0 =~= enc_optional_scope(None) + r.rest());
        Ok(None)
    } else if tag == 1 {
        let id = r.u32()?;
        assert(rest0 =~= enc_optional_scope(Some(id)) + r.rest());
        Ok(Some(id))
    } else {
        Err(verify_error(at, "RVLU close target scope 無效"))
    }
}

/// What decoding asks of a close path beyond its encoding: a valid span,
/// counts within the limits, and as many bindings as registers.
pub open spec fn close_decodable(c: ClosePathModel, limits: VerifyLimits) -> bool {
    &&& c.span.start_byte <= c.span.end_byte
    &&& c.bindings.len() <= limits.max_constants
    &&& c.registers.len() <= limits.max_registers as nat
    &&& c.bindings.len() == c.registers.len()
    &&& close_fits(c)
}

/// `count` bindings, back to back.
fn read_bindings(
    r: &mut Reader,
    count: usize,
    Ghost(expect): Ghost<Option<(Seq<BytecodeBindingId>, Seq<u8>)>>,
) -> (res: Result<Vec<BytecodeBindingId>, BytecodeError>)
    requires
        old(r).wf(),
    ensures
        final(r).wf(),
        final(r).bytes == old(r).bytes,
        final(r).end == old(r).end,
        res matches Ok(v) ==> v@.len() == count && old(r).rest() == concat_map(v@, |b: BytecodeBindingId| enc_binding(b)) + final(r).rest(),
        expect matches Some((m, t)) ==> (old(r).rest() == concat_map(m, |b: BytecodeBindingId| enc_binding(b)) + t && m.len() == count ==> (res matches Ok(v) && v@ == m && final(r).rest() == t)),
        res matches Err(e) ==> bytecode_refusal(e),
{
    let ghost fb = |b: BytecodeBindingId| enc_binding(b);
    let ghost rest0 = r.rest();
    let ghost ok = match expect {
        Some((m, t)) => rest0 == concat_map(m, fb) + t && m.len() == count,
        None => false,
    };
    let ghost m = match expect { Some((m, t)) => m, None => Seq::empty() };
    let ghost t = match expect { Some((m, t)) => t, None => Seq::empty() };
    let mut out: Vec<BytecodeBindingId> = Vec::new();
    let mut i: usize = 0;
    proof {
        if ok {
            assert(m.subrange(0, m.len() as int) =~= m);
        }
        assert(concat_map(out@, fb) + r.rest() =~= r.rest());
    }
    while i < count
        invariant
            r.wf(),
            r.bytes == old(r).bytes,
            r.end == old(r).end,
            rest0 == old(r).rest(),
            ok == (expect matches Some((mm, tt)) && rest0 == concat_map(mm, fb) + tt && mm.len() == count),
            expect matches Some((mm, tt)) ==> mm == m && tt == t,
            i <= count,
            out@.len() == i,
            fb == (|b: BytecodeBindingId| enc_binding(b)),
            rest0 == concat_map(out@, fb) + r.rest(),
            ok ==> out@ == m.subrange(0, i as int),
            ok ==> r.rest() == concat_map(m.subrange(i as int, m.len() as int), fb) + t,
        decreases count - i,
    {
        let ghost before = r.rest();
        proof {
            if ok {
                lemma_concat_map_at(m, i as int, fb);
                assert(before =~= enc_binding(m[i as int]) + (concat_map(m.subrange(i + 1, m.len() as int), fb) + t));
            }
        }
        let b = read_binding(r)?;
        proof {
            lemma_concat_map_push(out@, b, fb);
        }
        out.push(b);
        i = i + 1;
        proof {
            assert(rest0 =~= concat_map(out@, fb) + r.rest());
            if ok {
                assert(out@ =~= m.subrange(0, i as int));
            }
        }
    }
    proof {
        if ok {
            assert(m.subrange(count as int, m.len() as int) =~= Seq::<BytecodeBindingId>::empty());
            assert(out@ =~= m);
        }
    }
    Ok(out)
}

/// `count` registers, back to back.
fn read_registers(
    r: &mut Reader,
    count: usize,
    Ghost(expect): Ghost<Option<(Seq<Register>, Seq<u8>)>>,
) -> (res: Result<Vec<Register>, BytecodeError>)
    requires
        old(r).wf(),
    ensures
        final(r).wf(),
        final(r).bytes == old(r).bytes,
        final(r).end == old(r).end,
        res matches Ok(v) ==> v@.len() == count && old(r).rest() == concat_map(v@, |x: Register| enc_reg(x)) + final(r).rest(),
        expect matches Some((m, t)) ==> (old(r).rest() == concat_map(m, |x: Register| enc_reg(x)) + t && m.len() == count ==> (res matches Ok(v) && v@ == m && final(r).rest() == t)),
        res matches Err(e) ==> bytecode_refusal(e),
{
    let ghost fr = |x: Register| enc_reg(x);
    let ghost rest0 = r.rest();
    let ghost ok = match expect {
        Some((m, t)) => rest0 == concat_map(m, fr) + t && m.len() == count,
        None => false,
    };
    let ghost m = match expect { Some((m, t)) => m, None => Seq::empty() };
    let ghost t = match expect { Some((m, t)) => t, None => Seq::empty() };
    let mut out: Vec<Register> = Vec::new();
    let mut i: usize = 0;
    proof {
        if ok {
            assert(m.subrange(0, m.len() as int) =~= m);
        }
        assert(concat_map(out@, fr) + r.rest() =~= r.rest());
    }
    while i < count
        invariant
            r.wf(),
            r.bytes == old(r).bytes,
            r.end == old(r).end,
            rest0 == old(r).rest(),
            ok == (expect matches Some((mm, tt)) && rest0 == concat_map(mm, fr) + tt && mm.len() == count),
            expect matches Some((mm, tt)) ==> mm == m && tt == t,
            i <= count,
            out@.len() == i,
            fr == (|x: Register| enc_reg(x)),
            rest0 == concat_map(out@, fr) + r.rest(),
            ok ==> out@ == m.subrange(0, i as int),
            ok ==> r.rest() == concat_map(m.subrange(i as int, m.len() as int), fr) + t,
        decreases count - i,
    {
        let ghost before = r.rest();
        proof {
            if ok {
                lemma_concat_map_at(m, i as int, fr);
                assert(before =~= enc_u16(m[i as int].0) + (concat_map(m.subrange(i + 1, m.len() as int), fr) + t));
            }
        }
        let x = Register(r.u16()?);
        proof {
            lemma_concat_map_push(out@, x, fr);
        }
        out.push(x);
        i = i + 1;
        proof {
            assert(rest0 =~= concat_map(out@, fr) + r.rest());
            if ok {
                assert(out@ =~= m.subrange(0, i as int));
            }
        }
    }
    proof {
        if ok {
            assert(m.subrange(count as int, m.len() as int) =~= Seq::<Register>::empty());
            assert(out@ =~= m);
        }
    }
    Ok(out)
}

fn read_close_head(r: &mut Reader) -> (res: Result<(BytecodeExitKind, BytecodeSpan, u32, Option<u32>), BytecodeError>)
    requires
        old(r).wf(),
    ensures
        final(r).wf(),
        final(r).bytes == old(r).bytes,
        final(r).end == old(r).end,
        res matches Ok((k, s, f, ts)) ==> old(r).rest() == enc_close_head(k, s, f, ts) + final(r).rest() && s.start_byte <= s.end_byte,
        forall|k: BytecodeExitKind, s: BytecodeSpan, f: u32, ts: Option<u32>, t: Seq<u8>|
            #[trigger] (enc_close_head(k, s, f, ts) + t) == old(r).rest() && s.start_byte <= s.end_byte
            ==> (res matches Ok((k2, s2, f2, ts2)) && k2 == k && s2 == s && f2 == f && ts2 == ts && final(r).rest() == t),
        res matches Err(e) ==> bytecode_refusal(e),
{
    let ghost rest0 = r.rest();
    proof {
        assert forall|k: BytecodeExitKind, s: BytecodeSpan, f: u32, ts: Option<u32>, t: Seq<u8>|
            #[trigger] (enc_close_head(k, s, f, ts) + t) == rest0 implies
            rest0 == enc_u8(exit_tag(k)) + (enc_span(s) + (enc_u32(f) + (enc_optional_scope(ts) + t))) by {
            assert(rest0 =~= enc_u8(exit_tag(k)) + (enc_span(s) + (enc_u32(f) + (enc_optional_scope(ts) + t))));
        }
    }
    let offset = r.location();
    let kind = parse_exit(r.u8()?, offset)?;
    let span = read_span(r)?;
    let from_scope = r.u32()?;
    let target_scope = read_optional_scope(r)?;
    assert(rest0 =~= enc_close_head(kind, span, from_scope, target_scope) + r.rest());
    Ok((kind, span, from_scope, target_scope))
}

pub fn read_close_path_expecting(
    r: &mut Reader,
    limits: &VerifyLimits,
    Ghost(expect): Ghost<Option<(ClosePathModel, Seq<u8>)>>,
) -> (res: Result<BytecodeClosePath, BytecodeError>)
    requires
        old(r).wf(),
    ensures
        final(r).wf(),
        final(r).bytes == old(r).bytes,
        final(r).end == old(r).end,
        res matches Ok(c) ==> old(r).rest() == enc_close_path(c@) + final(r).rest() && close_decodable(c@, *limits),
        expect matches Some((m, t)) ==> (old(r).rest() == enc_close_path(m) + t && close_decodable(m, *limits) ==> (res matches Ok(c) && c@ == m && final(r).rest() == t)),
        res matches Err(e) ==> bytecode_refusal(e),
{
    let ghost rest0 = r.rest();
    let ghost fb = |b: BytecodeBindingId| enc_binding(b);
    let ghost fr = |x: Register| enc_reg(x);
    let ghost ok = match expect {
        Some((m, t)) => rest0 == enc_close_path(m) + t && close_decodable(m, *limits),
        None => false,
    };
    let ghost m: ClosePathModel = match expect { Some((m, t)) => m, None => arbitrary() };
    let ghost t: Seq<u8> = match expect { Some((m, t)) => t, None => Seq::empty() };
    let ghost tail_r = enc_u32(m.registers.len() as u32) + (concat_map(m.registers, fr) + t);
    let ghost tail_b = enc_u32(m.bindings.len() as u32) + (concat_map(m.bindings, fb) + tail_r);
    proof {
        if ok {
            assert(rest0 =~= enc_close_head(m.kind, m.span, m.from_scope, m.target_scope) + tail_b);
        }
    }
    let offset = r.location();
    let (kind, span, from_scope, target_scope) = read_close_head(r)?;
    let ghost rest_count_b = r.rest();
    let binding_count = r.count(limits.max_constants, "RVLU close bindings 超過限制")?;
    let ghost rest_b = r.rest();
    let bindings = read_bindings(r, binding_count, Ghost(if ok { Some((m.bindings, tail_r)) } else { None }));
    let bindings = bindings?;
    let ghost rest_count_r = r.rest();
    let register_count = r.count(limits.max_registers as usize, "RVLU close registers 超過限制")?;
    let ghost rest_r = r.rest();
    let registers = read_registers(r, register_count, Ghost(if ok { Some((m.registers, t)) } else { None }));
    let registers = registers?;
    if bindings.len() != registers.len() {
        return Err(verify_error(offset, "RVLU close bindings/registers 長度不符"));
    }
    let c = BytecodeClosePath { kind, span, from_scope, target_scope, bindings, registers };
    proof {
        let lb = enc_list(c@.bindings, fb);
        let lr = enc_list(c@.registers, fr);
        assert(rest_count_r =~= lr + r.rest());
        assert(rest_count_b =~= lb + (lr + r.rest()));
        assert(rest0 =~= enc_close_path(c@) + r.rest());
    }
    Ok(c)
}

/// One close path, read without an expected value.
pub fn read_close_path(r: &mut Reader, limits: &VerifyLimits) -> (res: Result<BytecodeClosePath, BytecodeError>)
    requires
        old(r).wf(),
    ensures
        final(r).wf(),
        final(r).bytes == old(r).bytes,
        final(r).end == old(r).end,
        res matches Ok(c) ==> old(r).rest() == enc_close_path(c@) + final(r).rest() && close_decodable(c@, *limits),
        forall|m: ClosePathModel, t: Seq<u8>| old(r).rest() == #[trigger] (enc_close_path(m) + t) && close_decodable(m, *limits)
            ==> (res matches Ok(c) && c@ == m && final(r).rest() == t),
        res matches Err(e) ==> bytecode_refusal(e),
{
    let ghost rest0 = r.rest();
    let ghost e = if exists|m: ClosePathModel, t: Seq<u8>| rest0 == #[trigger] (enc_close_path(m) + t) && close_decodable(m, *limits) {
        Some(choose|m: ClosePathModel, t: Seq<u8>| rest0 == #[trigger] (enc_close_path(m) + t) && close_decodable(m, *limits))
    } else {
        None
    };
    let res = read_close_path_expecting(r, limits, Ghost(e));
    proof {
        assert forall|m: ClosePathModel, t: Seq<u8>| rest0 == #[trigger] (enc_close_path(m) + t) && close_decodable(m, *limits)
            implies (res matches Ok(c) && c@ == m && r.rest() == t) by {
            let (m1, t1) = e->0;
            crate::injective::peel_close_path(m1, t1, m, t);
        }
    }
    res
}

pub fn read_constant_expecting(
    r: &mut Reader,
    Ghost(expect): Ghost<Option<(ConstantModel, Seq<u8>)>>,
) -> (res: Result<BytecodeConstant, BytecodeError>)
    requires
        old(r).wf(),
    ensures
        final(r).wf(),
        final(r).bytes == old(r).bytes,
        final(r).end == old(r).end,
        res matches Ok(c) ==> old(r).rest() == enc_constant(c@) + final(r).rest() && constant_fits(c@),
        expect matches Some((m, t)) ==> (old(r).rest() == enc_constant(m) + t && constant_fits(m) ==> (res matches Ok(c) && c@ == m && final(r).rest() == t)),
        res matches Err(e) ==> bytecode_refusal(e),
{
    let ghost rest0 = r.rest();
    let tag_offset = r.location();
    proof {
        if let Some((m, t)) = expect {
            if rest0 == enc_constant(m) + t && constant_fits(m) {
                match m {
                    ConstantModel::Integer(v) => {
                        assert(rest0 =~= enc_u8(0) + (enc_i64(v) + t));
                    },
                    ConstantModel::FloatBits(v) => {
                        assert(rest0 =~= enc_u8(1) + (enc_u64(v) + t));
                    },
                    ConstantModel::Name(v) => {
                        assert(rest0 =~= enc_u8(2) + (enc_u32(v.len() as u32) + v + t));
                    },
                    ConstantModel::String(v) => {
                        assert(rest0 =~= enc_u8(3) + (enc_u32(v.len() as u32) + v + t));
                    },
                    ConstantModel::Boolean(v) => {
                        assert(rest0 =~= enc_u8(4) + (enc_u8(if v { 1u8 } else { 0u8 }) + t));
                    },
                }
            }
        }
    }
    let tag = r.u8()?;
    let ghost rest1 = r.rest();
    let c = if tag == 0 {
        BytecodeConstant::Integer(r.i64()?)
    } else if tag == 1 {
        BytecodeConstant::FloatBits(r.u64()?)
    } else if tag == 2 {
        BytecodeConstant::Name(r.blob()?)
    } else if tag == 3 {
        BytecodeConstant::String(r.blob()?)
    } else if tag == 4 {
        let flag = r.u8()?;
        if flag == 0 {
            BytecodeConstant::Boolean(false)
        } else if flag == 1 {
            BytecodeConstant::Boolean(true)
        } else {
            return Err(verify_error(tag_offset, "RVLU boolean constant 無效"));
        }
    } else {
        return Err(verify_error(tag_offset, "RVLU constant tag 無效"));
    };
    proof {
        assert(rest0 =~= enc_constant(c@) + r.rest());
    }
    Ok(c)
}

/// What decoding asks of an instruction entry beyond its encoding: a valid
/// span and a decodable close path.
pub open spec fn entry_decodable(e: InstructionModel, limits: VerifyLimits) -> bool {
    &&& e.span.start_byte <= e.span.end_byte
    &&& (e.close_path matches Some(c) ==> close_decodable(c, limits))
}

/// The effect byte after an instruction: it must carry only known bits and
/// equal the canonical flags of the instruction.
fn read_effect_flags(r: &mut Reader, instruction: &Instruction) -> (res: Result<(), BytecodeError>)
    requires
        old(r).wf(),
    ensures
        final(r).wf(),
        final(r).bytes == old(r).bytes,
        final(r).end == old(r).end,
        res is Ok ==> old(r).rest() == enc_u8(instruction.spec_effect_flags()) + final(r).rest(),
        forall|t: Seq<u8>| #[trigger] (enc_u8(instruction.spec_effect_flags()) + t) == old(r).rest() ==> (res is Ok && final(r).rest() == t),
        res matches Err(e) ==> e.code == BytecodeErrorCode::Verify && e.offset == old(r).offset,
        res matches Err(e) ==> bytecode_refusal(e),
{
    let effect_offset = r.location();
    let encoded = r.u8()?;
    let canonical = instruction.canonical_effect_flags();
    if encoded > 63 {
        return Err(verify_error(effect_offset, "RVLU instruction effect flags 含未知 bit"));
    }
    if encoded != canonical {
        return Err(verify_error(effect_offset, "RVLU instruction effect flags 與 canonical effect 不符"));
    }
    Ok(())
}

fn read_optional_close_expecting(
    r: &mut Reader,
    limits: &VerifyLimits,
    Ghost(expect): Ghost<Option<(Option<ClosePathModel>, Seq<u8>)>>,
) -> (res: Result<Option<BytecodeClosePath>, BytecodeError>)
    requires
        old(r).wf(),
    ensures
        final(r).wf(),
        final(r).bytes == old(r).bytes,
        final(r).end == old(r).end,
        res matches Ok(c) ==> old(r).rest() == enc_optional_close(close_view(c)) + final(r).rest()
            && (close_view(c) matches Some(p) ==> close_decodable(p, *limits)),
        expect matches Some((m, t)) ==> (old(r).rest() == enc_optional_close(m) + t && (m matches Some(p) ==> close_decodable(p, *limits))
            ==> (res matches Ok(c) && close_view(c) == m && final(r).rest() == t)),
        res matches Err(e) ==> bytecode_refusal(e),
{
    let ghost rest0 = r.rest();
    let ghost ok = match expect {
        Some((m, t)) => rest0 == enc_optional_close(m) + t && (m matches Some(p) ==> close_decodable(p, *limits)),
        None => false,
    };
    let ghost m: Option<ClosePathModel> = match expect { Some((m, t)) => m, None => None };
    let ghost t: Seq<u8> = match expect { Some((m, t)) => t, None => Seq::empty() };
    proof {
        if ok {
            match m {
                Some(c) => {
                    assert(rest0 =~= enc_u8(1) + (enc_close_path(c) + t));
                },
                None => {},
            }
        }
    }
    let flag_offset = r.location();
    let flag = r.u8()?;
    if flag == 0 {
        assert(rest0 =~= enc_optional_close(None) + r.rest());
        Ok(None)
    } else if flag == 1 {
        let ghost inner = if ok { match m { Some(c) => Some((c, t)), None => None } } else { None };
        let path = read_close_path_expecting(r, limits, Ghost(inner));
        let path = path?;
        assert(rest0 =~= enc_optional_close(Some(path@)) + r.rest());
        Ok(Some(path))
    } else {
        Err(verify_error(flag_offset, "RVLU instruction close flag 無效"))
    }
}

pub fn read_entry_expecting(
    r: &mut Reader,
    limits: &VerifyLimits,
    Ghost(expect): Ghost<Option<(InstructionModel, Seq<u8>)>>,
) -> (res: Result<BytecodeInstruction, BytecodeError>)
    requires
        old(r).wf(),
    ensures
        final(r).wf(),
        final(r).bytes == old(r).bytes,
        final(r).end == old(r).end,
        res matches Ok(e) ==> old(r).rest() == enc_entry(e@) + final(r).rest() && entry_decodable(e@, *limits),
        expect matches Some((m, t)) ==> (old(r).rest() == enc_entry(m) + t && entry_decodable(m, *limits) ==> (res matches Ok(e) && e@ == m && final(r).rest() == t)),
        res matches Err(e) ==> bytecode_refusal(e),
{
    let ghost rest0 = r.rest();
    let ghost ok = match expect {
        Some((m, t)) => rest0 == enc_entry(m) + t && entry_decodable(m, *limits),
        None => false,
    };
    let ghost m: InstructionModel = match expect { Some((m, t)) => m, None => arbitrary() };
    let ghost t: Seq<u8> = match expect { Some((m, t)) => t, None => Seq::empty() };
    let ghost after_span = enc_optional_close(m.close_path) + t;
    let ghost after_flags = enc_span(m.span) + after_span;
    let ghost after_instruction = enc_u8(m.instruction.spec_effect_flags()) + after_flags;
    proof {
        if ok {
            assert(rest0 =~= enc_instruction(m.instruction) + after_instruction);
        }
    }
    let instruction = read_instruction_expecting(r, Ghost(if ok { Some((m.instruction, after_instruction)) } else { None }));
    let instruction = instruction?;
    let ghost rest1 = r.rest();
    read_effect_flags(r, &instruction)?;
    let ghost rest2 = r.rest();
    let span = read_span(r)?;
    let ghost rest3 = r.rest();
    let close_path = read_optional_close_expecting(r, limits, Ghost(if ok { Some((m.close_path, t)) } else { None }));
    let close_path = close_path?;
    let e = BytecodeInstruction { instruction, span, close_path };
    proof {
        assert(rest0 =~= enc_entry(e@) + r.rest());
    }
    Ok(e)
}

fn read_binding_register(r: &mut Reader) -> (res: Result<(BytecodeBindingId, Register), BytecodeError>)
    requires
        old(r).wf(),
    ensures
        final(r).wf(),
        final(r).bytes == old(r).bytes,
        final(r).end == old(r).end,
        res matches Ok(b) ==> old(r).rest() == enc_binding_register(b) + final(r).rest(),
        forall|m: (BytecodeBindingId, Register), t: Seq<u8>| #[trigger] (enc_binding_register(m) + t) == old(r).rest() ==> (res matches Ok(b) && b == m && final(r).rest() == t),
        res matches Err(e) ==> bytecode_refusal(e),
{
    let ghost rest0 = r.rest();
    proof {
        assert forall|m: (BytecodeBindingId, Register), t: Seq<u8>| #[trigger] (enc_binding_register(m) + t) == rest0 implies rest0 == enc_binding(m.0) + (enc_u16((m.1).0) + t) by {
            assert(rest0 =~= enc_binding(m.0) + (enc_u16((m.1).0) + t));
        }
    }
    let binding = read_binding(r)?;
    let register = Register(r.u16()?);
    assert(rest0 =~= enc_binding_register((binding, register)) + r.rest());
    Ok((binding, register))
}

fn read_upvalue(r: &mut Reader) -> (res: Result<BytecodeUpvalue, BytecodeError>)
    requires
        old(r).wf(),
    ensures
        final(r).wf(),
        final(r).bytes == old(r).bytes,
        final(r).end == old(r).end,
        res matches Ok(u) ==> old(r).rest() == enc_upvalue(u) + final(r).rest(),
        forall|m: BytecodeUpvalue, t: Seq<u8>| #[trigger] (enc_upvalue(m) + t) == old(r).rest() ==> (res matches Ok(u) && u == m && final(r).rest() == t),
        res matches Err(e) ==> bytecode_refusal(e),
{
    let ghost rest0 = r.rest();
    proof {
        assert forall|m: BytecodeUpvalue, t: Seq<u8>| #[trigger] (enc_upvalue(m) + t) == rest0 implies
            (match m.source {
                BytecodeUpvalueSource::ParentLocal(b) => rest0 == enc_u16(m.id.0) + (enc_u8(0) + (enc_binding(b) + t)),
                BytecodeUpvalueSource::ParentUpvalue(p) => rest0 == enc_u16(m.id.0) + (enc_u8(1) + (enc_u16(p.0) + t)),
            }) by {
            match m.source {
                BytecodeUpvalueSource::ParentLocal(b) => {
                    assert(rest0 =~= enc_u16(m.id.0) + (enc_u8(0) + (enc_binding(b) + t)));
                },
                BytecodeUpvalueSource::ParentUpvalue(p) => {
                    assert(rest0 =~= enc_u16(m.id.0) + (enc_u8(1) + (enc_u16(p.0) + t)));
                },
            }
        }
    }
    let id = UpvalueId(r.u16()?);
    let offset = r.location();
    let tag = r.u8()?;
    let source = if tag == 0 {
        BytecodeUpvalueSource::ParentLocal(read_binding(r)?)
    } else if tag == 1 {
        BytecodeUpvalueSource::ParentUpvalue(UpvalueId(r.u16()?))
    } else {
        return Err(verify_error(offset, "RVLU upvalue source 無效"));
    };
    let u = BytecodeUpvalue { id, source };
    assert(rest0 =~= enc_upvalue(u) + r.rest());
    Ok(u)
}

fn read_constant_list(
    r: &mut Reader,
    count: usize,
    Ghost(expect): Ghost<Option<(Seq<ConstantModel>, Seq<u8>)>>,
) -> (res: Result<Vec<BytecodeConstant>, BytecodeError>)
    requires
        old(r).wf(),
    ensures
        final(r).wf(),
        final(r).bytes == old(r).bytes,
        final(r).end == old(r).end,
        res matches Ok(v) ==> v@.len() == count && old(r).rest() == concat_map(v@.map_values(|x: BytecodeConstant| x@), |c: ConstantModel| enc_constant(c)) + final(r).rest() && forall|i: int| 0 <= i < v@.len() ==> constant_fits(v@[i]@),
        expect matches Some((m, t)) ==> (old(r).rest() == concat_map(m, |c: ConstantModel| enc_constant(c)) + t && m.len() == count && (forall|i: int| 0 <= i < m.len() ==> constant_fits(m[i])) ==> (res matches Ok(v) && v@.map_values(|x: BytecodeConstant| x@) == m && final(r).rest() == t)),
        res matches Err(e) ==> bytecode_refusal(e),
{
    let ghost f = |c: ConstantModel| enc_constant(c);
    let ghost rest0 = r.rest();
    let ghost ok = match expect {
        Some((m, t)) => rest0 == concat_map(m, f) + t && m.len() == count && (forall|i: int| 0 <= i < m.len() ==> constant_fits(m[i])),
        None => false,
    };
    let ghost m: Seq<ConstantModel> = match expect { Some((m, t)) => m, None => Seq::empty() };
    let ghost t: Seq<u8> = match expect { Some((m, t)) => t, None => Seq::empty() };
    let mut out: Vec<BytecodeConstant> = Vec::new();
    let mut i: usize = 0;
    proof {
        if ok {
            assert(m.subrange(0, m.len() as int) =~= m);
        }
        assert(out@.map_values(|x: BytecodeConstant| x@) =~= Seq::<ConstantModel>::empty());
        assert(concat_map(out@.map_values(|x: BytecodeConstant| x@), f) + r.rest() =~= r.rest());
    }
    while i < count
        invariant
            r.wf(),
            r.bytes == old(r).bytes,
            r.end == old(r).end,
            rest0 == old(r).rest(),
            ok == (expect matches Some((mm, tt)) && rest0 == concat_map(mm, f) + tt && mm.len() == count && (forall|i: int| 0 <= i < mm.len() ==> constant_fits(mm[i]))),
            expect matches Some((mm, tt)) ==> mm == m && tt == t,
            i <= count,
            out@.len() == i,
            f == |c: ConstantModel| enc_constant(c),
            rest0 == concat_map(out@.map_values(|x: BytecodeConstant| x@), f) + r.rest(),
            forall|i: int| 0 <= i < out@.len() ==> constant_fits(out@[i]@),
            ok ==> out@.map_values(|x: BytecodeConstant| x@) == m.subrange(0, i as int),
            ok ==> r.rest() == concat_map(m.subrange(i as int, m.len() as int), f) + t,
        decreases count - i,
    {
        let ghost before = r.rest();
        let ghost item_expect: Option<(ConstantModel, Seq<u8>)> = if ok { Some((m[i as int], concat_map(m.subrange(i + 1, m.len() as int), f) + t)) } else { None };
        proof {
            if ok {
                lemma_concat_map_at(m, i as int, f);
                assert(before =~= enc_constant(m[i as int]) + (concat_map(m.subrange(i + 1, m.len() as int), f) + t));
                assert(constant_fits(m[i as int]));
            }
        }
        let x = read_constant_expecting(r, Ghost(item_expect));
        let x = x?;
        let ghost prev = out@.map_values(|x: BytecodeConstant| x@);
        proof {
            lemma_concat_map_push(prev, x@, f);
        }
        out.push(x);
        i = i + 1;
        proof {
            assert(out@.map_values(|x: BytecodeConstant| x@) =~= prev.push(x@));
            assert(rest0 =~= concat_map(out@.map_values(|x: BytecodeConstant| x@), f) + r.rest());
            if ok {
                assert(out@.map_values(|x: BytecodeConstant| x@) =~= m.subrange(0, i as int));
            }
        }
    }
    proof {
        if ok {
            assert(m.subrange(count as int, m.len() as int) =~= Seq::<ConstantModel>::empty());
            assert(out@.map_values(|x: BytecodeConstant| x@) =~= m);
        }
    }
    Ok(out)
}

fn read_entry_list(
    r: &mut Reader,
    count: usize,
    limits: &VerifyLimits,
    Ghost(expect): Ghost<Option<(Seq<InstructionModel>, Seq<u8>)>>,
) -> (res: Result<Vec<BytecodeInstruction>, BytecodeError>)
    requires
        old(r).wf(),
    ensures
        final(r).wf(),
        final(r).bytes == old(r).bytes,
        final(r).end == old(r).end,
        res matches Ok(v) ==> v@.len() == count && old(r).rest() == concat_map(v@.map_values(|x: BytecodeInstruction| x@), |e: InstructionModel| enc_entry(e)) + final(r).rest() && forall|i: int| 0 <= i < v@.len() ==> entry_decodable(v@[i]@, *limits),
        expect matches Some((m, t)) ==> (old(r).rest() == concat_map(m, |e: InstructionModel| enc_entry(e)) + t && m.len() == count && (forall|i: int| 0 <= i < m.len() ==> entry_decodable(m[i], *limits)) ==> (res matches Ok(v) && v@.map_values(|x: BytecodeInstruction| x@) == m && final(r).rest() == t)),
        res matches Err(e) ==> bytecode_refusal(e),
{
    let ghost f = |e: InstructionModel| enc_entry(e);
    let ghost rest0 = r.rest();
    let ghost ok = match expect {
        Some((m, t)) => rest0 == concat_map(m, f) + t && m.len() == count && (forall|i: int| 0 <= i < m.len() ==> entry_decodable(m[i], *limits)),
        None => false,
    };
    let ghost m: Seq<InstructionModel> = match expect { Some((m, t)) => m, None => Seq::empty() };
    let ghost t: Seq<u8> = match expect { Some((m, t)) => t, None => Seq::empty() };
    let mut out: Vec<BytecodeInstruction> = Vec::new();
    let mut i: usize = 0;
    proof {
        if ok {
            assert(m.subrange(0, m.len() as int) =~= m);
        }
        assert(out@.map_values(|x: BytecodeInstruction| x@) =~= Seq::<InstructionModel>::empty());
        assert(concat_map(out@.map_values(|x: BytecodeInstruction| x@), f) + r.rest() =~= r.rest());
    }
    while i < count
        invariant
            r.wf(),
            r.bytes == old(r).bytes,
            r.end == old(r).end,
            rest0 == old(r).rest(),
            ok == (expect matches Some((mm, tt)) && rest0 == concat_map(mm, f) + tt && mm.len() == count && (forall|i: int| 0 <= i < mm.len() ==> entry_decodable(mm[i], *limits))),
            expect matches Some((mm, tt)) ==> mm == m && tt == t,
            i <= count,
            out@.len() == i,
            f == |e: InstructionModel| enc_entry(e),
            rest0 == concat_map(out@.map_values(|x: BytecodeInstruction| x@), f) + r.rest(),
            forall|i: int| 0 <= i < out@.len() ==> entry_decodable(out@[i]@, *limits),
            ok ==> out@.map_values(|x: BytecodeInstruction| x@) == m.subrange(0, i as int),
            ok ==> r.rest() == concat_map(m.subrange(i as int, m.len() as int), f) + t,
        decreases count - i,
    {
        let ghost before = r.rest();
        let ghost item_expect: Option<(InstructionModel, Seq<u8>)> = if ok { Some((m[i as int], concat_map(m.subrange(i + 1, m.len() as int), f) + t)) } else { None };
        proof {
            if ok {
                lemma_concat_map_at(m, i as int, f);
                assert(before =~= enc_entry(m[i as int]) + (concat_map(m.subrange(i + 1, m.len() as int), f) + t));
                assert(entry_decodable(m[i as int], *limits));
            }
        }
        let x = read_entry_expecting(r, limits, Ghost(item_expect));
        let x = x?;
        let ghost prev = out@.map_values(|x: BytecodeInstruction| x@);
        proof {
            lemma_concat_map_push(prev, x@, f);
        }
        out.push(x);
        i = i + 1;
        proof {
            assert(out@.map_values(|x: BytecodeInstruction| x@) =~= prev.push(x@));
            assert(rest0 =~= concat_map(out@.map_values(|x: BytecodeInstruction| x@), f) + r.rest());
            if ok {
                assert(out@.map_values(|x: BytecodeInstruction| x@) =~= m.subrange(0, i as int));
            }
        }
    }
    proof {
        if ok {
            assert(m.subrange(count as int, m.len() as int) =~= Seq::<InstructionModel>::empty());
            assert(out@.map_values(|x: BytecodeInstruction| x@) =~= m);
        }
    }
    Ok(out)
}

fn read_close_path_list(
    r: &mut Reader,
    count: usize,
    limits: &VerifyLimits,
    Ghost(expect): Ghost<Option<(Seq<ClosePathModel>, Seq<u8>)>>,
) -> (res: Result<Vec<BytecodeClosePath>, BytecodeError>)
    requires
        old(r).wf(),
    ensures
        final(r).wf(),
        final(r).bytes == old(r).bytes,
        final(r).end == old(r).end,
        res matches Ok(v) ==> v@.len() == count && old(r).rest() == concat_map(v@.map_values(|x: BytecodeClosePath| x@), |c: ClosePathModel| enc_close_path(c)) + final(r).rest() && forall|i: int| 0 <= i < v@.len() ==> close_decodable(v@[i]@, *limits),
        expect matches Some((m, t)) ==> (old(r).rest() == concat_map(m, |c: ClosePathModel| enc_close_path(c)) + t && m.len() == count && (forall|i: int| 0 <= i < m.len() ==> close_decodable(m[i], *limits)) ==> (res matches Ok(v) && v@.map_values(|x: BytecodeClosePath| x@) == m && final(r).rest() == t)),
        res matches Err(e) ==> bytecode_refusal(e),
{
    let ghost f = |c: ClosePathModel| enc_close_path(c);
    let ghost rest0 = r.rest();
    let ghost ok = match expect {
        Some((m, t)) => rest0 == concat_map(m, f) + t && m.len() == count && (forall|i: int| 0 <= i < m.len() ==> close_decodable(m[i], *limits)),
        None => false,
    };
    let ghost m: Seq<ClosePathModel> = match expect { Some((m, t)) => m, None => Seq::empty() };
    let ghost t: Seq<u8> = match expect { Some((m, t)) => t, None => Seq::empty() };
    let mut out: Vec<BytecodeClosePath> = Vec::new();
    let mut i: usize = 0;
    proof {
        if ok {
            assert(m.subrange(0, m.len() as int) =~= m);
        }
        assert(out@.map_values(|x: BytecodeClosePath| x@) =~= Seq::<ClosePathModel>::empty());
        assert(concat_map(out@.map_values(|x: BytecodeClosePath| x@), f) + r.rest() =~= r.rest());
    }
    while i < count
        invariant
            r.wf(),
            r.bytes == old(r).bytes,
            r.end == old(r).end,
            rest0 == old(r).rest(),
            ok == (expect matches Some((mm, tt)) && rest0 == concat_map(mm, f) + tt && mm.len() == count && (forall|i: int| 0 <= i < mm.len() ==> close_decodable(mm[i], *limits))),
            expect matches Some((mm, tt)) ==> mm == m && tt == t,
            i <= count,
            out@.len() == i,
            f == |c: ClosePathModel| enc_close_path(c),
            rest0 == concat_map(out@.map_values(|x: BytecodeClosePath| x@), f) + r.rest(),
            forall|i: int| 0 <= i < out@.len() ==> close_decodable(out@[i]@, *limits),
            ok ==> out@.map_values(|x: BytecodeClosePath| x@) == m.subrange(0, i as int),
            ok ==> r.rest() == concat_map(m.subrange(i as int, m.len() as int), f) + t,
        decreases count - i,
    {
        let ghost before = r.rest();
        let ghost item_expect: Option<(ClosePathModel, Seq<u8>)> = if ok { Some((m[i as int], concat_map(m.subrange(i + 1, m.len() as int), f) + t)) } else { None };
        proof {
            if ok {
                lemma_concat_map_at(m, i as int, f);
                assert(before =~= enc_close_path(m[i as int]) + (concat_map(m.subrange(i + 1, m.len() as int), f) + t));
                assert(close_decodable(m[i as int], *limits));
            }
        }
        let x = read_close_path_expecting(r, limits, Ghost(item_expect));
        let x = x?;
        let ghost prev = out@.map_values(|x: BytecodeClosePath| x@);
        proof {
            lemma_concat_map_push(prev, x@, f);
        }
        out.push(x);
        i = i + 1;
        proof {
            assert(out@.map_values(|x: BytecodeClosePath| x@) =~= prev.push(x@));
            assert(rest0 =~= concat_map(out@.map_values(|x: BytecodeClosePath| x@), f) + r.rest());
            if ok {
                assert(out@.map_values(|x: BytecodeClosePath| x@) =~= m.subrange(0, i as int));
            }
        }
    }
    proof {
        if ok {
            assert(m.subrange(count as int, m.len() as int) =~= Seq::<ClosePathModel>::empty());
            assert(out@.map_values(|x: BytecodeClosePath| x@) =~= m);
        }
    }
    Ok(out)
}

fn read_binding_register_list(
    r: &mut Reader,
    count: usize,
    Ghost(expect): Ghost<Option<(Seq<(BytecodeBindingId, Register)>, Seq<u8>)>>,
) -> (res: Result<Vec<(BytecodeBindingId, Register)>, BytecodeError>)
    requires
        old(r).wf(),
    ensures
        final(r).wf(),
        final(r).bytes == old(r).bytes,
        final(r).end == old(r).end,
        res matches Ok(v) ==> v@.len() == count && old(r).rest() == concat_map(v@, |b: (BytecodeBindingId, Register)| enc_binding_register(b)) + final(r).rest() && true,
        expect matches Some((m, t)) ==> (old(r).rest() == concat_map(m, |b: (BytecodeBindingId, Register)| enc_binding_register(b)) + t && m.len() == count && true ==> (res matches Ok(v) && v@ == m && final(r).rest() == t)),
        res matches Err(e) ==> bytecode_refusal(e),
{
    let ghost f = |b: (BytecodeBindingId, Register)| enc_binding_register(b);
    let ghost rest0 = r.rest();
    let ghost ok = match expect {
        Some((m, t)) => rest0 == concat_map(m, f) + t && m.len() == count && true,
        None => false,
    };
    let ghost m: Seq<(BytecodeBindingId, Register)> = match expect { Some((m, t)) => m, None => Seq::empty() };
    let ghost t: Seq<u8> = match expect { Some((m, t)) => t, None => Seq::empty() };
    let mut out: Vec<(BytecodeBindingId, Register)> = Vec::new();
    let mut i: usize = 0;
    proof {
        if ok {
            assert(m.subrange(0, m.len() as int) =~= m);
        }
        assert(out@ =~= Seq::<(BytecodeBindingId, Register)>::empty());
        assert(concat_map(out@, f) + r.rest() =~= r.rest());
    }
    while i < count
        invariant
            r.wf(),
            r.bytes == old(r).bytes,
            r.end == old(r).end,
            rest0 == old(r).rest(),
            ok == (expect matches Some((mm, tt)) && rest0 == concat_map(mm, f) + tt && mm.len() == count && true),
            expect matches Some((mm, tt)) ==> mm == m && tt == t,
            i <= count,
            out@.len() == i,
            f == |b: (BytecodeBindingId, Register)| enc_binding_register(b),
            rest0 == concat_map(out@, f) + r.rest(),
            true,
            ok ==> out@ == m.subrange(0, i as int),
            ok ==> r.rest() == concat_map(m.subrange(i as int, m.len() as int), f) + t,
        decreases count - i,
    {
        let ghost before = r.rest();
        let ghost item_expect: Option<((BytecodeBindingId, Register), Seq<u8>)> = if ok { Some((m[i as int], concat_map(m.subrange(i + 1, m.len() as int), f) + t)) } else { None };
        proof {
            if ok {
                lemma_concat_map_at(m, i as int, f);
                assert(before =~= enc_binding_register(m[i as int]) + (concat_map(m.subrange(i + 1, m.len() as int), f) + t));
                
            }
        }
        let x = read_binding_register(r);
        let x = x?;
        let ghost prev = out@;
        proof {
            lemma_concat_map_push(prev, x, f);
        }
        out.push(x);
        i = i + 1;
        proof {
            assert(out@ =~= prev.push(x));
            assert(rest0 =~= concat_map(out@, f) + r.rest());
            if ok {
                assert(out@ =~= m.subrange(0, i as int));
            }
        }
    }
    proof {
        if ok {
            assert(m.subrange(count as int, m.len() as int) =~= Seq::<(BytecodeBindingId, Register)>::empty());
            assert(out@ =~= m);
        }
    }
    Ok(out)
}

fn read_upvalue_list(
    r: &mut Reader,
    count: usize,
    Ghost(expect): Ghost<Option<(Seq<BytecodeUpvalue>, Seq<u8>)>>,
) -> (res: Result<Vec<BytecodeUpvalue>, BytecodeError>)
    requires
        old(r).wf(),
    ensures
        final(r).wf(),
        final(r).bytes == old(r).bytes,
        final(r).end == old(r).end,
        res matches Ok(v) ==> v@.len() == count && old(r).rest() == concat_map(v@, |u: BytecodeUpvalue| enc_upvalue(u)) + final(r).rest() && true,
        expect matches Some((m, t)) ==> (old(r).rest() == concat_map(m, |u: BytecodeUpvalue| enc_upvalue(u)) + t && m.len() == count && true ==> (res matches Ok(v) && v@ == m && final(r).rest() == t)),
        res matches Err(e) ==> bytecode_refusal(e),
{
    let ghost f = |u: BytecodeUpvalue| enc_upvalue(u);
    let ghost rest0 = r.rest();
    let ghost ok = match expect {
        Some((m, t)) => rest0 == concat_map(m, f) + t && m.len() == count && true,
        None => false,
    };
    let ghost m: Seq<BytecodeUpvalue> = match expect { Some((m, t)) => m, None => Seq::empty() };
    let ghost t: Seq<u8> = match expect { Some((m, t)) => t, None => Seq::empty() };
    let mut out: Vec<BytecodeUpvalue> = Vec::new();
    let mut i: usize = 0;
    proof {
        if ok {
            assert(m.subrange(0, m.len() as int) =~= m);
        }
        assert(out@ =~= Seq::<BytecodeUpvalue>::empty());
        assert(concat_map(out@, f) + r.rest() =~= r.rest());
    }
    while i < count
        invariant
            r.wf(),
            r.bytes == old(r).bytes,
            r.end == old(r).end,
            rest0 == old(r).rest(),
            ok == (expect matches Some((mm, tt)) && rest0 == concat_map(mm, f) + tt && mm.len() == count && true),
            expect matches Some((mm, tt)) ==> mm == m && tt == t,
            i <= count,
            out@.len() == i,
            f == |u: BytecodeUpvalue| enc_upvalue(u),
            rest0 == concat_map(out@, f) + r.rest(),
            true,
            ok ==> out@ == m.subrange(0, i as int),
            ok ==> r.rest() == concat_map(m.subrange(i as int, m.len() as int), f) + t,
        decreases count - i,
    {
        let ghost before = r.rest();
        let ghost item_expect: Option<(BytecodeUpvalue, Seq<u8>)> = if ok { Some((m[i as int], concat_map(m.subrange(i + 1, m.len() as int), f) + t)) } else { None };
        proof {
            if ok {
                lemma_concat_map_at(m, i as int, f);
                assert(before =~= enc_upvalue(m[i as int]) + (concat_map(m.subrange(i + 1, m.len() as int), f) + t));
                
            }
        }
        let x = read_upvalue(r);
        let x = x?;
        let ghost prev = out@;
        proof {
            lemma_concat_map_push(prev, x, f);
        }
        out.push(x);
        i = i + 1;
        proof {
            assert(out@ =~= prev.push(x));
            assert(rest0 =~= concat_map(out@, f) + r.rest());
            if ok {
                assert(out@ =~= m.subrange(0, i as int));
            }
        }
    }
    proof {
        if ok {
            assert(m.subrange(count as int, m.len() as int) =~= Seq::<BytecodeUpvalue>::empty());
            assert(out@ =~= m);
        }
    }
    Ok(out)
}

/// One instruction: its opcode byte and operands.
pub fn read_instruction(r: &mut Reader) -> (res: Result<Instruction, BytecodeError>)
    requires
        old(r).wf(),
    ensures
        final(r).wf(),
        final(r).bytes == old(r).bytes,
        final(r).end == old(r).end,
        res matches Ok(x) ==> old(r).rest() == enc_instruction(x) + final(r).rest(),
        forall|x: Instruction, t: Seq<u8>| old(r).rest() == #[trigger] (enc_instruction(x) + t)
            ==> (res matches Ok(y) && y == x && final(r).rest() == t),
        res matches Err(e) ==> e.code == BytecodeErrorCode::Verify,
        old(r).rest().len() >= 1 && old(r).rest()[0] > 19 ==> (res matches Err(e) && e.code == BytecodeErrorCode::Verify && e.offset == old(r).offset),
        res matches Err(e) ==> bytecode_refusal(e),
{
    let ghost rest0 = r.rest();
    let ghost e = if exists|x: Instruction, t: Seq<u8>| rest0 == #[trigger] (enc_instruction(x) + t) {
        Some(choose|x: Instruction, t: Seq<u8>| rest0 == #[trigger] (enc_instruction(x) + t))
    } else {
        None
    };
    let res = read_instruction_expecting(r, Ghost(e));
    proof {
        assert forall|x: Instruction, t: Seq<u8>| rest0 == #[trigger] (enc_instruction(x) + t)
            implies (res matches Ok(y) && y == x && r.rest() == t) by {
            let (x1, t1) = e->0;
            crate::injective::peel_instruction(x1, t1, x, t);
        }
    }
    res
}

} // verus!

verus! {

/// The constants section of a prototype record.
fn decode_constants(
    bytes: &[u8],
    sec: Section,
    limits: &VerifyLimits,
    Ghost(expect): Ghost<Option<Seq<ConstantModel>>>,
) -> (res: Result<Vec<BytecodeConstant>, BytecodeError>)
    requires
        sec.start <= sec.end <= bytes@.len(),
    ensures
        res matches Ok(v) ==> bytes@.subrange(sec.start as int, sec.end as int) == enc_list(v@.map_values(|x: BytecodeConstant| x@), |c: ConstantModel| enc_constant(c))
            && v@.len() <= limits.max_constants && v@.len() <= u32_max()
            && (forall|i: int| 0 <= i < v@.len() ==> constant_fits(#[trigger] v@[i]@)),
        expect matches Some(m) ==> (bytes@.subrange(sec.start as int, sec.end as int) == enc_list(m, |c: ConstantModel| enc_constant(c))
            && m.len() <= limits.max_constants && m.len() <= u32_max()
            && (forall|i: int| 0 <= i < m.len() ==> constant_fits(#[trigger] m[i]))
            ==> (res matches Ok(v) && v@.map_values(|x: BytecodeConstant| x@) == m)),
        res matches Err(e) ==> bytecode_refusal(e),
{
    let mut r = Reader::within(bytes, sec);
    let ghost f = |c: ConstantModel| enc_constant(c);
    let ghost ok = match expect {
        Some(m) => r.rest() == enc_list(m, f) && m.len() <= limits.max_constants && m.len() <= u32_max() && (forall|i: int| 0 <= i < m.len() ==> constant_fits(#[trigger] m[i])),
        None => false,
    };
    let ghost m: Seq<ConstantModel> = match expect { Some(m) => m, None => Seq::empty() };
    proof {
        if ok {
            assert(r.rest() =~= enc_u32(m.len() as u32) + (concat_map(m, f) + Seq::<u8>::empty()));
        }
    }
    let ghost rest0 = r.rest();
    let count = r.count(limits.max_constants, "RVLU constant 數超過限制")?;
    let ghost rest1 = r.rest();
    let items = read_constant_list(&mut r, count, Ghost(if ok { Some((m, Seq::<u8>::empty())) } else { None }));
    let items = items?;
    if !r.is_empty() {
        return Err(verify_error(r.location(), "RVLU constants section 尾端 bytes 無效"));
    }
    proof {
        assert(r.rest() =~= Seq::<u8>::empty());
        assert(rest0 =~= enc_list(items@.map_values(|x: BytecodeConstant| x@), f));
    }
    Ok(items)
}

/// The instructions section of a prototype record.
fn decode_instructions(
    bytes: &[u8],
    sec: Section,
    limits: &VerifyLimits,
    Ghost(expect): Ghost<Option<Seq<InstructionModel>>>,
) -> (res: Result<Vec<BytecodeInstruction>, BytecodeError>)
    requires
        sec.start <= sec.end <= bytes@.len(),
    ensures
        res matches Ok(v) ==> bytes@.subrange(sec.start as int, sec.end as int) == enc_list(v@.map_values(|x: BytecodeInstruction| x@), |e: InstructionModel| enc_entry(e))
            && v@.len() <= limits.max_instructions && v@.len() <= u32_max()
            && (forall|i: int| 0 <= i < v@.len() ==> entry_decodable(#[trigger] v@[i]@, *limits)),
        expect matches Some(m) ==> (bytes@.subrange(sec.start as int, sec.end as int) == enc_list(m, |e: InstructionModel| enc_entry(e))
            && m.len() <= limits.max_instructions && m.len() <= u32_max()
            && (forall|i: int| 0 <= i < m.len() ==> entry_decodable(#[trigger] m[i], *limits))
            ==> (res matches Ok(v) && v@.map_values(|x: BytecodeInstruction| x@) == m)),
        res matches Err(e) ==> bytecode_refusal(e),
{
    let mut r = Reader::within(bytes, sec);
    let ghost f = |e: InstructionModel| enc_entry(e);
    let ghost ok = match expect {
        Some(m) => r.rest() == enc_list(m, f) && m.len() <= limits.max_instructions && m.len() <= u32_max() && (forall|i: int| 0 <= i < m.len() ==> entry_decodable(#[trigger] m[i], *limits)),
        None => false,
    };
    let ghost m: Seq<InstructionModel> = match expect { Some(m) => m, None => Seq::empty() };
    proof {
        if ok {
            assert(r.rest() =~= enc_u32(m.len() as u32) + (concat_map(m, f) + Seq::<u8>::empty()));
        }
    }
    let ghost rest0 = r.rest();
    let count = r.count(limits.max_instructions, "RVLU instruction 數超過限制")?;
    let items = read_entry_list(&mut r, count, limits, Ghost(if ok { Some((m, Seq::<u8>::empty())) } else { None }));
    let items = items?;
    if !r.is_empty() {
        return Err(verify_error(r.location(), "RVLU instructions section 尾端 bytes 無效"));
    }
    proof {
        assert(r.rest() =~= Seq::<u8>::empty());
        assert(rest0 =~= enc_list(items@.map_values(|x: BytecodeInstruction| x@), f));
    }
    Ok(items)
}

/// What decoding asks of a prototype's metadata beyond its encoding.
pub open spec fn metadata_parts_decodable(
    bindings: Seq<(BytecodeBindingId, Register)>,
    upvalues: Seq<BytecodeUpvalue>,
    close_paths: Seq<ClosePathModel>,
    limits: VerifyLimits,
) -> bool {
    &&& bindings.len() <= limits.max_constants
    &&& upvalues.len() <= limits.max_upvalues_per_prototype
    &&& close_paths.len() <= limits.max_constants
    &&& bindings.len() <= u32_max()
    &&& upvalues.len() <= u32_max()
    &&& close_paths.len() <= u32_max()
    &&& forall|i: int| 0 <= i < close_paths.len() ==> close_decodable(#[trigger] close_paths[i], limits)
}

pub open spec fn metadata_decodable(p: PrototypeModel, limits: VerifyLimits) -> bool {
    metadata_parts_decodable(p.binding_registers, p.upvalues, p.close_paths, limits)
}

fn read_counted_binding_registers(
    r: &mut Reader,
    limits: &VerifyLimits,
    Ghost(expect): Ghost<Option<(Seq<(BytecodeBindingId, Register)>, Seq<u8>)>>,
) -> (res: Result<Vec<(BytecodeBindingId, Register)>, BytecodeError>)
    requires
        old(r).wf(),
    ensures
        final(r).wf(),
        final(r).bytes == old(r).bytes,
        final(r).end == old(r).end,
        res matches Ok(v) ==> old(r).rest() == enc_list(v@, |b: (BytecodeBindingId, Register)| enc_binding_register(b)) + final(r).rest()
            && v@.len() <= limits.max_constants && v@.len() <= u32_max(),
        expect matches Some((m, t)) ==> (old(r).rest() == enc_list(m, |b: (BytecodeBindingId, Register)| enc_binding_register(b)) + t
            && m.len() <= limits.max_constants && m.len() <= u32_max() ==> (res matches Ok(v) && v@ == m && final(r).rest() == t)),
        res matches Err(e) ==> bytecode_refusal(e),
{
    let ghost f = |b: (BytecodeBindingId, Register)| enc_binding_register(b);
    let ghost rest0 = r.rest();
    proof {
        if let Some((m, t)) = expect {
            if rest0 == enc_list(m, f) + t {
                assert(rest0 =~= enc_u32(m.len() as u32) + (concat_map(m, f) + t));
            }
        }
    }
    let count = r.count(limits.max_constants, "RVLU binding metadata 超過限制")?;
    let ghost inner = match expect {
        Some((m, t)) => if rest0 == enc_list(m, f) + t { Some((m, t)) } else { None },
        None => None,
    };
    let items = read_binding_register_list(r, count, Ghost(inner));
    let items = items?;
    proof {
        assert(rest0 =~= enc_list(items@, f) + r.rest());
    }
    Ok(items)
}

fn read_counted_upvalues(
    r: &mut Reader,
    limits: &VerifyLimits,
    Ghost(expect): Ghost<Option<(Seq<BytecodeUpvalue>, Seq<u8>)>>,
) -> (res: Result<Vec<BytecodeUpvalue>, BytecodeError>)
    requires
        old(r).wf(),
    ensures
        final(r).wf(),
        final(r).bytes == old(r).bytes,
        final(r).end == old(r).end,
        res matches Ok(v) ==> old(r).rest() == enc_list(v@, |u: BytecodeUpvalue| enc_upvalue(u)) + final(r).rest()
            && v@.len() <= limits.max_upvalues_per_prototype && v@.len() <= u32_max(),
        expect matches Some((m, t)) ==> (old(r).rest() == enc_list(m, |u: BytecodeUpvalue| enc_upvalue(u)) + t
            && m.len() <= limits.max_upvalues_per_prototype && m.len() <= u32_max() ==> (res matches Ok(v) && v@ == m && final(r).rest() == t)),
        res matches Err(e) ==> bytecode_refusal(e),
{
    let ghost f = |u: BytecodeUpvalue| enc_upvalue(u);
    let ghost rest0 = r.rest();
    proof {
        if let Some((m, t)) = expect {
            if rest0 == enc_list(m, f) + t {
                assert(rest0 =~= enc_u32(m.len() as u32) + (concat_map(m, f) + t));
            }
        }
    }
    let count = r.count(limits.max_upvalues_per_prototype, "RVLU upvalue 數超過限制")?;
    let ghost inner = match expect {
        Some((m, t)) => if rest0 == enc_list(m, f) + t { Some((m, t)) } else { None },
        None => None,
    };
    let items = read_upvalue_list(r, count, Ghost(inner));
    let items = items?;
    proof {
        assert(rest0 =~= enc_list(items@, f) + r.rest());
    }
    Ok(items)
}

fn read_counted_close_paths(
    r: &mut Reader,
    limits: &VerifyLimits,
    Ghost(expect): Ghost<Option<(Seq<ClosePathModel>, Seq<u8>)>>,
) -> (res: Result<Vec<BytecodeClosePath>, BytecodeError>)
    requires
        old(r).wf(),
    ensures
        final(r).wf(),
        final(r).bytes == old(r).bytes,
        final(r).end == old(r).end,
        res matches Ok(v) ==> old(r).rest() == enc_list(v@.map_values(|x: BytecodeClosePath| x@), |c: ClosePathModel| enc_close_path(c)) + final(r).rest()
            && v@.len() <= limits.max_constants && v@.len() <= u32_max()
            && (forall|i: int| 0 <= i < v@.len() ==> close_decodable(#[trigger] v@[i]@, *limits)),
        expect matches Some((m, t)) ==> (old(r).rest() == enc_list(m, |c: ClosePathModel| enc_close_path(c)) + t
            && m.len() <= limits.max_constants && m.len() <= u32_max()
            && (forall|i: int| 0 <= i < m.len() ==> close_decodable(#[trigger] m[i], *limits))
            ==> (res matches Ok(v) && v@.map_values(|x: BytecodeClosePath| x@) == m && final(r).rest() == t)),
        res matches Err(e) ==> bytecode_refusal(e),
{
    let ghost f = |c: ClosePathModel| enc_close_path(c);
    let ghost rest0 = r.rest();
    proof {
        if let Some((m, t)) = expect {
            if rest0 == enc_list(m, f) + t {
                assert(rest0 =~= enc_u32(m.len() as u32) + (concat_map(m, f) + t));
            }
        }
    }
    let count = r.count(limits.max_constants, "RVLU close metadata 超過限制")?;
    let ghost inner = match expect {
        Some((m, t)) => if rest0 == enc_list(m, f) + t { Some((m, t)) } else { None },
        None => None,
    };
    let items = read_close_path_list(r, count, limits, Ghost(inner));
    let items = items?;
    proof {
        assert(rest0 =~= enc_list(items@.map_values(|x: BytecodeClosePath| x@), f) + r.rest());
    }
    Ok(items)
}

/// The metadata section of a prototype record: binding registers, upvalues
/// and close paths.
fn decode_metadata(
    bytes: &[u8],
    sec: Section,
    limits: &VerifyLimits,
    Ghost(expect): Ghost<Option<PrototypeModel>>,
) -> (res: Result<(Vec<(BytecodeBindingId, Register)>, Vec<BytecodeUpvalue>, Vec<BytecodeClosePath>), BytecodeError>)
    requires
        sec.start <= sec.end <= bytes@.len(),
    ensures
        res matches Ok((b, u, c)) ==> {
            &&& bytes@.subrange(sec.start as int, sec.end as int) == enc_metadata_parts(b@, u@, c@.map_values(|x: BytecodeClosePath| x@))
            &&& metadata_parts_decodable(b@, u@, c@.map_values(|x: BytecodeClosePath| x@), *limits)
        },
        expect matches Some(m) ==> (bytes@.subrange(sec.start as int, sec.end as int) == enc_metadata(m) && metadata_decodable(m, *limits)
            ==> (res matches Ok((b, u, c)) && b@ == m.binding_registers && u@ == m.upvalues && c@.map_values(|x: BytecodeClosePath| x@) == m.close_paths)),
        res matches Err(e) ==> bytecode_refusal(e),
{
    let mut r = Reader::within(bytes, sec);
    let ghost fb = |b: (BytecodeBindingId, Register)| enc_binding_register(b);
    let ghost fu = |u: BytecodeUpvalue| enc_upvalue(u);
    let ghost fc = |c: ClosePathModel| enc_close_path(c);
    let ghost ok = match expect {
        Some(m) => r.rest() == enc_metadata(m) && metadata_decodable(m, *limits),
        None => false,
    };
    let ghost m: PrototypeModel = match expect { Some(m) => m, None => arbitrary() };
    let ghost tail_c = enc_list(m.close_paths, fc) + Seq::<u8>::empty();
    let ghost tail_u = enc_list(m.upvalues, fu) + tail_c;
    proof {
        if ok {
            assert(r.rest() =~= enc_list(m.binding_registers, fb) + tail_u);
        }
    }
    let ghost rest0 = r.rest();
    let bindings = read_counted_binding_registers(&mut r, limits, Ghost(if ok { Some((m.binding_registers, tail_u)) } else { None }));
    let bindings = bindings?;
    let ghost rest1 = r.rest();
    let upvalues = read_counted_upvalues(&mut r, limits, Ghost(if ok { Some((m.upvalues, tail_c)) } else { None }));
    let upvalues = upvalues?;
    let ghost rest2 = r.rest();
    let closes = read_counted_close_paths(&mut r, limits, Ghost(if ok { Some((m.close_paths, Seq::<u8>::empty())) } else { None }));
    let closes = closes?;
    if !r.is_empty() {
        return Err(verify_error(r.location(), "RVLU metadata section 尾端 bytes 無效"));
    }
    proof {
        assert(r.rest() =~= Seq::<u8>::empty());
        let cv = closes@.map_values(|x: BytecodeClosePath| x@);
        assert(rest2 =~= enc_list(cv, fc));
        assert(rest0 =~= enc_metadata_parts(bindings@, upvalues@, cv));
    }
    Ok((bindings, upvalues, closes))
}

fn read_named_vararg(r: &mut Reader) -> (res: Result<Option<(BytecodeBindingId, Register)>, BytecodeError>)
    requires
        old(r).wf(),
    ensures
        final(r).wf(),
        final(r).bytes == old(r).bytes,
        final(r).end == old(r).end,
        res matches Ok(v) ==> old(r).rest() == enc_named_vararg(v) + final(r).rest(),
        forall|m: Option<(BytecodeBindingId, Register)>, t: Seq<u8>| #[trigger] (enc_named_vararg(m) + t) == old(r).rest() ==> (res matches Ok(v) && v == m && final(r).rest() == t),
        res matches Err(e) ==> bytecode_refusal(e),
{
    let ghost rest0 = r.rest();
    let at = r.location();
    let tag = r.u8()?;
    let ghost rest1 = r.rest();
    proof {
        assert forall|m: Option<(BytecodeBindingId, Register)>, t: Seq<u8>| #[trigger] (enc_named_vararg(m) + t) == rest0 implies
            (tag == (if m is Some { 1u8 } else { 0u8 }) && rest1 == match m { Some((b, g)) => enc_binding(b) + (enc_reg(g) + t), None => t }) by {
            let tm: u8 = if m is Some { 1u8 } else { 0u8 };
            let rm = match m { Some((b, g)) => enc_binding(b) + (enc_reg(g) + t), None => t };
            assert(enc_named_vararg(m) + t =~= enc_u8(tm) + rm);
            lemma_split(enc_u8(tag), rest1, enc_u8(tm), rm);
        }
    }
    if tag == 0 {
        assert(rest0 =~= enc_named_vararg(None) + r.rest());
        Ok(None)
    } else if tag == 1 {
        let binding = read_binding(r)?;
        let ghost rest2 = r.rest();
        let register = r.u16()?;
        let v = Some((binding, Register(register)));
        proof {
            assert(rest0 =~= enc_named_vararg(v) + r.rest());
            assert forall|m: Option<(BytecodeBindingId, Register)>, t: Seq<u8>| #[trigger] (enc_named_vararg(m) + t) == rest0 implies (v == m && r.rest() == t) by {
                if let Some((b, g)) = m {
                    assert(rest1 == enc_binding(b) + (enc_reg(g) + t));
                    assert(enc_binding(b) + (enc_reg(g) + t) == rest1);
                    assert(binding == b && rest2 == enc_reg(g) + t);
                    assert(enc_u16(g.0) + t == rest2);
                }
            }
        }
        Ok(v)
    } else {
        proof {
            assert forall|m: Option<(BytecodeBindingId, Register)>, t: Seq<u8>| #[trigger] (enc_named_vararg(m) + t) == rest0 implies false by {
            }
        }
        Err(verify_error(at, "RVLU named vararg flag 無效"))
    }
}

/// The head of a prototype record, field by field.
pub proof fn lemma_head_split(m: PrototypeModel, t: Seq<u8>)
    ensures
        enc_prototype_head(m) + t == enc_u32(m.id.0) + (enc_u32(m.function) + (enc_optional_proto(m.parent) + (enc_span(m.span) + (enc_u16(m.register_count) + (enc_u16(m.parameter_count) + (enc_bool(m.is_variadic) + (enc_named_vararg(m.named_vararg) + (enc_frame(m.frame) + (enc_reg(m.global_environment) + (enc_binding(m.global_environment_binding) + (t))))))))))),
{
    lemma_assoc((((((((((enc_u32(m.id.0) + enc_u32(m.function)) + enc_optional_proto(m.parent)) + enc_span(m.span)) + enc_u16(m.register_count)) + enc_u16(m.parameter_count)) + enc_bool(m.is_variadic)) + enc_named_vararg(m.named_vararg)) + enc_frame(m.frame)) + enc_reg(m.global_environment)), enc_binding(m.global_environment_binding), t);
    lemma_assoc(((((((((enc_u32(m.id.0) + enc_u32(m.function)) + enc_optional_proto(m.parent)) + enc_span(m.span)) + enc_u16(m.register_count)) + enc_u16(m.parameter_count)) + enc_bool(m.is_variadic)) + enc_named_vararg(m.named_vararg)) + enc_frame(m.frame)), enc_reg(m.global_environment), enc_binding(m.global_environment_binding) + (t));
    lemma_assoc((((((((enc_u32(m.id.0) + enc_u32(m.function)) + enc_optional_proto(m.parent)) + enc_span(m.span)) + enc_u16(m.register_count)) + enc_u16(m.parameter_count)) + enc_bool(m.is_variadic)) + enc_named_vararg(m.named_vararg)), enc_frame(m.frame), enc_reg(m.global_environment) + (enc_binding(m.global_environment_binding) + (t)));
    lemma_assoc(((((((enc_u32(m.id.0) + enc_u32(m.function)) + enc_optional_proto(m.parent)) + enc_span(m.span)) + enc_u16(m.register_count)) + enc_u16(m.parameter_count)) + enc_bool(m.is_variadic)), enc_named_vararg(m.named_vararg), enc_frame(m.frame) + (enc_reg(m.global_environment) + (enc_binding(m.global_environment_binding) + (t))));
    lemma_assoc((((((enc_u32(m.id.0) + enc_u32(m.function)) + enc_optional_proto(m.parent)) + enc_span(m.span)) + enc_u16(m.register_count)) + enc_u16(m.parameter_count)), enc_bool(m.is_variadic), enc_named_vararg(m.named_vararg) + (enc_frame(m.frame) + (enc_reg(m.global_environment) + (enc_binding(m.global_environment_binding) + (t)))));
    lemma_assoc(((((enc_u32(m.id.0) + enc_u32(m.function)) + enc_optional_proto(m.parent)) + enc_span(m.span)) + enc_u16(m.register_count)), enc_u16(m.parameter_count), enc_bool(m.is_variadic) + (enc_named_vararg(m.named_vararg) + (enc_frame(m.frame) + (enc_reg(m.global_environment) + (enc_binding(m.global_environment_binding) + (t))))));
    lemma_assoc((((enc_u32(m.id.0) + enc_u32(m.function)) + enc_optional_proto(m.parent)) + enc_span(m.span)), enc_u16(m.register_count), enc_u16(m.parameter_count) + (enc_bool(m.is_variadic) + (enc_named_vararg(m.named_vararg) + (enc_frame(m.frame) + (enc_reg(m.global_environment) + (enc_binding(m.global_environment_binding) + (t)))))));
    lemma_assoc(((enc_u32(m.id.0) + enc_u32(m.function)) + enc_optional_proto(m.parent)), enc_span(m.span), enc_u16(m.register_count) + (enc_u16(m.parameter_count) + (enc_bool(m.is_variadic) + (enc_named_vararg(m.named_vararg) + (enc_frame(m.frame) + (enc_reg(m.global_environment) + (enc_binding(m.global_environment_binding) + (t))))))));
    lemma_assoc((enc_u32(m.id.0) + enc_u32(m.function)), enc_optional_proto(m.parent), enc_span(m.span) + (enc_u16(m.register_count) + (enc_u16(m.parameter_count) + (enc_bool(m.is_variadic) + (enc_named_vararg(m.named_vararg) + (enc_frame(m.frame) + (enc_reg(m.global_environment) + (enc_binding(m.global_environment_binding) + (t)))))))));
    lemma_assoc(enc_u32(m.id.0), enc_u32(m.function), enc_optional_proto(m.parent) + (enc_span(m.span) + (enc_u16(m.register_count) + (enc_u16(m.parameter_count) + (enc_bool(m.is_variadic) + (enc_named_vararg(m.named_vararg) + (enc_frame(m.frame) + (enc_reg(m.global_environment) + (enc_binding(m.global_environment_binding) + (t))))))))));
}

/// A prototype record: its head, then its three sections.
pub proof fn lemma_prototype_split(m: PrototypeModel)
    ensures
        enc_prototype(m) == enc_prototype_head(m) + (enc_section(enc_constants(m)) + (enc_section(enc_instructions(m)) + enc_section(enc_metadata(m)))),
{
    reveal(enc_prototype);
    lemma_assoc(enc_prototype_head(m) + enc_section(enc_constants(m)), enc_section(enc_instructions(m)), enc_section(enc_metadata(m)));
    lemma_assoc(enc_prototype_head(m), enc_section(enc_constants(m)), enc_section(enc_instructions(m)) + enc_section(enc_metadata(m)));
}

pub open spec fn same_head(a: PrototypeModel, b: PrototypeModel) -> bool {
    &&& a.id == b.id
    &&& a.function == b.function
    &&& a.parent == b.parent
    &&& a.span == b.span
    &&& a.register_count == b.register_count
    &&& a.parameter_count == b.parameter_count
    &&& a.is_variadic == b.is_variadic
    &&& a.named_vararg == b.named_vararg
    &&& a.frame == b.frame
    &&& a.global_environment == b.global_environment
    &&& a.global_environment_binding == b.global_environment_binding
}

/// The fixed fields of a prototype record, as a prototype with no items yet.
fn read_prototype_head(r: &mut Reader, Ghost(expect): Ghost<Option<(PrototypeModel, Seq<u8>)>>) -> (res: Result<BytecodePrototype, BytecodeError>)
    requires
        old(r).wf(),
    ensures
        final(r).wf(),
        final(r).bytes == old(r).bytes,
        final(r).end == old(r).end,
        res matches Ok(v) ==> old(r).rest() == enc_prototype_head(v@) + final(r).rest() && v.constants@.len() == 0
            && v.instructions@.len() == 0 && v.binding_registers@.len() == 0 && v.upvalues@.len() == 0
            && v.close_paths@.len() == 0,
        res matches Ok(v) ==> v.span.start_byte <= v.span.end_byte,
        expect matches Some((m, t)) ==> (enc_prototype_head(m) + t == old(r).rest() && m.span.start_byte <= m.span.end_byte
            ==> (res matches Ok(v) && same_head(v@, m) && final(r).rest() == t)),
        res matches Err(e) ==> bytecode_refusal(e),
{
    let ghost rest0 = r.rest();
    let ghost ok = match expect { Some((m, t)) => enc_prototype_head(m) + t == rest0 && m.span.start_byte <= m.span.end_byte, None => false };
    let ghost m: PrototypeModel = match expect { Some((m, t)) => m, None => arbitrary() };
    let ghost t: Seq<u8> = match expect { Some((m, t)) => t, None => Seq::empty() };
    let ghost t0 = enc_u32(m.id.0) + (enc_u32(m.function) + (enc_optional_proto(m.parent) + (enc_span(m.span) + (enc_u16(m.register_count) + (enc_u16(m.parameter_count) + (enc_bool(m.is_variadic) + (enc_named_vararg(m.named_vararg) + (enc_frame(m.frame) + (enc_reg(m.global_environment) + (enc_binding(m.global_environment_binding) + (t)))))))))));
    let ghost t1 = enc_u32(m.function) + (enc_optional_proto(m.parent) + (enc_span(m.span) + (enc_u16(m.register_count) + (enc_u16(m.parameter_count) + (enc_bool(m.is_variadic) + (enc_named_vararg(m.named_vararg) + (enc_frame(m.frame) + (enc_reg(m.global_environment) + (enc_binding(m.global_environment_binding) + (t))))))))));
    let ghost t2 = enc_optional_proto(m.parent) + (enc_span(m.span) + (enc_u16(m.register_count) + (enc_u16(m.parameter_count) + (enc_bool(m.is_variadic) + (enc_named_vararg(m.named_vararg) + (enc_frame(m.frame) + (enc_reg(m.global_environment) + (enc_binding(m.global_environment_binding) + (t)))))))));
    let ghost t3 = enc_span(m.span) + (enc_u16(m.register_count) + (enc_u16(m.parameter_count) + (enc_bool(m.is_variadic) + (enc_named_vararg(m.named_vararg) + (enc_frame(m.frame) + (enc_reg(m.global_environment) + (enc_binding(m.global_environment_binding) + (t))))))));
    let ghost t4 = enc_u16(m.register_count) + (enc_u16(m.parameter_count) + (enc_bool(m.is_variadic) + (enc_named_vararg(m.named_vararg) + (enc_frame(m.frame) + (enc_reg(m.global_environment) + (enc_binding(m.global_environment_binding) + (t)))))));
    let ghost t5 = enc_u16(m.parameter_count) + (enc_bool(m.is_variadic) + (enc_named_vararg(m.named_vararg) + (enc_frame(m.frame) + (enc_reg(m.global_environment) + (enc_binding(m.global_environment_binding) + (t))))));
    let ghost t6 = enc_bool(m.is_variadic) + (enc_named_vararg(m.named_vararg) + (enc_frame(m.frame) + (enc_reg(m.global_environment) + (enc_binding(m.global_environment_binding) + (t)))));
    let ghost t7 = enc_named_vararg(m.named_vararg) + (enc_frame(m.frame) + (enc_reg(m.global_environment) + (enc_binding(m.global_environment_binding) + (t))));
    let ghost t8 = enc_frame(m.frame) + (enc_reg(m.global_environment) + (enc_binding(m.global_environment_binding) + (t)));
    let ghost t9 = enc_reg(m.global_environment) + (enc_binding(m.global_environment_binding) + (t));
    let ghost t10 = enc_binding(m.global_environment_binding) + (t);
    let ghost t11 = t;
    proof {
        if ok {
            lemma_head_split(m, t);
        }
    }
    let id = r.u32()?;
    assert(ok ==> (id == m.id.0 && r.rest() == t1));
    let function = r.u32()?;
    assert(ok ==> (function == m.function && r.rest() == t2));
    let parent = read_optional_proto(r)?;
    assert(ok ==> (parent == m.parent && r.rest() == t3));
    let span = read_span(r)?;
    assert(ok ==> (span == m.span && r.rest() == t4));
    let register_count = r.u16()?;
    assert(ok ==> (register_count == m.register_count && r.rest() == t5));
    let parameter_count = r.u16()?;
    assert(ok ==> (parameter_count == m.parameter_count && r.rest() == t6));
    let is_variadic = read_flag(r, "RVLU vararg flag 無效")?;
    assert(ok ==> (is_variadic == m.is_variadic && r.rest() == t7));
    let named_vararg = read_named_vararg(r)?;
    assert(ok ==> (named_vararg == m.named_vararg && r.rest() == t8));
    let frame = read_frame(r)?;
    assert(ok ==> (frame == m.frame && r.rest() == t9));
    let global_environment = Register(r.u16()?);
    assert(ok ==> (global_environment == m.global_environment && r.rest() == t10));
    let global_environment_binding = read_binding(r)?;
    assert(ok ==> (global_environment_binding == m.global_environment_binding && r.rest() == t11));
    let v = BytecodePrototype {
        id: ProtoId(id),
        function,
        parent,
        span,
        register_count,
        parameter_count,
        is_variadic,
        named_vararg,
        frame,
        global_environment,
        global_environment_binding,
        binding_registers: Vec::new(),
        constants: Vec::new(),
        upvalues: Vec::new(),
        instructions: Vec::new(),
        close_paths: Vec::new(),
    };
    proof {
        lemma_head_split(v@, r.rest());
    }
    Ok(v)
}

/// What decoding asks of a prototype beyond its encoding.
#[verifier::opaque]
pub open spec fn prototype_decodable(p: PrototypeModel, limits: VerifyLimits) -> bool {
    &&& p.span.start_byte <= p.span.end_byte
    &&& prototype_fits(p)
    &&& p.constants.len() <= limits.max_constants
    &&& p.instructions.len() <= limits.max_instructions
    &&& forall|i: int| 0 <= i < p.instructions.len() ==> entry_decodable(#[trigger] p.instructions[i], limits)
    &&& metadata_decodable(p, limits)
}

pub proof fn lemma_decodable_counts(p: PrototypeModel, limits: VerifyLimits)
    requires
        prototype_decodable(p, limits),
    ensures
        p.instructions.len() <= limits.max_instructions,
        p.constants.len() <= limits.max_constants,
        prototype_fits(p),
{
    reveal(prototype_decodable);
}

/// One prototype record.
#[verifier::spinoff_prover]
pub fn decode_prototype(
    bytes: &[u8],
    sec: Section,
    limits: &VerifyLimits,
    Ghost(expect): Ghost<Option<PrototypeModel>>,
) -> (res: Result<BytecodePrototype, BytecodeError>)
    requires
        sec.start <= sec.end <= bytes@.len(),
    ensures
        res matches Ok(v) ==> bytes@.subrange(sec.start as int, sec.end as int) == enc_prototype(v@) && prototype_decodable(v@, *limits),
        expect matches Some(m) ==> (bytes@.subrange(sec.start as int, sec.end as int) == enc_prototype(m) && prototype_decodable(m, *limits)
            ==> (res matches Ok(v) && v@ == m)),
        res matches Err(e) ==> bytecode_refusal(e),
{
    reveal(prototype_decodable);
    reveal(prototype_fits);
    let mut r = Reader::within(bytes, sec);
    let ghost rest0 = r.rest();
    let ghost ok = match expect {
        Some(m) => rest0 == enc_prototype(m) && prototype_decodable(m, *limits),
        None => false,
    };
    let ghost m: PrototypeModel = match expect { Some(m) => m, None => arbitrary() };
    let ghost empty = Seq::<u8>::empty();
    let ghost tm = enc_section(enc_metadata(m)) + empty;
    let ghost ti = enc_section(enc_instructions(m)) + tm;
    let ghost tc = enc_section(enc_constants(m)) + ti;
    proof {
        if ok {
            lemma_prototype_split(m);
            assert(enc_section(enc_metadata(m)) + empty =~= enc_section(enc_metadata(m)));
            assert(rest0 == enc_prototype_head(m) + tc);
        }
    }
    let head = read_prototype_head(&mut r, Ghost(if ok { Some((m, tc)) } else { None }))?;
    let ghost r1 = r.rest();
    let constants_section = r.section()?;
    let ghost r2 = r.rest();
    proof {
        if ok {
            assert(r1 == tc);
            assert(bytes@.subrange(constants_section.start as int, constants_section.end as int) == enc_constants(m) && r2 == ti);
        }
    }
    let constants = decode_constants(bytes, constants_section, limits, Ghost(if ok { Some(m.constants) } else { None }));
    let constants = constants?;
    let instructions_section = r.section()?;
    let ghost r3 = r.rest();
    proof {
        if ok {
            assert(bytes@.subrange(instructions_section.start as int, instructions_section.end as int) == enc_instructions(m) && r3 == tm);
        }
    }
    let instructions = decode_instructions(bytes, instructions_section, limits, Ghost(if ok { Some(m.instructions) } else { None }));
    let instructions = instructions?;
    let metadata_section = r.section()?;
    proof {
        if ok {
            assert(bytes@.subrange(metadata_section.start as int, metadata_section.end as int) == enc_metadata(m) && r.rest() == empty);
        }
    }
    let metadata = decode_metadata(bytes, metadata_section, limits, Ghost(if ok { Some(m) } else { None }));
    let (binding_registers, upvalues, close_paths) = metadata?;
    if !r.is_empty() {
        return Err(verify_error(r.location(), "RVLU prototype record 尾端 bytes 無效"));
    }
    let v = BytecodePrototype {
        id: head.id,
        function: head.function,
        parent: head.parent,
        span: head.span,
        register_count: head.register_count,
        parameter_count: head.parameter_count,
        is_variadic: head.is_variadic,
        named_vararg: head.named_vararg,
        frame: head.frame,
        global_environment: head.global_environment,
        global_environment_binding: head.global_environment_binding,
        binding_registers,
        constants,
        upvalues,
        instructions,
        close_paths,
    };
    proof {
        let p = v@;
        assert(r.rest() =~= empty);
        assert(same_head(p, head@));
        assert(enc_prototype_head(p) == enc_prototype_head(head@));
        lemma_prototype_split(p);
        assert(enc_section(enc_metadata(p)) + empty =~= enc_section(enc_metadata(p)));
        assert(rest0 == enc_prototype(p));
        if ok {
            assert(p.constants == m.constants);
            assert(p.instructions == m.instructions);
            assert(p == m);
        }
    }
    Ok(v)
}

} // verus!
