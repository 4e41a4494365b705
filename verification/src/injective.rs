//! The RVLU v2 encoding is injective: the bytes of a module determine it.
//!
//! Each `peel_*` lemma takes two encodings that agree as prefixes of the same
//! bytes and shows that the encoded values, and what follows them, are equal.

use vstd::prelude::*;

use crate::bytecode::{
    BinaryOperation, BytecodeVersion, EnvironmentSource, FrameLayout, Instruction, ProtoId,
    RVLU_V2_NUMBER, Register, ResultMode, UnaryOperation,
};
use crate::format::{
    binary_tag, close_fits, concat_map, constant_fits, enc_binding, enc_binding_register,
    enc_close_head, enc_close_path, enc_constant, enc_constants, enc_entry,
    enc_environment_source, enc_frame, enc_instruction, enc_instructions, enc_list, enc_metadata,
    enc_module, enc_named_vararg, enc_optional_close, enc_optional_proto, enc_optional_scope,
    enc_prototype, enc_prototype_head, enc_prototypes, enc_reg, enc_result_mode, enc_span,
    enc_upvalue, entry_fits, exit_tag, instruction_body, instruction_tag, lemma_concat_map_at,
    function_map, magic_bytes, module_fits, profile_tag, prototype_fits, u32_max, unary_tag,
};
use crate::module::{
    BytecodeBindingId, BytecodeExitKind, BytecodeSpan, BytecodeUpvalue, BytecodeUpvalueSource,
    ClosePathModel, ConstantModel, InstructionModel, ModuleModel, PrototypeModel,
};
use crate::wire::{
    enc_bool, enc_i64, enc_section, enc_u16, enc_u32, enc_u64, enc_u8, lemma_enc_lengths,
    lemma_i64_inj, lemma_split, lemma_u16_inj, lemma_u32_inj, lemma_u64_inj,
};

verus! {

pub proof fn lemma_assoc(p: Seq<u8>, q: Seq<u8>, r: Seq<u8>)
    ensures
        (p + q) + r == p + (q + r),
{
    assert((p + q) + r =~= p + (q + r));
}

pub proof fn peel_u8(a: u8, s: Seq<u8>, b: u8, t: Seq<u8>)
    requires
        enc_u8(a) + s == enc_u8(b) + t,
    ensures
        a == b,
        s == t,
{
    lemma_split(enc_u8(a), s, enc_u8(b), t);
    assert(enc_u8(a)[0] == a);
    assert(enc_u8(b)[0] == b);
}

pub proof fn peel_u16(a: u16, s: Seq<u8>, b: u16, t: Seq<u8>)
    requires
        enc_u16(a) + s == enc_u16(b) + t,
    ensures
        a == b,
        s == t,
{
    lemma_enc_lengths();
    lemma_split(enc_u16(a), s, enc_u16(b), t);
    lemma_u16_inj(a, b);
}

pub proof fn peel_u32(a: u32, s: Seq<u8>, b: u32, t: Seq<u8>)
    requires
        enc_u32(a) + s == enc_u32(b) + t,
    ensures
        a == b,
        s == t,
{
    lemma_enc_lengths();
    lemma_split(enc_u32(a), s, enc_u32(b), t);
    lemma_u32_inj(a, b);
}

pub proof fn peel_u64(a: u64, s: Seq<u8>, b: u64, t: Seq<u8>)
    requires
        enc_u64(a) + s == enc_u64(b) + t,
    ensures
        a == b,
        s == t,
{
    lemma_enc_lengths();
    lemma_split(enc_u64(a), s, enc_u64(b), t);
    lemma_u64_inj(a, b);
}

pub proof fn peel_i64(a: i64, s: Seq<u8>, b: i64, t: Seq<u8>)
    requires
        enc_i64(a) + s == enc_i64(b) + t,
    ensures
        a == b,
        s == t,
{
    lemma_enc_lengths();
    lemma_split(enc_i64(a), s, enc_i64(b), t);
    lemma_i64_inj(a, b);
}

pub proof fn peel_bool(a: bool, s: Seq<u8>, b: bool, t: Seq<u8>)
    requires
        enc_bool(a) + s == enc_bool(b) + t,
    ensures
        a == b,
        s == t,
{
    assert(enc_bool(a) == enc_u8(if a { 1u8 } else { 0u8 }));
    assert(enc_bool(b) == enc_u8(if b { 1u8 } else { 0u8 }));
    peel_u8(if a { 1u8 } else { 0u8 }, s, if b { 1u8 } else { 0u8 }, t);
}

/// Two byte strings of at most `u32_max` bytes, each after its length.
pub proof fn peel_blob(a: Seq<u8>, s: Seq<u8>, b: Seq<u8>, t: Seq<u8>)
    requires
        a.len() <= u32_max(),
        b.len() <= u32_max(),
        enc_u32(a.len() as u32) + a + s == enc_u32(b.len() as u32) + b + t,
    ensures
        a == b,
        s == t,
{
    assert(enc_u32(a.len() as u32) + a + s =~= enc_u32(a.len() as u32) + (a + s));
    assert(enc_u32(b.len() as u32) + b + t =~= enc_u32(b.len() as u32) + (b + t));
    peel_u32(a.len() as u32, a + s, b.len() as u32, b + t);
    lemma_split(a, s, b, t);
}

pub proof fn peel_section(a: Seq<u8>, s: Seq<u8>, b: Seq<u8>, t: Seq<u8>)
    requires
        a.len() <= u32_max(),
        b.len() <= u32_max(),
        enc_section(a) + s == enc_section(b) + t,
    ensures
        a == b,
        s == t,
{
    peel_blob(a, s, b, t);
}

pub proof fn lemma_unary_tag_inj(a: UnaryOperation, b: UnaryOperation)
    requires
        unary_tag(a) == unary_tag(b),
    ensures
        a == b,
{
}

pub proof fn lemma_binary_tag_inj(a: BinaryOperation, b: BinaryOperation)
    requires
        binary_tag(a) == binary_tag(b),
    ensures
        a == b,
{
}

pub proof fn lemma_exit_tag_inj(a: BytecodeExitKind, b: BytecodeExitKind)
    requires
        exit_tag(a) == exit_tag(b),
    ensures
        a == b,
{
}

pub proof fn peel_span(a: BytecodeSpan, s: Seq<u8>, b: BytecodeSpan, t: Seq<u8>)
    requires
        enc_span(a) + s == enc_span(b) + t,
    ensures
        a == b,
        s == t,
{
    assert(enc_span(a) + s =~= enc_u64(a.start_byte) + (enc_u64(a.end_byte) + s));
    assert(enc_span(b) + t =~= enc_u64(b.start_byte) + (enc_u64(b.end_byte) + t));
    peel_u64(a.start_byte, enc_u64(a.end_byte) + s, b.start_byte, enc_u64(b.end_byte) + t);
    peel_u64(a.end_byte, s, b.end_byte, t);
}

pub proof fn peel_binding(a: BytecodeBindingId, s: Seq<u8>, b: BytecodeBindingId, t: Seq<u8>)
    requires
        enc_binding(a) + s == enc_binding(b) + t,
    ensures
        a == b,
        s == t,
{
    assert(enc_binding(a) + s =~= enc_u32(a.function) + (enc_u32(a.ordinal) + s));
    assert(enc_binding(b) + t =~= enc_u32(b.function) + (enc_u32(b.ordinal) + t));
    peel_u32(a.function, enc_u32(a.ordinal) + s, b.function, enc_u32(b.ordinal) + t);
    peel_u32(a.ordinal, s, b.ordinal, t);
}

pub proof fn peel_reg(a: Register, s: Seq<u8>, b: Register, t: Seq<u8>)
    requires
        enc_reg(a) + s == enc_reg(b) + t,
    ensures
        a == b,
        s == t,
{
    peel_u16(a.0, s, b.0, t);
}

pub proof fn peel_optional_proto(a: Option<ProtoId>, s: Seq<u8>, b: Option<ProtoId>, t: Seq<u8>)
    requires
        enc_optional_proto(a) + s == enc_optional_proto(b) + t,
    ensures
        a == b,
        s == t,
{
    let ta: u8 = if a is Some { 1 } else { 0 };
    let tb: u8 = if b is Some { 1 } else { 0 };
    let ra = match a { Some(id) => enc_u32(id.0) + s, None => s };
    let rb = match b { Some(id) => enc_u32(id.0) + t, None => t };
    assert(enc_optional_proto(a) + s =~= enc_u8(ta) + ra);
    assert(enc_optional_proto(b) + t =~= enc_u8(tb) + rb);
    peel_u8(ta, ra, tb, rb);
    if let (Some(x), Some(y)) = (a, b) {
        peel_u32(x.0, s, y.0, t);
    }
}

pub proof fn peel_optional_scope(a: Option<u32>, s: Seq<u8>, b: Option<u32>, t: Seq<u8>)
    requires
        enc_optional_scope(a) + s == enc_optional_scope(b) + t,
    ensures
        a == b,
        s == t,
{
    let ta: u8 = if a is Some { 1 } else { 0 };
    let tb: u8 = if b is Some { 1 } else { 0 };
    let ra = match a { Some(id) => enc_u32(id) + s, None => s };
    let rb = match b { Some(id) => enc_u32(id) + t, None => t };
    assert(enc_optional_scope(a) + s =~= enc_u8(ta) + ra);
    assert(enc_optional_scope(b) + t =~= enc_u8(tb) + rb);
    peel_u8(ta, ra, tb, rb);
    if let (Some(x), Some(y)) = (a, b) {
        peel_u32(x, s, y, t);
    }
}

pub proof fn peel_result_mode(a: ResultMode, s: Seq<u8>, b: ResultMode, t: Seq<u8>)
    requires
        enc_result_mode(a) + s == enc_result_mode(b) + t,
    ensures
        a == b,
        s == t,
{
    let ta: u8 = if a is All { 1 } else { 0 };
    let tb: u8 = if b is All { 1 } else { 0 };
    let ra = match a { ResultMode::Fixed(c) => enc_u16(c) + s, ResultMode::All => s };
    let rb = match b { ResultMode::Fixed(c) => enc_u16(c) + t, ResultMode::All => t };
    assert(enc_result_mode(a) + s =~= enc_u8(ta) + ra);
    assert(enc_result_mode(b) + t =~= enc_u8(tb) + rb);
    peel_u8(ta, ra, tb, rb);
    if let (ResultMode::Fixed(x), ResultMode::Fixed(y)) = (a, b) {
        peel_u16(x, s, y, t);
    }
}

proof fn peel_body_loadconst(a: Instruction, s: Seq<u8>, b: Instruction, t: Seq<u8>)
    requires
        a is LoadConst,
        b is LoadConst,
        instruction_body(a) + s == instruction_body(b) + t,
    ensures
        a == b,
        s == t,
{
    if let (Instruction::LoadConst { dest: a_dest, constant: a_constant }, Instruction::LoadConst { dest: b_dest, constant: b_constant }) = (a, b) {
        assert(instruction_body(a) + s =~= enc_reg(a_dest) + (enc_u32(a_constant.0) + (s)));
        assert(instruction_body(b) + t =~= enc_reg(b_dest) + (enc_u32(b_constant.0) + (t)));
        peel_u16(a_dest.0, enc_u32(a_constant.0) + (s), b_dest.0, enc_u32(b_constant.0) + (t));
        peel_u32(a_constant.0, s, b_constant.0, t);
    }
}

proof fn peel_body_loadnil(a: Instruction, s: Seq<u8>, b: Instruction, t: Seq<u8>)
    requires
        a is LoadNil,
        b is LoadNil,
        instruction_body(a) + s == instruction_body(b) + t,
    ensures
        a == b,
        s == t,
{
    if let (Instruction::LoadNil { start: a_start, count: a_count }, Instruction::LoadNil { start: b_start, count: b_count }) = (a, b) {
        assert(instruction_body(a) + s =~= enc_reg(a_start) + (enc_u16(a_count) + (s)));
        assert(instruction_body(b) + t =~= enc_reg(b_start) + (enc_u16(b_count) + (t)));
        peel_u16(a_start.0, enc_u16(a_count) + (s), b_start.0, enc_u16(b_count) + (t));
        peel_u16(a_count, s, b_count, t);
    }
}

proof fn peel_body_move(a: Instruction, s: Seq<u8>, b: Instruction, t: Seq<u8>)
    requires
        a is Move,
        b is Move,
        instruction_body(a) + s == instruction_body(b) + t,
    ensures
        a == b,
        s == t,
{
    if let (Instruction::Move { dest: a_dest, src: a_src }, Instruction::Move { dest: b_dest, src: b_src }) = (a, b) {
        assert(instruction_body(a) + s =~= enc_reg(a_dest) + (enc_reg(a_src) + (s)));
        assert(instruction_body(b) + t =~= enc_reg(b_dest) + (enc_reg(b_src) + (t)));
        peel_u16(a_dest.0, enc_reg(a_src) + (s), b_dest.0, enc_reg(b_src) + (t));
        peel_u16(a_src.0, s, b_src.0, t);
    }
}

proof fn peel_body_getupvalue(a: Instruction, s: Seq<u8>, b: Instruction, t: Seq<u8>)
    requires
        a is GetUpvalue,
        b is GetUpvalue,
        instruction_body(a) + s == instruction_body(b) + t,
    ensures
        a == b,
        s == t,
{
    if let (Instruction::GetUpvalue { dest: a_dest, upvalue: a_upvalue }, Instruction::GetUpvalue { dest: b_dest, upvalue: b_upvalue }) = (a, b) {
        assert(instruction_body(a) + s =~= enc_reg(a_dest) + (enc_u16(a_upvalue.0) + (s)));
        assert(instruction_body(b) + t =~= enc_reg(b_dest) + (enc_u16(b_upvalue.0) + (t)));
        peel_u16(a_dest.0, enc_u16(a_upvalue.0) + (s), b_dest.0, enc_u16(b_upvalue.0) + (t));
        peel_u16(a_upvalue.0, s, b_upvalue.0, t);
    }
}

proof fn peel_body_setupvalue(a: Instruction, s: Seq<u8>, b: Instruction, t: Seq<u8>)
    requires
        a is SetUpvalue,
        b is SetUpvalue,
        instruction_body(a) + s == instruction_body(b) + t,
    ensures
        a == b,
        s == t,
{
    if let (Instruction::SetUpvalue { upvalue: a_upvalue, src: a_src }, Instruction::SetUpvalue { upvalue: b_upvalue, src: b_src }) = (a, b) {
        assert(instruction_body(a) + s =~= enc_u16(a_upvalue.0) + (enc_reg(a_src) + (s)));
        assert(instruction_body(b) + t =~= enc_u16(b_upvalue.0) + (enc_reg(b_src) + (t)));
        peel_u16(a_upvalue.0, enc_reg(a_src) + (s), b_upvalue.0, enc_reg(b_src) + (t));
        peel_u16(a_src.0, s, b_src.0, t);
    }
}

proof fn peel_body_newtable(a: Instruction, s: Seq<u8>, b: Instruction, t: Seq<u8>)
    requires
        a is NewTable,
        b is NewTable,
        instruction_body(a) + s == instruction_body(b) + t,
    ensures
        a == b,
        s == t,
{
    if let (Instruction::NewTable { dest: a_dest }, Instruction::NewTable { dest: b_dest }) = (a, b) {
        assert(instruction_body(a) + s =~= enc_reg(a_dest) + (s));
        assert(instruction_body(b) + t =~= enc_reg(b_dest) + (t));
        peel_u16(a_dest.0, s, b_dest.0, t);
    }
}

proof fn peel_body_gettable(a: Instruction, s: Seq<u8>, b: Instruction, t: Seq<u8>)
    requires
        a is GetTable,
        b is GetTable,
        instruction_body(a) + s == instruction_body(b) + t,
    ensures
        a == b,
        s == t,
{
    if let (Instruction::GetTable { dest: a_dest, table: a_table, key: a_key }, Instruction::GetTable { dest: b_dest, table: b_table, key: b_key }) = (a, b) {
        assert(instruction_body(a) + s =~= enc_reg(a_dest) + (enc_reg(a_table) + (enc_reg(a_key) + (s))));
        assert(instruction_body(b) + t =~= enc_reg(b_dest) + (enc_reg(b_table) + (enc_reg(b_key) + (t))));
        peel_u16(a_dest.0, enc_reg(a_table) + (enc_reg(a_key) + (s)), b_dest.0, enc_reg(b_table) + (enc_reg(b_key) + (t)));
        peel_u16(a_table.0, enc_reg(a_key) + (s), b_table.0, enc_reg(b_key) + (t));
        peel_u16(a_key.0, s, b_key.0, t);
    }
}

proof fn peel_body_settable(a: Instruction, s: Seq<u8>, b: Instruction, t: Seq<u8>)
    requires
        a is SetTable,
        b is SetTable,
        instruction_body(a) + s == instruction_body(b) + t,
    ensures
        a == b,
        s == t,
{
    if let (Instruction::SetTable { table: a_table, key: a_key, value: a_value }, Instruction::SetTable { table: b_table, key: b_key, value: b_value }) = (a, b) {
        assert(instruction_body(a) + s =~= enc_reg(a_table) + (enc_reg(a_key) + (enc_reg(a_value) + (s))));
        assert(instruction_body(b) + t =~= enc_reg(b_table) + (enc_reg(b_key) + (enc_reg(b_value) + (t))));
        peel_u16(a_table.0, enc_reg(a_key) + (enc_reg(a_value) + (s)), b_table.0, enc_reg(b_key) + (enc_reg(b_value) + (t)));
        peel_u16(a_key.0, enc_reg(a_value) + (s), b_key.0, enc_reg(b_value) + (t));
        peel_u16(a_value.0, s, b_value.0, t);
    }
}

proof fn peel_body_unaryop(a: Instruction, s: Seq<u8>, b: Instruction, t: Seq<u8>)
    requires
        a is UnaryOp,
        b is UnaryOp,
        instruction_body(a) + s == instruction_body(b) + t,
    ensures
        a == b,
        s == t,
{
    if let (Instruction::UnaryOp { dest: a_dest, op: a_op, src: a_src }, Instruction::UnaryOp { dest: b_dest, op: b_op, src: b_src }) = (a, b) {
        assert(instruction_body(a) + s =~= enc_reg(a_dest) + (enc_u8(unary_tag(a_op)) + (enc_reg(a_src) + (s))));
        assert(instruction_body(b) + t =~= enc_reg(b_dest) + (enc_u8(unary_tag(b_op)) + (enc_reg(b_src) + (t))));
        peel_u16(a_dest.0, enc_u8(unary_tag(a_op)) + (enc_reg(a_src) + (s)), b_dest.0, enc_u8(unary_tag(b_op)) + (enc_reg(b_src) + (t)));
        peel_u8(unary_tag(a_op), enc_reg(a_src) + (s), unary_tag(b_op), enc_reg(b_src) + (t));
        lemma_unary_tag_inj(a_op, b_op);
        peel_u16(a_src.0, s, b_src.0, t);
    }
}

proof fn peel_body_binaryop(a: Instruction, s: Seq<u8>, b: Instruction, t: Seq<u8>)
    requires
        a is BinaryOp,
        b is BinaryOp,
        instruction_body(a) + s == instruction_body(b) + t,
    ensures
        a == b,
        s == t,
{
    if let (Instruction::BinaryOp { dest: a_dest, op: a_op, left: a_left, right: a_right }, Instruction::BinaryOp { dest: b_dest, op: b_op, left: b_left, right: b_right }) = (a, b) {
        assert(instruction_body(a) + s =~= enc_reg(a_dest) + (enc_u8(binary_tag(a_op)) + (enc_reg(a_left) + (enc_reg(a_right) + (s)))));
        assert(instruction_body(b) + t =~= enc_reg(b_dest) + (enc_u8(binary_tag(b_op)) + (enc_reg(b_left) + (enc_reg(b_right) + (t)))));
        peel_u16(a_dest.0, enc_u8(binary_tag(a_op)) + (enc_reg(a_left) + (enc_reg(a_right) + (s))), b_dest.0, enc_u8(binary_tag(b_op)) + (enc_reg(b_left) + (enc_reg(b_right) + (t))));
        peel_u8(binary_tag(a_op), enc_reg(a_left) + (enc_reg(a_right) + (s)), binary_tag(b_op), enc_reg(b_left) + (enc_reg(b_right) + (t)));
        lemma_binary_tag_inj(a_op, b_op);
        peel_u16(a_left.0, enc_reg(a_right) + (s), b_left.0, enc_reg(b_right) + (t));
        peel_u16(a_right.0, s, b_right.0, t);
    }
}

proof fn peel_body_jump(a: Instruction, s: Seq<u8>, b: Instruction, t: Seq<u8>)
    requires
        a is Jump,
        b is Jump,
        instruction_body(a) + s == instruction_body(b) + t,
    ensures
        a == b,
        s == t,
{
    if let (Instruction::Jump { target: a_target }, Instruction::Jump { target: b_target }) = (a, b) {
        assert(instruction_body(a) + s =~= enc_u32(a_target.0) + (s));
        assert(instruction_body(b) + t =~= enc_u32(b_target.0) + (t));
        peel_u32(a_target.0, s, b_target.0, t);
    }
}

proof fn peel_body_jumpiffalse(a: Instruction, s: Seq<u8>, b: Instruction, t: Seq<u8>)
    requires
        a is JumpIfFalse,
        b is JumpIfFalse,
        instruction_body(a) + s == instruction_body(b) + t,
    ensures
        a == b,
        s == t,
{
    if let (Instruction::JumpIfFalse { condition: a_condition, target: a_target }, Instruction::JumpIfFalse { condition: b_condition, target: b_target }) = (a, b) {
        assert(instruction_body(a) + s =~= enc_reg(a_condition) + (enc_u32(a_target.0) + (s)));
        assert(instruction_body(b) + t =~= enc_reg(b_condition) + (enc_u32(b_target.0) + (t)));
        peel_u16(a_condition.0, enc_u32(a_target.0) + (s), b_condition.0, enc_u32(b_target.0) + (t));
        peel_u32(a_target.0, s, b_target.0, t);
    }
}

proof fn peel_body_closure(a: Instruction, s: Seq<u8>, b: Instruction, t: Seq<u8>)
    requires
        a is Closure,
        b is Closure,
        instruction_body(a) + s == instruction_body(b) + t,
    ensures
        a == b,
        s == t,
{
    if let (Instruction::Closure { dest: a_dest, proto: a_proto }, Instruction::Closure { dest: b_dest, proto: b_proto }) = (a, b) {
        assert(instruction_body(a) + s =~= enc_reg(a_dest) + (enc_u32(a_proto.0) + (s)));
        assert(instruction_body(b) + t =~= enc_reg(b_dest) + (enc_u32(b_proto.0) + (t)));
        peel_u16(a_dest.0, enc_u32(a_proto.0) + (s), b_dest.0, enc_u32(b_proto.0) + (t));
        peel_u32(a_proto.0, s, b_proto.0, t);
    }
}

proof fn peel_body_call(a: Instruction, s: Seq<u8>, b: Instruction, t: Seq<u8>)
    requires
        a is Call,
        b is Call,
        instruction_body(a) + s == instruction_body(b) + t,
    ensures
        a == b,
        s == t,
{
    if let (Instruction::Call { base: a_base, arg_count: a_arg_count, result_mode: a_result_mode }, Instruction::Call { base: b_base, arg_count: b_arg_count, result_mode: b_result_mode }) = (a, b) {
        assert(instruction_body(a) + s =~= enc_reg(a_base) + (enc_u16(a_arg_count) + (enc_result_mode(a_result_mode) + (s))));
        assert(instruction_body(b) + t =~= enc_reg(b_base) + (enc_u16(b_arg_count) + (enc_result_mode(b_result_mode) + (t))));
        peel_u16(a_base.0, enc_u16(a_arg_count) + (enc_result_mode(a_result_mode) + (s)), b_base.0, enc_u16(b_arg_count) + (enc_result_mode(b_result_mode) + (t)));
        peel_u16(a_arg_count, enc_result_mode(a_result_mode) + (s), b_arg_count, enc_result_mode(b_result_mode) + (t));
        peel_result_mode(a_result_mode, s, b_result_mode, t);
    }
}

proof fn peel_body_tailcall(a: Instruction, s: Seq<u8>, b: Instruction, t: Seq<u8>)
    requires
        a is TailCall,
        b is TailCall,
        instruction_body(a) + s == instruction_body(b) + t,
    ensures
        a == b,
        s == t,
{
    if let (Instruction::TailCall { base: a_base, arg_count: a_arg_count, result_mode: a_result_mode }, Instruction::TailCall { base: b_base, arg_count: b_arg_count, result_mode: b_result_mode }) = (a, b) {
        assert(instruction_body(a) + s =~= enc_reg(a_base) + (enc_u16(a_arg_count) + (enc_result_mode(a_result_mode) + (s))));
        assert(instruction_body(b) + t =~= enc_reg(b_base) + (enc_u16(b_arg_count) + (enc_result_mode(b_result_mode) + (t))));
        peel_u16(a_base.0, enc_u16(a_arg_count) + (enc_result_mode(a_result_mode) + (s)), b_base.0, enc_u16(b_arg_count) + (enc_result_mode(b_result_mode) + (t)));
        peel_u16(a_arg_count, enc_result_mode(a_result_mode) + (s), b_arg_count, enc_result_mode(b_result_mode) + (t));
        peel_result_mode(a_result_mode, s, b_result_mode, t);
    }
}

proof fn peel_body_vararg(a: Instruction, s: Seq<u8>, b: Instruction, t: Seq<u8>)
    requires
        a is Vararg,
        b is Vararg,
        instruction_body(a) + s == instruction_body(b) + t,
    ensures
        a == b,
        s == t,
{
    if let (Instruction::Vararg { base: a_base, result_mode: a_result_mode }, Instruction::Vararg { base: b_base, result_mode: b_result_mode }) = (a, b) {
        assert(instruction_body(a) + s =~= enc_reg(a_base) + (enc_result_mode(a_result_mode) + (s)));
        assert(instruction_body(b) + t =~= enc_reg(b_base) + (enc_result_mode(b_result_mode) + (t)));
        peel_u16(a_base.0, enc_result_mode(a_result_mode) + (s), b_base.0, enc_result_mode(b_result_mode) + (t));
        peel_result_mode(a_result_mode, s, b_result_mode, t);
    }
}

proof fn peel_body_return(a: Instruction, s: Seq<u8>, b: Instruction, t: Seq<u8>)
    requires
        a is Return,
        b is Return,
        instruction_body(a) + s == instruction_body(b) + t,
    ensures
        a == b,
        s == t,
{
    if let (Instruction::Return { base: a_base, result_mode: a_result_mode }, Instruction::Return { base: b_base, result_mode: b_result_mode }) = (a, b) {
        assert(instruction_body(a) + s =~= enc_reg(a_base) + (enc_result_mode(a_result_mode) + (s)));
        assert(instruction_body(b) + t =~= enc_reg(b_base) + (enc_result_mode(b_result_mode) + (t)));
        peel_u16(a_base.0, enc_result_mode(a_result_mode) + (s), b_base.0, enc_result_mode(b_result_mode) + (t));
        peel_result_mode(a_result_mode, s, b_result_mode, t);
    }
}

proof fn peel_body_close(a: Instruction, s: Seq<u8>, b: Instruction, t: Seq<u8>)
    requires
        a is Close,
        b is Close,
        instruction_body(a) + s == instruction_body(b) + t,
    ensures
        a == b,
        s == t,
{
    if let (Instruction::Close { base: a_base, count: a_count }, Instruction::Close { base: b_base, count: b_count }) = (a, b) {
        assert(instruction_body(a) + s =~= enc_reg(a_base) + (enc_u16(a_count) + (s)));
        assert(instruction_body(b) + t =~= enc_reg(b_base) + (enc_u16(b_count) + (t)));
        peel_u16(a_base.0, enc_u16(a_count) + (s), b_base.0, enc_u16(b_count) + (t));
        peel_u16(a_count, s, b_count, t);
    }
}

proof fn peel_body_numericforprepare(a: Instruction, s: Seq<u8>, b: Instruction, t: Seq<u8>)
    requires
        a is NumericForPrepare,
        b is NumericForPrepare,
        instruction_body(a) + s == instruction_body(b) + t,
    ensures
        a == b,
        s == t,
{
    if let (Instruction::NumericForPrepare { control: a_control, limit: a_limit, step: a_step, visible: a_visible, exit: a_exit }, Instruction::NumericForPrepare { control: b_control, limit: b_limit, step: b_step, visible: b_visible, exit: b_exit }) = (a, b) {
        assert(instruction_body(a) + s =~= enc_reg(a_control) + (enc_reg(a_limit) + (enc_reg(a_step) + (enc_reg(a_visible) + (enc_u32(a_exit.0) + (s))))));
        assert(instruction_body(b) + t =~= enc_reg(b_control) + (enc_reg(b_limit) + (enc_reg(b_step) + (enc_reg(b_visible) + (enc_u32(b_exit.0) + (t))))));
        peel_u16(a_control.0, enc_reg(a_limit) + (enc_reg(a_step) + (enc_reg(a_visible) + (enc_u32(a_exit.0) + (s)))), b_control.0, enc_reg(b_limit) + (enc_reg(b_step) + (enc_reg(b_visible) + (enc_u32(b_exit.0) + (t)))));
        peel_u16(a_limit.0, enc_reg(a_step) + (enc_reg(a_visible) + (enc_u32(a_exit.0) + (s))), b_limit.0, enc_reg(b_step) + (enc_reg(b_visible) + (enc_u32(b_exit.0) + (t))));
        peel_u16(a_step.0, enc_reg(a_visible) + (enc_u32(a_exit.0) + (s)), b_step.0, enc_reg(b_visible) + (enc_u32(b_exit.0) + (t)));
        peel_u16(a_visible.0, enc_u32(a_exit.0) + (s), b_visible.0, enc_u32(b_exit.0) + (t));
        peel_u32(a_exit.0, s, b_exit.0, t);
    }
}

proof fn peel_body_numericfornext(a: Instruction, s: Seq<u8>, b: Instruction, t: Seq<u8>)
    requires
        a is NumericForNext,
        b is NumericForNext,
        instruction_body(a) + s == instruction_body(b) + t,
    ensures
        a == b,
        s == t,
{
    if let (Instruction::NumericForNext { control: a_control, limit: a_limit, step: a_step, visible: a_visible, target: a_target, exit: a_exit }, Instruction::NumericForNext { control: b_control, limit: b_limit, step: b_step, visible: b_visible, target: b_target, exit: b_exit }) = (a, b) {
        assert(instruction_body(a) + s =~= enc_reg(a_control) + (enc_reg(a_limit) + (enc_reg(a_step) + (enc_reg(a_visible) + (enc_u32(a_target.0) + (enc_u32(a_exit.0) + (s)))))));
        assert(instruction_body(b) + t =~= enc_reg(b_control) + (enc_reg(b_limit) + (enc_reg(b_step) + (enc_reg(b_visible) + (enc_u32(b_target.0) + (enc_u32(b_exit.0) + (t)))))));
        peel_u16(a_control.0, enc_reg(a_limit) + (enc_reg(a_step) + (enc_reg(a_visible) + (enc_u32(a_target.0) + (enc_u32(a_exit.0) + (s))))), b_control.0, enc_reg(b_limit) + (enc_reg(b_step) + (enc_reg(b_visible) + (enc_u32(b_target.0) + (enc_u32(b_exit.0) + (t))))));
        peel_u16(a_limit.0, enc_reg(a_step) + (enc_reg(a_visible) + (enc_u32(a_target.0) + (enc_u32(a_exit.0) + (s)))), b_limit.0, enc_reg(b_step) + (enc_reg(b_visible) + (enc_u32(b_target.0) + (enc_u32(b_exit.0) + (t)))));
        peel_u16(a_step.0, enc_reg(a_visible) + (enc_u32(a_target.0) + (enc_u32(a_exit.0) + (s))), b_step.0, enc_reg(b_visible) + (enc_u32(b_target.0) + (enc_u32(b_exit.0) + (t))));
        peel_u16(a_visible.0, enc_u32(a_target.0) + (enc_u32(a_exit.0) + (s)), b_visible.0, enc_u32(b_target.0) + (enc_u32(b_exit.0) + (t)));
        peel_u32(a_target.0, enc_u32(a_exit.0) + (s), b_target.0, enc_u32(b_exit.0) + (t));
        peel_u32(a_exit.0, s, b_exit.0, t);
    }
}

/// The operands of two instructions of the same opcode peel apart.
pub proof fn peel_instruction_body(a: Instruction, s: Seq<u8>, b: Instruction, t: Seq<u8>)
    requires
        instruction_tag(a) == instruction_tag(b),
        instruction_body(a) + s == instruction_body(b) + t,
    ensures
        a == b,
        s == t,
{
    match a {
        Instruction::LoadConst { .. } => peel_body_loadconst(a, s, b, t),
        Instruction::LoadNil { .. } => peel_body_loadnil(a, s, b, t),
        Instruction::Move { .. } => peel_body_move(a, s, b, t),
        Instruction::GetUpvalue { .. } => peel_body_getupvalue(a, s, b, t),
        Instruction::SetUpvalue { .. } => peel_body_setupvalue(a, s, b, t),
        Instruction::NewTable { .. } => peel_body_newtable(a, s, b, t),
        Instruction::GetTable { .. } => peel_body_gettable(a, s, b, t),
        Instruction::SetTable { .. } => peel_body_settable(a, s, b, t),
        Instruction::UnaryOp { .. } => peel_body_unaryop(a, s, b, t),
        Instruction::BinaryOp { .. } => peel_body_binaryop(a, s, b, t),
        Instruction::Jump { .. } => peel_body_jump(a, s, b, t),
        Instruction::JumpIfFalse { .. } => peel_body_jumpiffalse(a, s, b, t),
        Instruction::Closure { .. } => peel_body_closure(a, s, b, t),
        Instruction::Call { .. } => peel_body_call(a, s, b, t),
        Instruction::TailCall { .. } => peel_body_tailcall(a, s, b, t),
        Instruction::Vararg { .. } => peel_body_vararg(a, s, b, t),
        Instruction::Return { .. } => peel_body_return(a, s, b, t),
        Instruction::Close { .. } => peel_body_close(a, s, b, t),
        Instruction::NumericForPrepare { .. } => peel_body_numericforprepare(a, s, b, t),
        Instruction::NumericForNext { .. } => peel_body_numericfornext(a, s, b, t),
    }
}

pub proof fn peel_instruction(a: Instruction, s: Seq<u8>, b: Instruction, t: Seq<u8>)
    requires
        enc_instruction(a) + s == enc_instruction(b) + t,
    ensures
        a == b,
        s == t,
{
    assert(enc_instruction(a) + s =~= enc_u8(instruction_tag(a)) + (instruction_body(a) + s));
    assert(enc_instruction(b) + t =~= enc_u8(instruction_tag(b)) + (instruction_body(b) + t));
    peel_u8(instruction_tag(a), instruction_body(a) + s, instruction_tag(b), instruction_body(b) + t);
    peel_instruction_body(a, s, b, t);
}

pub proof fn peel_environment_source(a: EnvironmentSource, s: Seq<u8>, b: EnvironmentSource, t: Seq<u8>)
    requires
        enc_environment_source(a) + s == enc_environment_source(b) + t,
    ensures
        a == b,
        s == t,
{
    let ta: u8 = match a {
        EnvironmentSource::RootExternal => 0,
        EnvironmentSource::ParentFrame { .. } => 1,
        EnvironmentSource::ParentLocal { .. } => 2,
        EnvironmentSource::ParentUpvalue { .. } => 3,
    };
    let tb: u8 = match b {
        EnvironmentSource::RootExternal => 0,
        EnvironmentSource::ParentFrame { .. } => 1,
        EnvironmentSource::ParentLocal { .. } => 2,
        EnvironmentSource::ParentUpvalue { .. } => 3,
    };
    let ra = match a {
        EnvironmentSource::RootExternal => s,
        EnvironmentSource::ParentFrame { parent, register } => enc_u32(parent.0) + (enc_reg(register) + s),
        EnvironmentSource::ParentLocal { upvalue } => enc_u16(upvalue.0) + s,
        EnvironmentSource::ParentUpvalue { upvalue } => enc_u16(upvalue.0) + s,
    };
    let rb = match b {
        EnvironmentSource::RootExternal => t,
        EnvironmentSource::ParentFrame { parent, register } => enc_u32(parent.0) + (enc_reg(register) + t),
        EnvironmentSource::ParentLocal { upvalue } => enc_u16(upvalue.0) + t,
        EnvironmentSource::ParentUpvalue { upvalue } => enc_u16(upvalue.0) + t,
    };
    assert(enc_environment_source(a) + s =~= enc_u8(ta) + ra);
    assert(enc_environment_source(b) + t =~= enc_u8(tb) + rb);
    peel_u8(ta, ra, tb, rb);
    match (a, b) {
        (EnvironmentSource::ParentFrame { parent: p1, register: r1 }, EnvironmentSource::ParentFrame { parent: p2, register: r2 }) => {
            peel_u32(p1.0, enc_reg(r1) + s, p2.0, enc_reg(r2) + t);
            peel_reg(r1, s, r2, t);
        },
        (EnvironmentSource::ParentLocal { upvalue: u1 }, EnvironmentSource::ParentLocal { upvalue: u2 }) => {
            peel_u16(u1.0, s, u2.0, t);
        },
        (EnvironmentSource::ParentUpvalue { upvalue: u1 }, EnvironmentSource::ParentUpvalue { upvalue: u2 }) => {
            peel_u16(u1.0, s, u2.0, t);
        },
        _ => {},
    }
}

pub proof fn peel_frame(a: FrameLayout, s: Seq<u8>, b: FrameLayout, t: Seq<u8>)
    requires
        enc_frame(a) + s == enc_frame(b) + t,
    ensures
        a == b,
        s == t,
{
    let a6 = enc_bool(a.registers_start_as_nil) + s;
    let a5 = enc_environment_source(a.environment_source) + a6;
    let a4 = enc_reg(a.environment) + a5;
    let a3 = enc_reg(a.return_base) + a4;
    let a2 = enc_reg(a.dynamic_top) + a3;
    let a1 = enc_reg(a.initial_top) + a2;
    let b6 = enc_bool(b.registers_start_as_nil) + t;
    let b5 = enc_environment_source(b.environment_source) + b6;
    let b4 = enc_reg(b.environment) + b5;
    let b3 = enc_reg(b.return_base) + b4;
    let b2 = enc_reg(b.dynamic_top) + b3;
    let b1 = enc_reg(b.initial_top) + b2;
    assert(enc_frame(a) + s =~= enc_u16(a.register_limit) + a1);
    assert(enc_frame(b) + t =~= enc_u16(b.register_limit) + b1);
    peel_u16(a.register_limit, a1, b.register_limit, b1);
    peel_reg(a.initial_top, a2, b.initial_top, b2);
    peel_reg(a.dynamic_top, a3, b.dynamic_top, b3);
    peel_reg(a.return_base, a4, b.return_base, b4);
    peel_reg(a.environment, a5, b.environment, b5);
    peel_environment_source(a.environment_source, a6, b.environment_source, b6);
    peel_bool(a.registers_start_as_nil, s, b.registers_start_as_nil, t);
}

/// `f` is injective and prefix-free on the items that satisfy `ok`.
pub open spec fn peels<A>(f: spec_fn(A) -> Seq<u8>, ok: spec_fn(A) -> bool) -> bool {
    forall|a: A, s: Seq<u8>, b: A, t: Seq<u8>|
        ok(a) && ok(b) && #[trigger] (f(a) + s) == #[trigger] (f(b) + t) ==> a == b && s == t
}

pub proof fn peel_concat<A>(f: spec_fn(A) -> Seq<u8>, ok: spec_fn(A) -> bool, x: Seq<A>, s: Seq<u8>, y: Seq<A>, t: Seq<u8>)
    requires
        peels(f, ok),
        x.len() == y.len(),
        forall|i: int| 0 <= i < x.len() ==> ok(#[trigger] x[i]),
        forall|i: int| 0 <= i < y.len() ==> ok(#[trigger] y[i]),
        concat_map(x, f) + s == concat_map(y, f) + t,
    ensures
        x == y,
        s == t,
    decreases x.len(),
{
    if x.len() == 0 {
        assert(concat_map(x, f) + s =~= s);
        assert(concat_map(y, f) + t =~= t);
        assert(x =~= y);
    } else {
        let n = x.len() as int;
        lemma_concat_map_at(x, 0, f);
        lemma_concat_map_at(y, 0, f);
        assert(x.subrange(0, n) =~= x);
        assert(y.subrange(0, n) =~= y);
        let x1 = x.subrange(1, n);
        let y1 = y.subrange(1, n);
        assert(concat_map(x, f) + s =~= f(x[0]) + (concat_map(x1, f) + s));
        assert(concat_map(y, f) + t =~= f(y[0]) + (concat_map(y1, f) + t));
        assert(ok(x[0]) && ok(y[0]));
        assert(x[0] == y[0] && concat_map(x1, f) + s == concat_map(y1, f) + t);
        assert forall|i: int| 0 <= i < x1.len() implies ok(#[trigger] x1[i]) by {
            assert(x1[i] == x[i + 1]);
        }
        assert forall|i: int| 0 <= i < y1.len() implies ok(#[trigger] y1[i]) by {
            assert(y1[i] == y[i + 1]);
        }
        peel_concat(f, ok, x1, s, y1, t);
        assert forall|i: int| 0 <= i < x.len() implies x[i] == y[i] by {
            if i > 0 {
                assert(x1[i - 1] == y1[i - 1]);
            }
        }
        assert(x =~= y);
    }
}

pub proof fn peel_list<A>(f: spec_fn(A) -> Seq<u8>, ok: spec_fn(A) -> bool, x: Seq<A>, s: Seq<u8>, y: Seq<A>, t: Seq<u8>)
    requires
        peels(f, ok),
        x.len() <= u32_max(),
        y.len() <= u32_max(),
        forall|i: int| 0 <= i < x.len() ==> ok(#[trigger] x[i]),
        forall|i: int| 0 <= i < y.len() ==> ok(#[trigger] y[i]),
        enc_list(x, f) + s == enc_list(y, f) + t,
    ensures
        x == y,
        s == t,
{
    assert(enc_list(x, f) + s =~= enc_u32(x.len() as u32) + (concat_map(x, f) + s));
    assert(enc_list(y, f) + t =~= enc_u32(y.len() as u32) + (concat_map(y, f) + t));
    peel_u32(x.len() as u32, concat_map(x, f) + s, y.len() as u32, concat_map(y, f) + t);
    peel_concat(f, ok, x, s, y, t);
}

pub open spec fn any_item<A>(a: A) -> bool {
    true
}

pub proof fn lemma_peels_binding()
    ensures
        peels(|b: BytecodeBindingId| enc_binding(b), |b: BytecodeBindingId| any_item(b)),
{
    let f = |x: BytecodeBindingId| enc_binding(x);
    let ok = |x: BytecodeBindingId| any_item(x);
    assert forall|a: BytecodeBindingId, s: Seq<u8>, b: BytecodeBindingId, t: Seq<u8>|
        ok(a) && ok(b) && #[trigger] (f(a) + s) == #[trigger] (f(b) + t) implies a == b && s == t by {
        peel_binding(a, s, b, t);
    }
}

pub proof fn lemma_peels_reg()
    ensures
        peels(|r: Register| enc_reg(r), |r: Register| any_item(r)),
{
    let f = |x: Register| enc_reg(x);
    let ok = |x: Register| any_item(x);
    assert forall|a: Register, s: Seq<u8>, b: Register, t: Seq<u8>|
        ok(a) && ok(b) && #[trigger] (f(a) + s) == #[trigger] (f(b) + t) implies a == b && s == t by {
        peel_reg(a, s, b, t);
    }
}

pub proof fn peel_close_path(a: ClosePathModel, s: Seq<u8>, b: ClosePathModel, t: Seq<u8>)
    requires
        close_fits(a),
        close_fits(b),
        enc_close_path(a) + s == enc_close_path(b) + t,
    ensures
        a == b,
        s == t,
{
    let fb = |x: BytecodeBindingId| enc_binding(x);
    let fr = |x: Register| enc_reg(x);
    let a5 = enc_list(a.registers, fr) + s;
    let a4 = enc_list(a.bindings, fb) + a5;
    let a3 = enc_optional_scope(a.target_scope) + a4;
    let a2 = enc_u32(a.from_scope) + a3;
    let a1 = enc_span(a.span) + a2;
    let b5 = enc_list(b.registers, fr) + t;
    let b4 = enc_list(b.bindings, fb) + b5;
    let b3 = enc_optional_scope(b.target_scope) + b4;
    let b2 = enc_u32(b.from_scope) + b3;
    let b1 = enc_span(b.span) + b2;
    lemma_assoc(((((enc_u8(exit_tag(a.kind)) + enc_span(a.span)) + enc_u32(a.from_scope)) + enc_optional_scope(a.target_scope)) + enc_list(a.bindings, fb)), enc_list(a.registers, fr), s);
    lemma_assoc((((enc_u8(exit_tag(a.kind)) + enc_span(a.span)) + enc_u32(a.from_scope)) + enc_optional_scope(a.target_scope)), enc_list(a.bindings, fb), enc_list(a.registers, fr) + (s));
    lemma_assoc(((enc_u8(exit_tag(a.kind)) + enc_span(a.span)) + enc_u32(a.from_scope)), enc_optional_scope(a.target_scope), enc_list(a.bindings, fb) + (enc_list(a.registers, fr) + (s)));
    lemma_assoc((enc_u8(exit_tag(a.kind)) + enc_span(a.span)), enc_u32(a.from_scope), enc_optional_scope(a.target_scope) + (enc_list(a.bindings, fb) + (enc_list(a.registers, fr) + (s))));
    lemma_assoc(enc_u8(exit_tag(a.kind)), enc_span(a.span), enc_u32(a.from_scope) + (enc_optional_scope(a.target_scope) + (enc_list(a.bindings, fb) + (enc_list(a.registers, fr) + (s)))));
    lemma_assoc(((((enc_u8(exit_tag(b.kind)) + enc_span(b.span)) + enc_u32(b.from_scope)) + enc_optional_scope(b.target_scope)) + enc_list(b.bindings, fb)), enc_list(b.registers, fr), t);
    lemma_assoc((((enc_u8(exit_tag(b.kind)) + enc_span(b.span)) + enc_u32(b.from_scope)) + enc_optional_scope(b.target_scope)), enc_list(b.bindings, fb), enc_list(b.registers, fr) + (t));
    lemma_assoc(((enc_u8(exit_tag(b.kind)) + enc_span(b.span)) + enc_u32(b.from_scope)), enc_optional_scope(b.target_scope), enc_list(b.bindings, fb) + (enc_list(b.registers, fr) + (t)));
    lemma_assoc((enc_u8(exit_tag(b.kind)) + enc_span(b.span)), enc_u32(b.from_scope), enc_optional_scope(b.target_scope) + (enc_list(b.bindings, fb) + (enc_list(b.registers, fr) + (t))));
    lemma_assoc(enc_u8(exit_tag(b.kind)), enc_span(b.span), enc_u32(b.from_scope) + (enc_optional_scope(b.target_scope) + (enc_list(b.bindings, fb) + (enc_list(b.registers, fr) + (t)))));
    peel_u8(exit_tag(a.kind), a1, exit_tag(b.kind), b1);
    lemma_exit_tag_inj(a.kind, b.kind);
    peel_span(a.span, a2, b.span, b2);
    peel_u32(a.from_scope, a3, b.from_scope, b3);
    peel_optional_scope(a.target_scope, a4, b.target_scope, b4);
    lemma_peels_binding();
    peel_list(fb, |x: BytecodeBindingId| any_item(x), a.bindings, a5, b.bindings, b5);
    lemma_peels_reg();
    peel_list(fr, |x: Register| any_item(x), a.registers, s, b.registers, t);
}

pub proof fn peel_constant(a: ConstantModel, s: Seq<u8>, b: ConstantModel, t: Seq<u8>)
    requires
        constant_fits(a),
        constant_fits(b),
        enc_constant(a) + s == enc_constant(b) + t,
    ensures
        a == b,
        s == t,
{
    let ta: u8 = match a {
        ConstantModel::Integer(_) => 0,
        ConstantModel::FloatBits(_) => 1,
        ConstantModel::Name(_) => 2,
        ConstantModel::String(_) => 3,
        ConstantModel::Boolean(_) => 4,
    };
    let tb: u8 = match b {
        ConstantModel::Integer(_) => 0,
        ConstantModel::FloatBits(_) => 1,
        ConstantModel::Name(_) => 2,
        ConstantModel::String(_) => 3,
        ConstantModel::Boolean(_) => 4,
    };
    let ra = match a {
        ConstantModel::Integer(v) => enc_i64(v) + s,
        ConstantModel::FloatBits(v) => enc_u64(v) + s,
        ConstantModel::Name(v) => enc_u32(v.len() as u32) + v + s,
        ConstantModel::String(v) => enc_u32(v.len() as u32) + v + s,
        ConstantModel::Boolean(v) => enc_bool(v) + s,
    };
    let rb = match b {
        ConstantModel::Integer(v) => enc_i64(v) + t,
        ConstantModel::FloatBits(v) => enc_u64(v) + t,
        ConstantModel::Name(v) => enc_u32(v.len() as u32) + v + t,
        ConstantModel::String(v) => enc_u32(v.len() as u32) + v + t,
        ConstantModel::Boolean(v) => enc_bool(v) + t,
    };
    assert(enc_constant(a) + s =~= enc_u8(ta) + ra);
    assert(enc_constant(b) + t =~= enc_u8(tb) + rb);
    peel_u8(ta, ra, tb, rb);
    match (a, b) {
        (ConstantModel::Integer(x), ConstantModel::Integer(y)) => peel_i64(x, s, y, t),
        (ConstantModel::FloatBits(x), ConstantModel::FloatBits(y)) => peel_u64(x, s, y, t),
        (ConstantModel::Name(x), ConstantModel::Name(y)) => peel_blob(x, s, y, t),
        (ConstantModel::String(x), ConstantModel::String(y)) => peel_blob(x, s, y, t),
        (ConstantModel::Boolean(x), ConstantModel::Boolean(y)) => peel_bool(x, s, y, t),
        _ => {},
    }
}

pub proof fn peel_optional_close(a: Option<ClosePathModel>, s: Seq<u8>, b: Option<ClosePathModel>, t: Seq<u8>)
    requires
        a matches Some(c) ==> close_fits(c),
        b matches Some(c) ==> close_fits(c),
        enc_optional_close(a) + s == enc_optional_close(b) + t,
    ensures
        a == b,
        s == t,
{
    let ta: u8 = if a is Some { 1 } else { 0 };
    let tb: u8 = if b is Some { 1 } else { 0 };
    let ra = match a { Some(c) => enc_close_path(c) + s, None => s };
    let rb = match b { Some(c) => enc_close_path(c) + t, None => t };
    assert(enc_optional_close(a) + s =~= enc_u8(ta) + ra);
    assert(enc_optional_close(b) + t =~= enc_u8(tb) + rb);
    peel_u8(ta, ra, tb, rb);
    if let (Some(x), Some(y)) = (a, b) {
        peel_close_path(x, s, y, t);
    }
}

pub proof fn peel_entry(a: InstructionModel, s: Seq<u8>, b: InstructionModel, t: Seq<u8>)
    requires
        entry_fits(a),
        entry_fits(b),
        enc_entry(a) + s == enc_entry(b) + t,
    ensures
        a == b,
        s == t,
{
    let a3 = enc_optional_close(a.close_path) + s;
    let a2 = enc_span(a.span) + a3;
    let a1 = enc_u8(a.instruction.spec_effect_flags()) + a2;
    let b3 = enc_optional_close(b.close_path) + t;
    let b2 = enc_span(b.span) + b3;
    let b1 = enc_u8(b.instruction.spec_effect_flags()) + b2;
    assert(enc_entry(a) + s =~= enc_instruction(a.instruction) + a1);
    assert(enc_entry(b) + t =~= enc_instruction(b.instruction) + b1);
    peel_instruction(a.instruction, a1, b.instruction, b1);
    peel_u8(a.instruction.spec_effect_flags(), a2, b.instruction.spec_effect_flags(), b2);
    peel_span(a.span, a3, b.span, b3);
    peel_optional_close(a.close_path, s, b.close_path, t);
}

pub proof fn peel_binding_register(a: (BytecodeBindingId, Register), s: Seq<u8>, b: (BytecodeBindingId, Register), t: Seq<u8>)
    requires
        enc_binding_register(a) + s == enc_binding_register(b) + t,
    ensures
        a == b,
        s == t,
{
    assert(enc_binding_register(a) + s =~= enc_binding(a.0) + (enc_reg(a.1) + s));
    assert(enc_binding_register(b) + t =~= enc_binding(b.0) + (enc_reg(b.1) + t));
    peel_binding(a.0, enc_reg(a.1) + s, b.0, enc_reg(b.1) + t);
    peel_reg(a.1, s, b.1, t);
}

pub proof fn peel_upvalue(a: BytecodeUpvalue, s: Seq<u8>, b: BytecodeUpvalue, t: Seq<u8>)
    requires
        enc_upvalue(a) + s == enc_upvalue(b) + t,
    ensures
        a == b,
        s == t,
{
    let ta: u8 = if a.source is ParentLocal { 0 } else { 1 };
    let tb: u8 = if b.source is ParentLocal { 0 } else { 1 };
    let ra = match a.source {
        BytecodeUpvalueSource::ParentLocal(x) => enc_binding(x) + s,
        BytecodeUpvalueSource::ParentUpvalue(x) => enc_u16(x.0) + s,
    };
    let rb = match b.source {
        BytecodeUpvalueSource::ParentLocal(x) => enc_binding(x) + t,
        BytecodeUpvalueSource::ParentUpvalue(x) => enc_u16(x.0) + t,
    };
    assert(enc_upvalue(a) + s =~= enc_u16(a.id.0) + (enc_u8(ta) + ra));
    assert(enc_upvalue(b) + t =~= enc_u16(b.id.0) + (enc_u8(tb) + rb));
    peel_u16(a.id.0, enc_u8(ta) + ra, b.id.0, enc_u8(tb) + rb);
    peel_u8(ta, ra, tb, rb);
    match (a.source, b.source) {
        (BytecodeUpvalueSource::ParentLocal(x), BytecodeUpvalueSource::ParentLocal(y)) => peel_binding(x, s, y, t),
        (BytecodeUpvalueSource::ParentUpvalue(x), BytecodeUpvalueSource::ParentUpvalue(y)) => peel_u16(x.0, s, y.0, t),
        _ => {},
    }
}

pub proof fn peel_named_vararg(a: Option<(BytecodeBindingId, Register)>, s: Seq<u8>, b: Option<(BytecodeBindingId, Register)>, t: Seq<u8>)
    requires
        enc_named_vararg(a) + s == enc_named_vararg(b) + t,
    ensures
        a == b,
        s == t,
{
    let ta: u8 = if a is Some { 1 } else { 0 };
    let tb: u8 = if b is Some { 1 } else { 0 };
    let ra = match a { Some((x, r)) => enc_binding(x) + (enc_reg(r) + s), None => s };
    let rb = match b { Some((x, r)) => enc_binding(x) + (enc_reg(r) + t), None => t };
    assert(enc_named_vararg(a) + s =~= enc_u8(ta) + ra);
    assert(enc_named_vararg(b) + t =~= enc_u8(tb) + rb);
    peel_u8(ta, ra, tb, rb);
    if let (Some((x1, r1)), Some((x2, r2))) = (a, b) {
        peel_binding(x1, enc_reg(r1) + s, x2, enc_reg(r2) + t);
        peel_reg(r1, s, r2, t);
    }
}

pub proof fn peel_prototype_head(a: PrototypeModel, s: Seq<u8>, b: PrototypeModel, t: Seq<u8>)
    requires
        enc_prototype_head(a) + s == enc_prototype_head(b) + t,
    ensures
        a.id == b.id,
        a.function == b.function,
        a.parent == b.parent,
        a.span == b.span,
        a.register_count == b.register_count,
        a.parameter_count == b.parameter_count,
        a.is_variadic == b.is_variadic,
        a.named_vararg == b.named_vararg,
        a.frame == b.frame,
        a.global_environment == b.global_environment,
        a.global_environment_binding == b.global_environment_binding,
        s == t,
{
    let a10 = enc_binding(a.global_environment_binding) + s;
    let a9 = enc_reg(a.global_environment) + a10;
    let a8 = enc_frame(a.frame) + a9;
    let a7 = enc_named_vararg(a.named_vararg) + a8;
    let a6 = enc_bool(a.is_variadic) + a7;
    let a5 = enc_u16(a.parameter_count) + a6;
    let a4 = enc_u16(a.register_count) + a5;
    let a3 = enc_span(a.span) + a4;
    let a2 = enc_optional_proto(a.parent) + a3;
    let a1 = enc_u32(a.function) + a2;
    let b10 = enc_binding(b.global_environment_binding) + t;
    let b9 = enc_reg(b.global_environment) + b10;
    let b8 = enc_frame(b.frame) + b9;
    let b7 = enc_named_vararg(b.named_vararg) + b8;
    let b6 = enc_bool(b.is_variadic) + b7;
    let b5 = enc_u16(b.parameter_count) + b6;
    let b4 = enc_u16(b.register_count) + b5;
    let b3 = enc_span(b.span) + b4;
    let b2 = enc_optional_proto(b.parent) + b3;
    let b1 = enc_u32(b.function) + b2;
    lemma_assoc((((((((((enc_u32(a.id.0) + enc_u32(a.function)) + enc_optional_proto(a.parent)) + enc_span(a.span)) + enc_u16(a.register_count)) + enc_u16(a.parameter_count)) + enc_bool(a.is_variadic)) + enc_named_vararg(a.named_vararg)) + enc_frame(a.frame)) + enc_reg(a.global_environment)), enc_binding(a.global_environment_binding), s);
    lemma_assoc(((((((((enc_u32(a.id.0) + enc_u32(a.function)) + enc_optional_proto(a.parent)) + enc_span(a.span)) + enc_u16(a.register_count)) + enc_u16(a.parameter_count)) + enc_bool(a.is_variadic)) + enc_named_vararg(a.named_vararg)) + enc_frame(a.frame)), enc_reg(a.global_environment), enc_binding(a.global_environment_binding) + (s));
    lemma_assoc((((((((enc_u32(a.id.0) + enc_u32(a.function)) + enc_optional_proto(a.parent)) + enc_span(a.span)) + enc_u16(a.register_count)) + enc_u16(a.parameter_count)) + enc_bool(a.is_variadic)) + enc_named_vararg(a.named_vararg)), enc_frame(a.frame), enc_reg(a.global_environment) + (enc_binding(a.global_environment_binding) + (s)));
    lemma_assoc(((((((enc_u32(a.id.0) + enc_u32(a.function)) + enc_optional_proto(a.parent)) + enc_span(a.span)) + enc_u16(a.register_count)) + enc_u16(a.parameter_count)) + enc_bool(a.is_variadic)), enc_named_vararg(a.named_vararg), enc_frame(a.frame) + (enc_reg(a.global_environment) + (enc_binding(a.global_environment_binding) + (s))));
    lemma_assoc((((((enc_u32(a.id.0) + enc_u32(a.function)) + enc_optional_proto(a.parent)) + enc_span(a.span)) + enc_u16(a.register_count)) + enc_u16(a.parameter_count)), enc_bool(a.is_variadic), enc_named_vararg(a.named_vararg) + (enc_frame(a.frame) + (enc_reg(a.global_environment) + (enc_binding(a.global_environment_binding) + (s)))));
    lemma_assoc(((((enc_u32(a.id.0) + enc_u32(a.function)) + enc_optional_proto(a.parent)) + enc_span(a.span)) + enc_u16(a.register_count)), enc_u16(a.parameter_count), enc_bool(a.is_variadic) + (enc_named_vararg(a.named_vararg) + (enc_frame(a.frame) + (enc_reg(a.global_environment) + (enc_binding(a.global_environment_binding) + (s))))));
    lemma_assoc((((enc_u32(a.id.0) + enc_u32(a.function)) + enc_optional_proto(a.parent)) + enc_span(a.span)), enc_u16(a.register_count), enc_u16(a.parameter_count) + (enc_bool(a.is_variadic) + (enc_named_vararg(a.named_vararg) + (enc_frame(a.frame) + (enc_reg(a.global_environment) + (enc_binding(a.global_environment_binding) + (s)))))));
    lemma_assoc(((enc_u32(a.id.0) + enc_u32(a.function)) + enc_optional_proto(a.parent)), enc_span(a.span), enc_u16(a.register_count) + (enc_u16(a.parameter_count) + (enc_bool(a.is_variadic) + (enc_named_vararg(a.named_vararg) + (enc_frame(a.frame) + (enc_reg(a.global_environment) + (enc_binding(a.global_environment_binding) + (s))))))));
    lemma_assoc((enc_u32(a.id.0) + enc_u32(a.function)), enc_optional_proto(a.parent), enc_span(a.span) + (enc_u16(a.register_count) + (enc_u16(a.parameter_count) + (enc_bool(a.is_variadic) + (enc_named_vararg(a.named_vararg) + (enc_frame(a.frame) + (enc_reg(a.global_environment) + (enc_binding(a.global_environment_binding) + (s)))))))));
    lemma_assoc(enc_u32(a.id.0), enc_u32(a.function), enc_optional_proto(a.parent) + (enc_span(a.span) + (enc_u16(a.register_count) + (enc_u16(a.parameter_count) + (enc_bool(a.is_variadic) + (enc_named_vararg(a.named_vararg) + (enc_frame(a.frame) + (enc_reg(a.global_environment) + (enc_binding(a.global_environment_binding) + (s))))))))));
    lemma_assoc((((((((((enc_u32(b.id.0) + enc_u32(b.function)) + enc_optional_proto(b.parent)) + enc_span(b.span)) + enc_u16(b.register_count)) + enc_u16(b.parameter_count)) + enc_bool(b.is_variadic)) + enc_named_vararg(b.named_vararg)) + enc_frame(b.frame)) + enc_reg(b.global_environment)), enc_binding(b.global_environment_binding), t);
    lemma_assoc(((((((((enc_u32(b.id.0) + enc_u32(b.function)) + enc_optional_proto(b.parent)) + enc_span(b.span)) + enc_u16(b.register_count)) + enc_u16(b.parameter_count)) + enc_bool(b.is_variadic)) + enc_named_vararg(b.named_vararg)) + enc_frame(b.frame)), enc_reg(b.global_environment), enc_binding(b.global_environment_binding) + (t));
    lemma_assoc((((((((enc_u32(b.id.0) + enc_u32(b.function)) + enc_optional_proto(b.parent)) + enc_span(b.span)) + enc_u16(b.register_count)) + enc_u16(b.parameter_count)) + enc_bool(b.is_variadic)) + enc_named_vararg(b.named_vararg)), enc_frame(b.frame), enc_reg(b.global_environment) + (enc_binding(b.global_environment_binding) + (t)));
    lemma_assoc(((((((enc_u32(b.id.0) + enc_u32(b.function)) + enc_optional_proto(b.parent)) + enc_span(b.span)) + enc_u16(b.register_count)) + enc_u16(b.parameter_count)) + enc_bool(b.is_variadic)), enc_named_vararg(b.named_vararg), enc_frame(b.frame) + (enc_reg(b.global_environment) + (enc_binding(b.global_environment_binding) + (t))));
    lemma_assoc((((((enc_u32(b.id.0) + enc_u32(b.function)) + enc_optional_proto(b.parent)) + enc_span(b.span)) + enc_u16(b.register_count)) + enc_u16(b.parameter_count)), enc_bool(b.is_variadic), enc_named_vararg(b.named_vararg) + (enc_frame(b.frame) + (enc_reg(b.global_environment) + (enc_binding(b.global_environment_binding) + (t)))));
    lemma_assoc(((((enc_u32(b.id.0) + enc_u32(b.function)) + enc_optional_proto(b.parent)) + enc_span(b.span)) + enc_u16(b.register_count)), enc_u16(b.parameter_count), enc_bool(b.is_variadic) + (enc_named_vararg(b.named_vararg) + (enc_frame(b.frame) + (enc_reg(b.global_environment) + (enc_binding(b.global_environment_binding) + (t))))));
    lemma_assoc((((enc_u32(b.id.0) + enc_u32(b.function)) + enc_optional_proto(b.parent)) + enc_span(b.span)), enc_u16(b.register_count), enc_u16(b.parameter_count) + (enc_bool(b.is_variadic) + (enc_named_vararg(b.named_vararg) + (enc_frame(b.frame) + (enc_reg(b.global_environment) + (enc_binding(b.global_environment_binding) + (t)))))));
    lemma_assoc(((enc_u32(b.id.0) + enc_u32(b.function)) + enc_optional_proto(b.parent)), enc_span(b.span), enc_u16(b.register_count) + (enc_u16(b.parameter_count) + (enc_bool(b.is_variadic) + (enc_named_vararg(b.named_vararg) + (enc_frame(b.frame) + (enc_reg(b.global_environment) + (enc_binding(b.global_environment_binding) + (t))))))));
    lemma_assoc((enc_u32(b.id.0) + enc_u32(b.function)), enc_optional_proto(b.parent), enc_span(b.span) + (enc_u16(b.register_count) + (enc_u16(b.parameter_count) + (enc_bool(b.is_variadic) + (enc_named_vararg(b.named_vararg) + (enc_frame(b.frame) + (enc_reg(b.global_environment) + (enc_binding(b.global_environment_binding) + (t)))))))));
    lemma_assoc(enc_u32(b.id.0), enc_u32(b.function), enc_optional_proto(b.parent) + (enc_span(b.span) + (enc_u16(b.register_count) + (enc_u16(b.parameter_count) + (enc_bool(b.is_variadic) + (enc_named_vararg(b.named_vararg) + (enc_frame(b.frame) + (enc_reg(b.global_environment) + (enc_binding(b.global_environment_binding) + (t))))))))));
    peel_u32(a.id.0, a1, b.id.0, b1);
    peel_u32(a.function, a2, b.function, b2);
    peel_optional_proto(a.parent, a3, b.parent, b3);
    peel_span(a.span, a4, b.span, b4);
    peel_u16(a.register_count, a5, b.register_count, b5);
    peel_u16(a.parameter_count, a6, b.parameter_count, b6);
    peel_bool(a.is_variadic, a7, b.is_variadic, b7);
    peel_named_vararg(a.named_vararg, a8, b.named_vararg, b8);
    peel_frame(a.frame, a9, b.frame, b9);
    peel_reg(a.global_environment, a10, b.global_environment, b10);
    peel_binding(a.global_environment_binding, s, b.global_environment_binding, t);
}

pub proof fn lemma_peels_constant()
    ensures
        peels(|c: ConstantModel| enc_constant(c), |c: ConstantModel| constant_fits(c)),
{
    let f = |x: ConstantModel| enc_constant(x);
    let ok = |x: ConstantModel| constant_fits(x);
    assert forall|a: ConstantModel, s: Seq<u8>, b: ConstantModel, t: Seq<u8>|
        ok(a) && ok(b) && #[trigger] (f(a) + s) == #[trigger] (f(b) + t) implies a == b && s == t by {
        peel_constant(a, s, b, t);
    }
}

pub proof fn lemma_peels_entry()
    ensures
        peels(|e: InstructionModel| enc_entry(e), |e: InstructionModel| entry_fits(e)),
{
    let f = |x: InstructionModel| enc_entry(x);
    let ok = |x: InstructionModel| entry_fits(x);
    assert forall|a: InstructionModel, s: Seq<u8>, b: InstructionModel, t: Seq<u8>|
        ok(a) && ok(b) && #[trigger] (f(a) + s) == #[trigger] (f(b) + t) implies a == b && s == t by {
        peel_entry(a, s, b, t);
    }
}

pub proof fn lemma_peels_binding_register()
    ensures
        peels(|b: (BytecodeBindingId, Register)| enc_binding_register(b), |b: (BytecodeBindingId, Register)| any_item(b)),
{
    let f = |x: (BytecodeBindingId, Register)| enc_binding_register(x);
    let ok = |x: (BytecodeBindingId, Register)| any_item(x);
    assert forall|a: (BytecodeBindingId, Register), s: Seq<u8>, b: (BytecodeBindingId, Register), t: Seq<u8>|
        ok(a) && ok(b) && #[trigger] (f(a) + s) == #[trigger] (f(b) + t) implies a == b && s == t by {
        peel_binding_register(a, s, b, t);
    }
}

pub proof fn lemma_peels_upvalue()
    ensures
        peels(|u: BytecodeUpvalue| enc_upvalue(u), |u: BytecodeUpvalue| any_item(u)),
{
    let f = |x: BytecodeUpvalue| enc_upvalue(x);
    let ok = |x: BytecodeUpvalue| any_item(x);
    assert forall|a: BytecodeUpvalue, s: Seq<u8>, b: BytecodeUpvalue, t: Seq<u8>|
        ok(a) && ok(b) && #[trigger] (f(a) + s) == #[trigger] (f(b) + t) implies a == b && s == t by {
        peel_upvalue(a, s, b, t);
    }
}

pub proof fn lemma_peels_close_path()
    ensures
        peels(|c: ClosePathModel| enc_close_path(c), |c: ClosePathModel| close_fits(c)),
{
    let f = |x: ClosePathModel| enc_close_path(x);
    let ok = |x: ClosePathModel| close_fits(x);
    assert forall|a: ClosePathModel, s: Seq<u8>, b: ClosePathModel, t: Seq<u8>|
        ok(a) && ok(b) && #[trigger] (f(a) + s) == #[trigger] (f(b) + t) implies a == b && s == t by {
        peel_close_path(a, s, b, t);
    }
}

/// Two fitting prototypes with the same record are equal.
pub proof fn lemma_prototype_injective(a: PrototypeModel, b: PrototypeModel)
    requires
        prototype_fits(a),
        prototype_fits(b),
        enc_prototype(a) == enc_prototype(b),
    ensures
        a == b,
{
    reveal(enc_prototype);
    reveal(prototype_fits);
    let empty = Seq::<u8>::empty();
    let sa = enc_section(enc_constants(a)) + (enc_section(enc_instructions(a)) + (enc_section(enc_metadata(a)) + empty));
    let sb = enc_section(enc_constants(b)) + (enc_section(enc_instructions(b)) + (enc_section(enc_metadata(b)) + empty));
    assert(enc_prototype(a) + empty =~= enc_prototype_head(a) + sa);
    assert(enc_prototype(b) + empty =~= enc_prototype_head(b) + sb);
    peel_prototype_head(a, sa, b, sb);
    peel_section(enc_constants(a), enc_section(enc_instructions(a)) + (enc_section(enc_metadata(a)) + empty),
        enc_constants(b), enc_section(enc_instructions(b)) + (enc_section(enc_metadata(b)) + empty));
    peel_section(enc_instructions(a), enc_section(enc_metadata(a)) + empty, enc_instructions(b), enc_section(enc_metadata(b)) + empty);
    peel_section(enc_metadata(a), empty, enc_metadata(b), empty);
    let fc = |c: ConstantModel| enc_constant(c);
    let fe = |e: InstructionModel| enc_entry(e);
    let fb = |x: (BytecodeBindingId, Register)| enc_binding_register(x);
    let fu = |u: BytecodeUpvalue| enc_upvalue(u);
    let fp = |c: ClosePathModel| enc_close_path(c);
    lemma_peels_constant();
    assert(enc_constants(a) + empty =~= enc_constants(a));
    assert(enc_constants(b) + empty =~= enc_constants(b));
    peel_list(fc, |c: ConstantModel| constant_fits(c), a.constants, empty, b.constants, empty);
    lemma_peels_entry();
    assert(enc_instructions(a) + empty =~= enc_instructions(a));
    assert(enc_instructions(b) + empty =~= enc_instructions(b));
    peel_list(fe, |e: InstructionModel| entry_fits(e), a.instructions, empty, b.instructions, empty);
    let ma2 = enc_list(a.close_paths, fp) + empty;
    let ma1 = enc_list(a.upvalues, fu) + ma2;
    let mb2 = enc_list(b.close_paths, fp) + empty;
    let mb1 = enc_list(b.upvalues, fu) + mb2;
    assert(enc_metadata(a) + empty =~= enc_list(a.binding_registers, fb) + ma1);
    assert(enc_metadata(b) + empty =~= enc_list(b.binding_registers, fb) + mb1);
    lemma_peels_binding_register();
    peel_list(fb, |x: (BytecodeBindingId, Register)| any_item(x), a.binding_registers, ma1, b.binding_registers, mb1);
    lemma_peels_upvalue();
    peel_list(fu, |u: BytecodeUpvalue| any_item(u), a.upvalues, ma2, b.upvalues, mb2);
    lemma_peels_close_path();
    peel_list(fp, |c: ClosePathModel| close_fits(c), a.close_paths, empty, b.close_paths, empty);
}

pub open spec fn record_fits(p: PrototypeModel) -> bool {
    prototype_fits(p) && enc_prototype(p).len() <= u32_max()
}

pub proof fn lemma_peels_record()
    ensures
        peels(|p: PrototypeModel| enc_section(enc_prototype(p)), |p: PrototypeModel| record_fits(p)),
{
    let f = |x: PrototypeModel| enc_section(enc_prototype(x));
    let ok = |x: PrototypeModel| record_fits(x);
    assert forall|a: PrototypeModel, s: Seq<u8>, b: PrototypeModel, t: Seq<u8>|
        ok(a) && ok(b) && #[trigger] (f(a) + s) == #[trigger] (f(b) + t) implies a == b && s == t by {
        peel_section(enc_prototype(a), s, enc_prototype(b), t);
        lemma_prototype_injective(a, b);
    }
}

/// Two fitting modules of the current format, with the function map that
/// their prototypes give, are equal when their bytes are.
pub proof fn lemma_module_injective(a: ModuleModel, b: ModuleModel)
    requires
        module_fits(a),
        module_fits(b),
        a.format_version == b.format_version,
        a.function_prototypes == function_map(a.prototypes),
        b.function_prototypes == function_map(b.prototypes),
        enc_module(a) == enc_module(b),
    ensures
        a == b,
{
    let empty = Seq::<u8>::empty();
    let a3 = enc_section(enc_prototypes(a)) + empty;
    let a2 = enc_span(a.span) + a3;
    let a1 = enc_u8(a.numeric_config) + a2;
    let a0 = enc_u8(profile_tag(a.profile)) + a1;
    let b3 = enc_section(enc_prototypes(b)) + empty;
    let b2 = enc_span(b.span) + b3;
    let b1 = enc_u8(b.numeric_config) + b2;
    let b0 = enc_u8(profile_tag(b.profile)) + b1;
    lemma_assoc(((((magic_bytes() + enc_u16(RVLU_V2_NUMBER)) + enc_u8(profile_tag(a.profile))) + enc_u8(a.numeric_config)) + enc_span(a.span)), enc_section(enc_prototypes(a)), empty);
    lemma_assoc((((magic_bytes() + enc_u16(RVLU_V2_NUMBER)) + enc_u8(profile_tag(a.profile))) + enc_u8(a.numeric_config)), enc_span(a.span), enc_section(enc_prototypes(a)) + (empty));
    lemma_assoc(((magic_bytes() + enc_u16(RVLU_V2_NUMBER)) + enc_u8(profile_tag(a.profile))), enc_u8(a.numeric_config), enc_span(a.span) + (enc_section(enc_prototypes(a)) + (empty)));
    lemma_assoc((magic_bytes() + enc_u16(RVLU_V2_NUMBER)), enc_u8(profile_tag(a.profile)), enc_u8(a.numeric_config) + (enc_span(a.span) + (enc_section(enc_prototypes(a)) + (empty))));
    lemma_assoc(magic_bytes(), enc_u16(RVLU_V2_NUMBER), enc_u8(profile_tag(a.profile)) + (enc_u8(a.numeric_config) + (enc_span(a.span) + (enc_section(enc_prototypes(a)) + (empty)))));
    lemma_assoc(((((magic_bytes() + enc_u16(RVLU_V2_NUMBER)) + enc_u8(profile_tag(b.profile))) + enc_u8(b.numeric_config)) + enc_span(b.span)), enc_section(enc_prototypes(b)), empty);
    lemma_assoc((((magic_bytes() + enc_u16(RVLU_V2_NUMBER)) + enc_u8(profile_tag(b.profile))) + enc_u8(b.numeric_config)), enc_span(b.span), enc_section(enc_prototypes(b)) + (empty));
    lemma_assoc(((magic_bytes() + enc_u16(RVLU_V2_NUMBER)) + enc_u8(profile_tag(b.profile))), enc_u8(b.numeric_config), enc_span(b.span) + (enc_section(enc_prototypes(b)) + (empty)));
    lemma_assoc((magic_bytes() + enc_u16(RVLU_V2_NUMBER)), enc_u8(profile_tag(b.profile)), enc_u8(b.numeric_config) + (enc_span(b.span) + (enc_section(enc_prototypes(b)) + (empty))));
    lemma_assoc(magic_bytes(), enc_u16(RVLU_V2_NUMBER), enc_u8(profile_tag(b.profile)) + (enc_u8(b.numeric_config) + (enc_span(b.span) + (enc_section(enc_prototypes(b)) + (empty)))));
    assert(enc_module(a) + empty == magic_bytes() + (enc_u16(RVLU_V2_NUMBER) + a0));
    assert(enc_module(b) + empty == magic_bytes() + (enc_u16(RVLU_V2_NUMBER) + b0));
    lemma_split(magic_bytes(), enc_u16(RVLU_V2_NUMBER) + a0, magic_bytes(), enc_u16(RVLU_V2_NUMBER) + b0);
    peel_u16(RVLU_V2_NUMBER, a0, RVLU_V2_NUMBER, b0);
    peel_u8(profile_tag(a.profile), a1, profile_tag(b.profile), b1);
    peel_u8(a.numeric_config, a2, b.numeric_config, b2);
    peel_span(a.span, a3, b.span, b3);
    peel_section(enc_prototypes(a), empty, enc_prototypes(b), empty);
    lemma_peels_record();
    assert(enc_prototypes(a) + empty =~= enc_prototypes(a));
    assert(enc_prototypes(b) + empty =~= enc_prototypes(b));
    assert forall|i: int| 0 <= i < a.prototypes.len() implies record_fits(#[trigger] a.prototypes[i]) by {}
    assert forall|i: int| 0 <= i < b.prototypes.len() implies record_fits(#[trigger] b.prototypes[i]) by {}
    peel_list(|p: PrototypeModel| enc_section(enc_prototype(p)), |p: PrototypeModel| record_fits(p), a.prototypes, empty, b.prototypes, empty);
    assert(a.prototypes == b.prototypes);
    assert(a.function_prototypes == b.function_prototypes);
}

} // verus!
