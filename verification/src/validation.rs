//! The structural verifier for candidate RVLU v2 modules.
//!
//! Each check returns `Ok` exactly when the matching rule of `crate::rules`
//! holds; every error it reports is at offset zero, since a candidate module
//! has no bytes yet.

use vstd::prelude::*;

use crate::bytecode::{
    BinaryOperation, EnvironmentSource, Instruction, InstructionOffset, LuaProfile, ProtoId,
    Register, ResultMode, UpvalueId,
};
use crate::module::{
    BytecodeClosePath, BytecodeError, BytecodeErrorCode, BytecodeExitKind, BytecodeInstruction, BytecodeModule,
    BytecodePrototype, BytecodeUpvalueSource, ClosePathModel, ModuleModel, PrototypeModel,
    VerifyLimits, limit_error, verify_error,
};
use crate::rules::{
    close_link_ok, close_path_ok, close_run_followed_ok, close_run_ok, close_runs_from,
    closure_child_ok, first_binding_register, has_upvalue, instruction_ok, jump_ok, metadata_ok,
    numeric_regs_ok, operands_ok, range_ok, reg_ok, result_range_ok, span_within, is_prepare_for,
    pairs_with, prepare_exit, numeric_pairs_ok, cfg_edge, cfg_closed, cfg_reaches, numeric_bodies_ok,
    open_after, open_allowed, falls_off, flow_edge, open_labelling, dataflow_ok,
    first_proto_index, has_proto, environment_ok, prototype_valid,
};

verus! {

/// `count + 1` registers from `base` lie in the frame.
fn register_in_frame(p: &BytecodePrototype, base: Register, count: u16, message: &str) -> (r: Result<(), BytecodeError>)
    ensures
        r is Ok <==> range_ok(p@, base, count as int),
        r matches Err(e) ==> e.offset == 0,
        r matches Err(e) ==> e.code == BytecodeErrorCode::Verify,
{
    let end = base.0 as u32 + count as u32;
    if end >= p.register_count as u32 {
        return Err(verify_error(0, message));
    }
    Ok(())
}

fn validate_result_range(p: &BytecodePrototype, base: Register, mode: ResultMode) -> (r: Result<(), BytecodeError>)
    ensures
        r is Ok <==> result_range_ok(p@, base, mode),
        r matches Err(e) ==> e.offset == 0,
        r matches Err(e) ==> e.code == BytecodeErrorCode::Verify,
{
    match mode {
        ResultMode::Fixed(count) => {
            if count == 0 {
                register_in_frame(p, base, 0, "RVLU result base 超出 frame")
            } else {
                register_in_frame(p, base, count - 1, "RVLU result range 超出 frame")
            }
        },
        ResultMode::All => register_in_frame(p, base, 0, "RVLU open result base 超出 frame"),
    }
}

fn require_upvalue(p: &BytecodePrototype, upvalue: UpvalueId) -> (r: Result<(), BytecodeError>)
    ensures
        r is Ok <==> has_upvalue(p@, upvalue),
        r matches Err(e) ==> e.offset == 0,
        r matches Err(e) ==> e.code == BytecodeErrorCode::Verify,
{
    let mut i: usize = 0;
    while i < p.upvalues.len()
        invariant
            i <= p.upvalues@.len(),
            forall|k: int| 0 <= k < i ==> (#[trigger] p.upvalues@[k]).id != upvalue,
        decreases p.upvalues.len() - i,
    {
        if p.upvalues[i].id == upvalue {
            return Ok(());
        }
        i = i + 1;
    }
    Err(verify_error(0, "RVLU upvalue index 無效"))
}

fn require_jump_target(p: &BytecodePrototype, index: usize, target: InstructionOffset) -> (r: Result<(), BytecodeError>)
    ensures
        r is Ok <==> jump_ok(p@, index as int, target),
        r matches Err(e) ==> e.offset == 0,
        r matches Err(e) ==> e.code == BytecodeErrorCode::Verify,
{
    let t = target.0 as usize;
    if t >= p.instructions.len() || t == index {
        return Err(verify_error(0, "RVLU jump target 無效或 self-loop"));
    }
    Ok(())
}

fn validate_numeric_for_registers(
    p: &BytecodePrototype,
    control: Register,
    limit: Register,
    step: Register,
    visible: Register,
) -> (r: Result<(), BytecodeError>)
    ensures
        r is Ok <==> numeric_regs_ok(p@, control, limit, step, visible),
        r matches Err(e) ==> e.offset == 0,
        r matches Err(e) ==> e.code == BytecodeErrorCode::Verify,
{
    register_in_frame(p, control, 0, "RVLU register 超出 frame")?;
    register_in_frame(p, limit, 0, "RVLU register 超出 frame")?;
    register_in_frame(p, step, 0, "RVLU register 超出 frame")?;
    register_in_frame(p, visible, 0, "RVLU register 超出 frame")?;
    if control == limit || control == step || control == visible || limit == step || limit == visible
        || step == visible {
        return Err(verify_error(0, "RVLU NumericFor 控制/limit/step/可見 variable register 必須分離"));
    }
    Ok(())
}

/// Whether two close paths are equal.
pub fn close_path_eq(a: &BytecodeClosePath, b: &BytecodeClosePath) -> (r: bool)
    ensures
        r == (a@ == b@),
{
    if a.kind != b.kind || a.span != b.span || a.from_scope != b.from_scope {
        return false;
    }
    let scopes_equal = match (a.target_scope, b.target_scope) {
        (Some(x), Some(y)) => x == y,
        (None, None) => true,
        _ => false,
    };
    if !scopes_equal {
        return false;
    }
    if a.bindings.len() != b.bindings.len() || a.registers.len() != b.registers.len() {
        return false;
    }
    let mut i: usize = 0;
    while i < a.bindings.len()
        invariant
            a.bindings@.len() == b.bindings@.len(),
            i <= a.bindings@.len(),
            forall|k: int| 0 <= k < i ==> a.bindings@[k] == b.bindings@[k],
        decreases a.bindings.len() - i,
    {
        if a.bindings[i] != b.bindings[i] {
            return false;
        }
        i = i + 1;
    }
    assert(a.bindings@ =~= b.bindings@);
    let mut j: usize = 0;
    while j < a.registers.len()
        invariant
            a.registers@.len() == b.registers@.len(),
            j <= a.registers@.len(),
            forall|k: int| 0 <= k < j ==> a.registers@[k] == b.registers@[k],
        decreases a.registers.len() - j,
    {
        if a.registers[j] != b.registers[j] {
            return false;
        }
        j = j + 1;
    }
    assert(a.registers@ =~= b.registers@);
    true
}

/// The register of the first binding-register entry for `binding`.
fn lookup_binding_register(p: &BytecodePrototype, binding: crate::module::BytecodeBindingId) -> (r: Option<Register>)
    ensures
        r matches Some(reg) ==> first_binding_register(p@.binding_registers, binding, reg),
        r is None ==> forall|i: int| 0 <= i < p@.binding_registers.len() ==> (#[trigger] p@.binding_registers[i]).0 != binding,
{
    let mut i: usize = 0;
    while i < p.binding_registers.len()
        invariant
            i <= p.binding_registers@.len(),
            forall|k: int| 0 <= k < i ==> (#[trigger] p.binding_registers@[k]).0 != binding,
        decreases p.binding_registers.len() - i,
    {
        let (candidate, mapped) = p.binding_registers[i];
        if candidate == binding {
            assert(p@.binding_registers[i as int] == (binding, mapped));
            return Some(mapped);
        }
        i = i + 1;
    }
    None
}

proof fn lemma_first_binding_register_unique(
    bs: Seq<(crate::module::BytecodeBindingId, Register)>,
    b: crate::module::BytecodeBindingId,
    r1: Register,
    r2: Register,
)
    requires
        first_binding_register(bs, b, r1),
        first_binding_register(bs, b, r2),
    ensures
        r1 == r2,
{
    let i1 = choose|i: int| 0 <= i < bs.len() && #[trigger] bs[i] == (b, r1) && forall|j: int| 0 <= j < i ==> (#[trigger] bs[j]).0 != b;
    let i2 = choose|i: int| 0 <= i < bs.len() && #[trigger] bs[i] == (b, r2) && forall|j: int| 0 <= j < i ==> (#[trigger] bs[j]).0 != b;
    if i1 < i2 {
        assert(bs[i1].0 == b);
    } else if i2 < i1 {
        assert(bs[i2].0 == b);
    }
}

fn validate_close_path(p: &BytecodePrototype, path: &BytecodeClosePath) -> (r: Result<(), BytecodeError>)
    ensures
        r is Ok <==> close_path_ok(p@, path@),
        r matches Err(e) ==> e.offset == 0,
        r matches Err(e) ==> e.code == BytecodeErrorCode::Verify,
{
    if path.span.start_byte > path.span.end_byte || path.span.end_byte > p.span.end_byte
        || path.bindings.len() != path.registers.len() {
        return Err(verify_error(0, "RVLU ClosePath metadata 無效"));
    }
    let mut k: usize = 0;
    while k < path.bindings.len()
        invariant
            path.bindings@.len() == path.registers@.len(),
            k <= path.bindings@.len(),
            forall|j: int| 0 <= j < k ==> first_binding_register(p@.binding_registers, #[trigger] path@.bindings[j], path@.registers[j]),
        decreases path.bindings.len() - k,
    {
        let found = lookup_binding_register(p, path.bindings[k]);
        let ok = match found {
            Some(reg) => reg == path.registers[k],
            None => false,
        };
        if !ok {
            proof {
                assert(!first_binding_register(p@.binding_registers, path@.bindings[k as int], path@.registers[k as int])) by {
                    if first_binding_register(p@.binding_registers, path@.bindings[k as int], path@.registers[k as int]) {
                        match found {
                            Some(reg) => {
                                lemma_first_binding_register_unique(p@.binding_registers, path@.bindings[k as int], reg, path@.registers[k as int]);
                            },
                            None => {
                                let bs = p@.binding_registers;
                                let i = choose|i: int| 0 <= i < bs.len() && #[trigger] bs[i] == (path@.bindings[k as int], path@.registers[k as int]) && forall|j: int| 0 <= j < i ==> (#[trigger] bs[j]).0 != path@.bindings[k as int];
                                assert(bs[i].0 == path@.bindings[k as int]);
                            },
                        }
                    }
                }
            }
            return Err(verify_error(0, "RVLU ClosePath binding/register 不符"));
        }
        k = k + 1;
    }
    Ok(())
}

/// Whether the prototype lists `path` among its close paths.
fn has_close_path(p: &BytecodePrototype, path: &BytecodeClosePath) -> (r: bool)
    ensures
        r == p@.close_paths.contains(path@),
{
    let mut i: usize = 0;
    while i < p.close_paths.len()
        invariant
            i <= p.close_paths@.len(),
            forall|k: int| 0 <= k < i ==> p@.close_paths[k] != path@,
        decreases p.close_paths.len() - i,
    {
        if close_path_eq(&p.close_paths[i], path) {
            assert(p@.close_paths[i as int] == path@);
            return true;
        }
        i = i + 1;
    }
    false
}

fn contains_register(registers: &Vec<Register>, r: Register) -> (found: bool)
    ensures
        found == registers@.contains(r),
{
    let mut i: usize = 0;
    while i < registers.len()
        invariant
            i <= registers@.len(),
            forall|k: int| 0 <= k < i ==> registers@[k] != r,
        decreases registers.len() - i,
    {
        if registers[i] == r {
            assert(registers@[i as int] == r);
            return true;
        }
        i = i + 1;
    }
    false
}

/// Whether some prototype of the module is `proto` and a child of `p`.
fn has_closure_child(m: &BytecodeModule, p: &BytecodePrototype, proto: ProtoId) -> (r: bool)
    ensures
        r == closure_child_ok(m@, p@, proto),
{
    let mut i: usize = 0;
    while i < m.prototypes.len()
        invariant
            i <= m.prototypes@.len(),
            forall|k: int| 0 <= k < i ==> !(#[trigger] m@.prototypes[k].id == proto && m@.prototypes[k].parent == Some(p@.id)),
        decreases m.prototypes.len() - i,
    {
        let candidate = &m.prototypes[i];
        let parent_matches = match candidate.parent {
            Some(parent) => parent == p.id,
            None => false,
        };
        if candidate.id == proto && parent_matches {
            assert(m@.prototypes[i as int].id == proto);
            return true;
        }
        i = i + 1;
    }
    false
}

/// The operand rules of the instruction at `index` and its close-path link.
fn validate_instruction_shape(p: &BytecodePrototype, m: &BytecodeModule, index: usize) -> (r: Result<(), BytecodeError>)
    requires
        index < p.instructions@.len(),
    ensures
        r is Ok <==> operands_ok(m@, p@, index as int, p@.instructions[index as int].instruction)
            && close_link_ok(p@, p@.instructions[index as int]),
        r matches Err(e) ==> e.offset == 0,
        r matches Err(e) ==> e.code == BytecodeErrorCode::Verify,
{
    let entry = &p.instructions[index];
    assert(p@.instructions[index as int] == entry@);
    let reg_msg = "RVLU register 超出 frame";
    let range_msg = "RVLU register range 超出 frame";
    match entry.instruction {
        Instruction::LoadConst { dest, constant } => {
            register_in_frame(p, dest, 0, reg_msg)?;
            if constant.0 as usize >= p.constants.len() {
                return Err(verify_error(0, "RVLU constant index 無效"));
            }
        },
        Instruction::LoadNil { start, count } => {
            if count == 0 {
                return Err(verify_error(0, "RVLU LoadNil count 不可為零"));
            }
            register_in_frame(p, start, count - 1, range_msg)?;
        },
        Instruction::Move { dest, src } => {
            register_in_frame(p, dest, 0, reg_msg)?;
            register_in_frame(p, src, 0, reg_msg)?;
        },
        Instruction::GetUpvalue { dest, upvalue } => {
            register_in_frame(p, dest, 0, reg_msg)?;
            require_upvalue(p, upvalue)?;
        },
        Instruction::SetUpvalue { upvalue, src } => {
            require_upvalue(p, upvalue)?;
            register_in_frame(p, src, 0, reg_msg)?;
        },
        Instruction::NewTable { dest } => {
            register_in_frame(p, dest, 0, reg_msg)?;
        },
        Instruction::GetTable { dest, table, key } => {
            register_in_frame(p, dest, 0, reg_msg)?;
            register_in_frame(p, table, 0, reg_msg)?;
            register_in_frame(p, key, 0, reg_msg)?;
        },
        Instruction::SetTable { table, key, value } => {
            register_in_frame(p, table, 0, reg_msg)?;
            register_in_frame(p, key, 0, reg_msg)?;
            register_in_frame(p, value, 0, reg_msg)?;
        },
        Instruction::UnaryOp { dest, src, .. } => {
            register_in_frame(p, dest, 0, reg_msg)?;
            register_in_frame(p, src, 0, reg_msg)?;
        },
        Instruction::BinaryOp { dest, op, left, right } => {
            if op == BinaryOperation::And || op == BinaryOperation::Or {
                return Err(verify_error(0, "RVLU v2 不可用 BinaryOp 表示 and/or"));
            }
            register_in_frame(p, dest, 0, reg_msg)?;
            register_in_frame(p, left, 0, reg_msg)?;
            register_in_frame(p, right, 0, reg_msg)?;
        },
        Instruction::Jump { target } => {
            require_jump_target(p, index, target)?;
        },
        Instruction::JumpIfFalse { condition, target } => {
            register_in_frame(p, condition, 0, reg_msg)?;
            require_jump_target(p, index, target)?;
        },
        Instruction::Closure { dest, proto } => {
            register_in_frame(p, dest, 0, reg_msg)?;
            if !has_closure_child(m, p, proto) {
                return Err(verify_error(0, "RVLU Closure child prototype 無效"));
            }
        },
        Instruction::Call { base, arg_count, result_mode } => {
            register_in_frame(p, base, arg_count, range_msg)?;
            validate_result_range(p, base, result_mode)?;
        },
        Instruction::TailCall { base, arg_count, result_mode } => {
            register_in_frame(p, base, arg_count, range_msg)?;
            validate_result_range(p, base, result_mode)?;
        },
        Instruction::Vararg { base, result_mode } => {
            if !p.is_variadic {
                return Err(verify_error(0, "RVLU 非 variadic prototype 不可使用 Vararg"));
            }
            register_in_frame(p, base, 0, reg_msg)?;
            validate_result_range(p, base, result_mode)?;
        },
        Instruction::Return { base, result_mode } => {
            register_in_frame(p, base, 0, reg_msg)?;
            validate_result_range(p, base, result_mode)?;
        },
        Instruction::Close { base, count } => {
            if count == 0 {
                return Err(verify_error(0, "RVLU Close count 不可為零"));
            }
            register_in_frame(p, base, count - 1, range_msg)?;
        },
        Instruction::NumericForPrepare { control, limit, step, visible, exit } => {
            validate_numeric_for_registers(p, control, limit, step, visible)?;
            require_jump_target(p, index, exit)?;
            if exit.0 as usize <= index {
                return Err(verify_error(0, "RVLU NumericForPrepare exit 必須為前向 CFG edge"));
            }
        },
        Instruction::NumericForNext { control, limit, step, visible, target, exit } => {
            validate_numeric_for_registers(p, control, limit, step, visible)?;
            require_jump_target(p, index, target)?;
            require_jump_target(p, index, exit)?;
            if target.0 as usize >= index || exit.0 as usize <= index {
                return Err(verify_error(0, "RVLU NumericForNext 必須有後向回邊與前向 exit CFG edge"));
            }
        },
    }
    assert(operands_ok(m@, p@, index as int, entry.instruction));
    match entry.instruction {
        Instruction::Close { base, count } => {
            match &entry.close_path {
                Some(path) => {
                    if count != 1 {
                        return Err(verify_error(0, "RVLU Close 必須連結單一 ClosePath"));
                    }
                    validate_close_path(p, path)?;
                    if !has_close_path(p, path) || !contains_register(&path.registers, base) {
                        return Err(verify_error(0, "RVLU Close 缺少對應 ClosePath"));
                    }
                },
                None => {
                    return Err(verify_error(0, "RVLU Close 必須連結單一 ClosePath"));
                },
            }
        },
        _ => {
            if entry.close_path.is_some() {
                return Err(verify_error(0, "非 Close instruction 不可攜帶 ClosePath"));
            }
        },
    }
    Ok(())
}

proof fn lemma_close_runs_unfold(p: PrototypeModel, i: int, path: ClosePathModel)
    requires
        0 <= i < p.instructions.len(),
        p.instructions[i].instruction is Close,
        p.instructions[i].close_path == Some(path),
    ensures
        close_runs_from(p, i) == (path.registers.len() > 0 && i + path.registers.len() <= p.instructions.len()
            && close_run_ok(p, i, path) && close_run_followed_ok(p, i + path.registers.len(), path)
            && close_runs_from(p, i + path.registers.len())),
{
}

/// The Close runs of the prototype, scanned from the first instruction.
fn validate_close_sequences(p: &BytecodePrototype) -> (r: Result<(), BytecodeError>)
    ensures
        r is Ok <==> close_runs_from(p@, 0),
        r matches Err(e) ==> e.offset == 0,
        r matches Err(e) ==> e.code == BytecodeErrorCode::Verify,
{
    let mut index: usize = 0;
    let len = p.instructions.len();
    while index < len
        invariant
            len == p.instructions@.len(),
            index <= len,
            close_runs_from(p@, 0) == close_runs_from(p@, index as int),
        decreases len - index,
    {
        let entry = &p.instructions[index];
        assert(p@.instructions[index as int] == entry@);
        let is_close = match entry.instruction {
            Instruction::Close { .. } => true,
            _ => false,
        };
        if !is_close || entry.close_path.is_none() {
            index = index + 1;
            continue;
        }
        let path = match &entry.close_path {
            Some(path) => path,
            None => {
                index = index + 1;
                continue;
            },
        };
        let n = path.registers.len();
        assert(p@.instructions[index as int].close_path == Some(path@));
        assert(p@.instructions[index as int].instruction is Close);
        proof {
            lemma_close_runs_unfold(p@, index as int, path@);
        }
        if n == 0 {
            return Err(verify_error(0, "RVLU ClosePath 不可對應空 Close 序列"));
        }
        let mut offset: usize = 0;
        while offset < n
            invariant
                len == p.instructions@.len(),
                index < len,
                n == path.registers@.len(),
                n > 0,
                entry@ == p@.instructions[index as int],
                p@.instructions[index as int].instruction is Close,
                p@.instructions[index as int].close_path == Some(path@),
                close_runs_from(p@, 0) == close_runs_from(p@, index as int),
                entry.close_path == Some(*path),
                offset <= n,
                forall|k: int| 0 <= k < offset ==> index + k < len && (#[trigger] p@.instructions[index + k]).instruction == (Instruction::Close { base: path@.registers[k], count: 1 })
                    && p@.instructions[index + k].close_path == Some(path@),
            decreases n - offset,
        {
            if offset >= len - index {
                proof {
                    lemma_close_runs_unfold(p@, index as int, path@);
                    let k = offset as int;
                    if close_run_ok(p@, index as int, path@) {
                        assert(p@.instructions[index + k].instruction == (Instruction::Close { base: path@.registers[k], count: 1 }));
                    }
                    assert(!close_run_ok(p@, index as int, path@));
                    assert(!close_runs_from(p@, index as int));
                }
                return Err(verify_error(0, "RVLU ClosePath Close 序列缺漏"));
            }
            let actual = &p.instructions[index + offset];
            assert(p@.instructions[index + offset] == actual@);
            let expected = path.registers[offset];
            let matches_close = match actual.instruction {
                Instruction::Close { base, count } => base == expected && count == 1,
                _ => false,
            };
            let matches_path = match &actual.close_path {
                Some(actual_path) => close_path_eq(actual_path, path),
                None => false,
            };
            if !(matches_close && matches_path) {
                proof {
                    lemma_close_runs_unfold(p@, index as int, path@);
                    assert(!close_run_ok(p@, index as int, path@)) by {
                        let k = offset as int;
                        if close_run_ok(p@, index as int, path@) {
                            assert(p@.instructions[index + k].instruction == (Instruction::Close { base: path@.registers[k], count: 1 }));
                        }
                    }
                    assert(!close_runs_from(p@, index as int));
                }
                return Err(verify_error(0, "RVLU ClosePath Close 順序或連續性不符"));
            }
            offset = offset + 1;
        }
        assert(close_run_ok(p@, index as int, path@));
        assert(index + (n - 1) < len) by {
            assert(p@.instructions[index + (n - 1)].instruction == (Instruction::Close { base: path@.registers[n - 1], count: 1 }));
        }
        let after_close = index + n;
        let bad_tail = match path.kind {
            BytecodeExitKind::Return => {
                if after_close < len {
                    match p.instructions[after_close].instruction {
                        Instruction::TailCall { result_mode: ResultMode::All, .. } => true,
                        _ => false,
                    }
                } else {
                    false
                }
            },
            _ => false,
        };
        proof {
            if after_close < len {
                assert(p@.instructions[after_close as int] == p.instructions@[after_close as int]@);
            }
        }
        if bad_tail {
            return Err(verify_error(0, "RVLU 有 pending ClosePath 的 return 不可使用 TailCall(All)"));
        }
        index = after_close;
    }
    Ok(())
}

/// The binding, upvalue and close metadata of a prototype.
fn validate_metadata(p: &BytecodePrototype) -> (r: Result<(), BytecodeError>)
    ensures
        r is Ok <==> metadata_ok(p@),
        r matches Err(e) ==> e.offset == 0,
        r matches Err(e) ==> e.code == BytecodeErrorCode::Verify,
{
    let bs = &p.binding_registers;
    let mut i: usize = 0;
    while i < bs.len()
        invariant
            bs == &p.binding_registers,
            i <= bs@.len(),
            forall|k: int| 0 <= k < i ==> (#[trigger] bs@[k]).1.0 < p.register_count,
            forall|a: int, b: int| 0 <= a < b < i ==> (#[trigger] bs@[a]).0 != (#[trigger] bs@[b]).0,
        decreases bs.len() - i,
    {
        let (binding, register) = bs[i];
        let mut j: usize = 0;
        while j < i
            invariant
                i < bs@.len(),
                j <= i,
                binding == bs@[i as int].0,
                bs == &p.binding_registers,
                forall|k: int| 0 <= k < j ==> (#[trigger] bs@[k]).0 != binding,
            decreases i - j,
        {
            if bs[j].0 == binding {
                assert(p@.binding_registers[j as int].0 == p@.binding_registers[i as int].0);
                assert(!metadata_ok(p@));
                return Err(verify_error(0, "RVLU binding/register metadata 無效"));
            }
            j = j + 1;
        }
        if register.0 >= p.register_count {
            assert(p@.binding_registers[i as int].1.0 >= p.register_count);
            assert(!metadata_ok(p@));
            return Err(verify_error(0, "RVLU binding/register metadata 無效"));
        }
        i = i + 1;
    }
    let root = match p.frame.environment_source {
        EnvironmentSource::RootExternal => true,
        _ => false,
    };
    if root {
        let mut found = false;
        let mut k: usize = 0;
        while k < bs.len()
            invariant
                bs == &p.binding_registers,
                k <= bs@.len(),
                found <==> exists|t: int| 0 <= t < k && (#[trigger] p@.binding_registers[t]).0 == p.global_environment_binding,
            decreases bs.len() - k,
        {
            if bs[k].0 == p.global_environment_binding {
                found = true;
                assert(p@.binding_registers[k as int].0 == p.global_environment_binding);
            }
            k = k + 1;
        }
        if !found {
            return Err(verify_error(0, "RVLU root environment binding 缺少 register"));
        }
    }
    let us = &p.upvalues;
    let mut u: usize = 0;
    while u < us.len()
        invariant
            us == &p.upvalues,
            u <= us@.len(),
            forall|k: int| 0 <= k < u ==> (#[trigger] us@[k]).id.0 < us@.len(),
            forall|a: int, b: int| 0 <= a < b < u ==> (#[trigger] us@[a]).id != (#[trigger] us@[b]).id,
        decreases us.len() - u,
    {
        let id = us[u].id;
        if id.0 as usize >= us.len() {
            assert(p@.upvalues[u as int].id.0 >= us@.len());
            assert(!metadata_ok(p@));
            return Err(verify_error(0, "RVLU upvalue metadata 無效"));
        }
        let mut j: usize = 0;
        while j < u
            invariant
                u < us@.len(),
                j <= u,
                id == us@[u as int].id,
                us == &p.upvalues,
                forall|k: int| 0 <= k < j ==> (#[trigger] us@[k]).id != id,
            decreases u - j,
        {
            if us[j].id == id {
                assert(p@.upvalues[j as int].id == p@.upvalues[u as int].id);
                assert(!metadata_ok(p@));
                return Err(verify_error(0, "RVLU upvalue metadata 無效"));
            }
            j = j + 1;
        }
        u = u + 1;
    }
    let mut c: usize = 0;
    while c < p.close_paths.len()
        invariant
            c <= p.close_paths@.len(),
            forall|k: int| 0 <= k < c ==> close_path_ok(p@, #[trigger] p@.close_paths[k]),
        decreases p.close_paths.len() - c,
    {
        assert(p@.close_paths[c as int] == p.close_paths@[c as int]@);
        validate_close_path(p, &p.close_paths[c])?;
        c = c + 1;
    }
    let ghost q = p@;
    assert(forall|i: int| 0 <= i < q.binding_registers.len() ==> (#[trigger] q.binding_registers[i]).1.0 < p.register_count);
    assert(forall|i: int, j: int| 0 <= i < j < q.binding_registers.len() ==> (#[trigger] q.binding_registers[i]).0 != (#[trigger] q.binding_registers[j]).0);
    assert(q.frame.environment_source is RootExternal ==> exists|i: int| 0 <= i < q.binding_registers.len() && (#[trigger] q.binding_registers[i]).0 == q.global_environment_binding);
    assert(forall|i: int| 0 <= i < q.upvalues.len() ==> (#[trigger] q.upvalues[i]).id.0 < q.upvalues.len());
    assert(forall|i: int, j: int| 0 <= i < j < q.upvalues.len() ==> (#[trigger] q.upvalues[i]).id != (#[trigger] q.upvalues[j]).id);
    validate_close_sequences(p)
}

// ---------------------------------------------------------------------------
// Numeric for loops.

/// The Prepare that a Next at `n` belongs to, by its four registers; the
/// pairs found are returned.
fn validate_numeric_for_pairs(p: &BytecodePrototype) -> (r: Result<Vec<(usize, usize)>, BytecodeError>)
    ensures
        r is Ok <==> numeric_pairs_ok(p@),
        r matches Ok(pairs) ==> {
            &&& forall|k: int| 0 <= k < pairs@.len() ==> pairs_with(p@, (#[trigger] pairs@[k]).0 as int, pairs@[k].1 as int)
            &&& forall|q: int, n: int| #[trigger] pairs_with(p@, q, n) ==> exists|k: int| 0 <= k < pairs@.len() && #[trigger] pairs@[k] == (q as usize, n as usize)
        },
        r matches Err(e) ==> e.offset == 0,
        r matches Err(e) ==> e.code == BytecodeErrorCode::Verify,
{
    let len = p.instructions.len();
    let mut pairs: Vec<(usize, usize)> = Vec::new();
    let mut n: usize = 0;
    while n < len
        invariant
            len == p.instructions@.len(),
            n <= len,
            forall|k: int| 0 <= k < pairs@.len() ==> pairs_with(p@, (#[trigger] pairs@[k]).0 as int, pairs@[k].1 as int),
            forall|k: int| 0 <= k < pairs@.len() ==> (#[trigger] pairs@[k]).1 < n,
            forall|q: int, m: int| #[trigger] pairs_with(p@, q, m) && m < n ==> exists|k: int| 0 <= k < pairs@.len() && #[trigger] pairs@[k] == (q as usize, m as usize),
            forall|m: int| 0 <= m < n && (#[trigger] p@.instructions[m]).instruction is NumericForNext ==> exists|q: int| #[trigger] pairs_with(p@, q, m),
        decreases len - n,
    {
        assert(p@.instructions[n as int] == p.instructions@[n as int]@);
        match p.instructions[n].instruction {
            Instruction::NumericForNext { control, limit, step, visible, target, exit } => {
                let mut found: Option<usize> = None;
                let mut duplicate = false;
                let mut other: usize = 0;
                let mut q: usize = 0;
                while q < len
                    invariant
                        len == p.instructions@.len(),
                        n < len,
                        q <= len,
                        found is None ==> forall|t: int| 0 <= t < q ==> !is_prepare_for(p@, t, control, limit, step, visible),
                        found matches Some(f) ==> f < q && is_prepare_for(p@, f as int, control, limit, step, visible),
                        (found is Some && !duplicate) ==> forall|t: int| 0 <= t < q && is_prepare_for(p@, t, control, limit, step, visible) ==> t == found->0,
                        duplicate ==> found is Some && other < q && is_prepare_for(p@, other as int, control, limit, step, visible) && Some(other) != found,
                    decreases len - q,
                {
                    assert(p@.instructions[q as int] == p.instructions@[q as int]@);
                    let is_match = match p.instructions[q].instruction {
                        Instruction::NumericForPrepare { control: c, limit: l, step: s, visible: v, .. } => {
                            c == control && l == limit && s == step && v == visible
                        },
                        _ => false,
                    };
                    assert(is_match == is_prepare_for(p@, q as int, control, limit, step, visible));
                    if is_match {
                        match found {
                            None => {
                                found = Some(q);
                            },
                            Some(_) => {
                                if !duplicate {
                                    duplicate = true;
                                    other = q;
                                }
                            },
                        }
                    }
                    q = q + 1;
                }
                let f = match found {
                    Some(f) => {
                        if duplicate {
                            proof {
                                assert forall|t: int| !pairs_with(p@, t, n as int) by {
                                    if pairs_with(p@, t, n as int) {
                                        assert(is_prepare_for(p@, f as int, control, limit, step, visible));
                                        assert(is_prepare_for(p@, other as int, control, limit, step, visible));
                                    }
                                }
                            }
                            return Err(verify_error(0, "RVLU NumericForNext 必須唯一配對 NumericForPrepare"));
                        }
                        f
                    },
                    None => {
                        proof {
                            assert forall|t: int| !pairs_with(p@, t, n as int) by {
                                if pairs_with(p@, t, n as int) {
                                    assert(is_prepare_for(p@, t, control, limit, step, visible));
                                }
                            }
                        }
                        return Err(verify_error(0, "RVLU NumericForNext 必須唯一配對 NumericForPrepare"));
                    },
                };
                assert(p@.instructions[f as int] == p.instructions@[f as int]@);
                let prepare_exit_value = match p.instructions[f].instruction {
                    Instruction::NumericForPrepare { exit: e, .. } => e,
                    _ => InstructionOffset(0),
                };
                assert(prepare_exit_value == prepare_exit(p@, f as int));
                if prepare_exit_value != exit || f >= usize::MAX || f + 1 != target.0 as usize || target.0 as usize >= n {
                    proof {
                        assert forall|t: int| !pairs_with(p@, t, n as int) by {
                            if pairs_with(p@, t, n as int) {
                                assert(is_prepare_for(p@, t, control, limit, step, visible));
                                assert(t == f);
                            }
                        }
                    }
                    return Err(verify_error(0, "RVLU NumericForPrepare/Next 的 body target 或 exit 不符"));
                }
                assert(pairs_with(p@, f as int, n as int));
                let ghost old_pairs = pairs@;
                pairs.push((f, n));
                proof {
                    assert(pairs@[old_pairs.len() as int] == (f, n));
                    assert forall|q2: int, m: int| #[trigger] pairs_with(p@, q2, m) && m < n + 1 implies exists|k: int| 0 <= k < pairs@.len() && #[trigger] pairs@[k] == (q2 as usize, m as usize) by {
                        if m == n {
                            assert(q2 == f as int) by {
                                assert(is_prepare_for(p@, q2, control, limit, step, visible));
                            }
                            assert(pairs@[old_pairs.len() as int] == (q2 as usize, m as usize));
                        } else {
                            let k = choose|k: int| 0 <= k < old_pairs.len() && #[trigger] old_pairs[k] == (q2 as usize, m as usize);
                            assert(pairs@[k] == old_pairs[k]);
                        }
                    }
                }
            },
            _ => {
                proof {
                    assert forall|q2: int, m: int| #[trigger] pairs_with(p@, q2, m) && m < n + 1 implies exists|k: int| 0 <= k < pairs@.len() && #[trigger] pairs@[k] == (q2 as usize, m as usize) by {
                        if m == n {
                            assert(!pairs_with(p@, q2, m));
                        }
                    }
                }
            },
        }
        n = n + 1;
    }
    assert(forall|k: int| 0 <= k < pairs@.len() ==> pairs_with(p@, (#[trigger] pairs@[k]).0 as int, pairs@[k].1 as int));
    assert(forall|q: int, m: int| #[trigger] pairs_with(p@, q, m) ==> exists|k: int| 0 <= k < pairs@.len() && #[trigger] pairs@[k] == (q as usize, m as usize)) by {
        assert forall|q: int, m: int| #[trigger] pairs_with(p@, q, m) implies exists|k: int| 0 <= k < pairs@.len() && #[trigger] pairs@[k] == (q as usize, m as usize) by {
            assert(m < n);
        }
    }
    assert(numeric_pairs_ok(p@));
    let r: Result<Vec<(usize, usize)>, BytecodeError> = Ok(pairs);
    assert(r matches Ok(v) && v@ == pairs@);
    r
}

pub open spec fn count_true(s: Seq<bool>) -> nat
    decreases s.len(),
{
    if s.len() == 0 {
        0
    } else {
        count_true(s.drop_last()) + if s.last() { 1nat } else { 0nat }
    }
}

proof fn lemma_count_true_bound(s: Seq<bool>)
    ensures
        count_true(s) <= s.len(),
    decreases s.len(),
{
    if s.len() > 0 {
        lemma_count_true_bound(s.drop_last());
    }
}

proof fn lemma_count_true_set(s: Seq<bool>, i: int)
    requires
        0 <= i < s.len(),
        !s[i],
    ensures
        count_true(s.update(i, true)) == count_true(s) + 1,
        count_true(s) < s.len(),
    decreases s.len(),
{
    let t = s.update(i, true);
    if i == s.len() - 1 {
        assert(t.drop_last() =~= s.drop_last());
        lemma_count_true_bound(s.drop_last());
    } else {
        assert(t.drop_last() =~= s.drop_last().update(i, true));
        lemma_count_true_set(s.drop_last(), i);
    }
}

pub open spec fn avoid_index(avoid: Option<usize>) -> int {
    match avoid {
        Some(a) => a as int,
        None => -1,
    }
}

/// The control-flow successors of instruction `i`.
fn cfg_successors(p: &BytecodePrototype, avoid: Option<usize>, i: usize) -> (r: Vec<usize>)
    requires
        i < p.instructions@.len(),
    ensures
        forall|k: int| 0 <= k < r@.len() ==> #[trigger] cfg_edge(p@, avoid_index(avoid), i as int, r@[k] as int),
        forall|j: int| #[trigger] cfg_edge(p@, avoid_index(avoid), i as int, j) ==> r@.contains(j as usize),
{
    let len = p.instructions.len();
    let mut out: Vec<usize> = Vec::new();
    assert(p@.instructions[i as int] == p.instructions@[i as int]@);
    match p.instructions[i].instruction {
        Instruction::Jump { target } => {
            if (target.0 as usize) < len {
                out.push(target.0 as usize);
            }
        },
        Instruction::JumpIfFalse { target, .. } => {
            if (target.0 as usize) < len {
                out.push(target.0 as usize);
            }
            if i + 1 < len {
                out.push(i + 1);
            }
        },
        Instruction::NumericForPrepare { exit, .. } => {
            if (exit.0 as usize) < len {
                out.push(exit.0 as usize);
            }
            let blocked = match avoid {
                Some(a) => a == i,
                None => false,
            };
            if !blocked && i + 1 < len {
                out.push(i + 1);
            }
        },
        Instruction::NumericForNext { target, exit, .. } => {
            if (target.0 as usize) < len {
                out.push(target.0 as usize);
            }
            if (exit.0 as usize) < len {
                out.push(exit.0 as usize);
            }
        },
        Instruction::Return { .. } => {},
        Instruction::TailCall { .. } => {},
        _ => {
            if i + 1 < len {
                out.push(i + 1);
            }
        },
    }
    proof {
        assert forall|j: int| #[trigger] cfg_edge(p@, avoid_index(avoid), i as int, j) implies out@.contains(j as usize) by {
            if out@.len() > 0 && out@[0] == j as usize {
                assert(out@.contains(j as usize));
            } else if out@.len() > 1 && out@[1] == j as usize {
                assert(out@.contains(j as usize));
            }
        }
    }
    out
}

proof fn lemma_push_contains(s: Seq<usize>, x: usize)
    ensures
        forall|k: usize| s.contains(k) ==> #[trigger] s.push(x).contains(k),
        s.push(x).contains(x),
{
    assert(s.push(x)[s.len() as int] == x);
    assert forall|k: usize| s.contains(k) implies #[trigger] s.push(x).contains(k) by {
        let i = choose|i: int| 0 <= i < s.len() && s[i] == k;
        assert(s.push(x)[i] == k);
    }
}

proof fn lemma_pop_contains(s: Seq<usize>)
    requires
        s.len() > 0,
    ensures
        forall|k: usize| s.contains(k) && k != s.last() ==> #[trigger] s.drop_last().contains(k),
{
    assert forall|k: usize| s.contains(k) && k != s.last() implies #[trigger] s.drop_last().contains(k) by {
        let i = choose|i: int| 0 <= i < s.len() && s[i] == k;
        assert(i != s.len() - 1);
        assert(s.drop_last()[i] == k);
    }
}

proof fn lemma_reach_step(p: PrototypeModel, avoid: int, k: int, j: int)
    requires
        cfg_reaches(p, avoid, k),
        cfg_edge(p, avoid, k, j),
    ensures
        cfg_reaches(p, avoid, j),
{
    assert forall|s: Set<int>| #[trigger] cfg_closed(p, avoid, s) && s.contains(0) implies s.contains(j) by {
        assert(s.contains(k));
    }
}

/// The instructions reachable from the entry, the body edge of the Prepare
/// at `avoid` left out.
fn reachable_set(p: &BytecodePrototype, avoid: Option<usize>) -> (r: Vec<bool>)
    requires
        p.instructions@.len() > 0,
    ensures
        r@.len() == p.instructions@.len(),
        forall|k: int| 0 <= k < r@.len() ==> (#[trigger] r@[k] <==> cfg_reaches(p@, avoid_index(avoid), k)),
{
    let len = p.instructions.len();
    let ghost av = avoid_index(avoid);
    let mut visited: Vec<bool> = Vec::new();
    let mut t: usize = 0;
    while t < len
        invariant
            t <= len,
            visited@.len() == t,
            forall|k: int| 0 <= k < t ==> !visited@[k],
        decreases len - t,
    {
        visited.push(false);
        t = t + 1;
    }
    proof {
        lemma_count_true_set(visited@, 0);
        assert(cfg_reaches(p@, av, 0));
    }
    visited.set(0, true);
    let mut stack: Vec<usize> = Vec::new();
    stack.push(0);
    assert(stack@[0] == 0);
    assert(stack@.contains(0usize));
    while stack.len() > 0
        invariant
            av == avoid_index(avoid),
            len == p.instructions@.len(),
            visited@.len() == len,
            visited@[0],
            count_true(visited@) <= len,
            forall|k: int| 0 <= k < stack@.len() ==> (#[trigger] stack@[k]) < len && visited@[stack@[k] as int],
            forall|k: int| 0 <= k < len && #[trigger] visited@[k] ==> cfg_reaches(p@, av, k),
            forall|k: int| 0 <= k < len && #[trigger] visited@[k] && !stack@.contains(k as usize) ==> forall|j: int| #[trigger] cfg_edge(p@, av, k, j) ==> visited@[j],
        decreases 2 * (len - count_true(visited@)) + stack@.len(),
    {
        let ghost old_stack = stack@;
        let ghost measure0 = 2 * (len - count_true(visited@)) + stack@.len();
        let node = stack.pop().unwrap();
        assert(stack@ =~= old_stack.drop_last());
        proof {
            lemma_pop_contains(old_stack);
        }
        let succs = cfg_successors(p, avoid, node);
        let mut s: usize = 0;
        while s < succs.len()
            invariant
                av == avoid_index(avoid),
                len == p.instructions@.len(),
                visited@.len() == len,
                visited@[0],
                node < len,
                visited@[node as int],
                count_true(visited@) <= len,
                s <= succs@.len(),
                forall|k: int| 0 <= k < succs@.len() ==> #[trigger] cfg_edge(p@, av, node as int, succs@[k] as int),
                forall|j: int| #[trigger] cfg_edge(p@, av, node as int, j) ==> succs@.contains(j as usize),
                forall|k: int| 0 <= k < s ==> (#[trigger] succs@[k]) < len && visited@[succs@[k] as int],
                forall|k: int| 0 <= k < stack@.len() ==> (#[trigger] stack@[k]) < len && visited@[stack@[k] as int],
                forall|k: int| 0 <= k < len && #[trigger] visited@[k] ==> cfg_reaches(p@, av, k),
                forall|k: int| 0 <= k < len && #[trigger] visited@[k] && !stack@.contains(k as usize) && k != node ==> forall|j: int| #[trigger] cfg_edge(p@, av, k, j) ==> visited@[j],
                2 * (len - count_true(visited@)) + stack@.len() < measure0,
            decreases succs@.len() - s,
        {
            let next = succs[s];
            assert(cfg_edge(p@, av, node as int, succs@[s as int] as int));
            let ghost old_visited = visited@;
            let ghost stack_before = stack@;
            if !visited[next] {
                proof {
                    lemma_count_true_set(visited@, next as int);
                    lemma_reach_step(p@, av, node as int, next as int);
                    lemma_push_contains(stack@, next);
                }
                visited.set(next, true);
                stack.push(next);
                assert(stack@ =~= stack_before.push(next));
            }
            assert(visited@[next as int]);
            assert(forall|k: int| 0 <= k < len && old_visited[k] ==> visited@[k]);
            s = s + 1;
        }
        proof {
            assert forall|j: int| #[trigger] cfg_edge(p@, av, node as int, j) implies visited@[j] by {
                assert(succs@.contains(j as usize));
                let k = choose|k: int| 0 <= k < succs@.len() && succs@[k] == j as usize;
                assert(visited@[succs@[k] as int]);
            }
        }
    }
    proof {
        let closed = Set::new(|k: int| 0 <= k < len && visited@[k]);
        assert(cfg_closed(p@, av, closed)) by {
            assert forall|i: int, j: int| closed.contains(i) && #[trigger] cfg_edge(p@, av, i, j) implies closed.contains(j) by {
                assert(!stack@.contains(i as usize));
            }
        }
        assert forall|k: int| 0 <= k < len && cfg_reaches(p@, av, k) implies visited@[k] by {
            assert(closed.contains(0));
            assert(closed.contains(k));
        }
    }
    visited
}

proof fn lemma_pairs_with_range(p: PrototypeModel, q: int, n: int)
    requires
        pairs_with(p, q, n),
    ensures
        0 <= q < p.instructions.len(),
        0 <= n < p.instructions.len(),
{
}

/// Every reachable Next of a pair lies behind the body edge of its Prepare.
fn validate_numeric_for_body_dominance(p: &BytecodePrototype, pairs: &Vec<(usize, usize)>) -> (r: Result<(), BytecodeError>)
    requires
        forall|k: int| 0 <= k < pairs@.len() ==> pairs_with(p@, (#[trigger] pairs@[k]).0 as int, pairs@[k].1 as int),
        forall|q: int, n: int| #[trigger] pairs_with(p@, q, n) ==> exists|k: int| 0 <= k < pairs@.len() && #[trigger] pairs@[k] == (q as usize, n as usize),
    ensures
        r is Ok <==> numeric_bodies_ok(p@),
        r matches Err(e) ==> e.offset == 0,
        r matches Err(e) ==> e.code == BytecodeErrorCode::Verify,
{
    let len = p.instructions.len();
    if pairs.len() == 0 {
        return Ok(());
    }
    assert(pairs_with(p@, pairs@[0].0 as int, pairs@[0].1 as int));
    let full = reachable_set(p, None);
    let mut k: usize = 0;
    while k < pairs.len()
        invariant
            full@.len() == p.instructions@.len(),
            forall|t: int| 0 <= t < full@.len() ==> (#[trigger] full@[t] <==> cfg_reaches(p@, -1, t)),
            forall|t: int| 0 <= t < pairs@.len() ==> pairs_with(p@, (#[trigger] pairs@[t]).0 as int, pairs@[t].1 as int),
            k <= pairs@.len(),
            forall|t: int| 0 <= t < k ==> {
                let q = (#[trigger] pairs@[t]).0 as int;
                let n = pairs@[t].1 as int;
                cfg_reaches(p@, -1, n) ==> !cfg_reaches(p@, q, n)
            },
        decreases pairs.len() - k,
    {
        let (q, n) = pairs[k];
        assert(pairs_with(p@, q as int, n as int));
        if full[n] {
            let avoiding = reachable_set(p, Some(q));
            if avoiding[n] {
                assert(!numeric_bodies_ok(p@)) by {
                    assert(pairs_with(p@, q as int, n as int));
                }
                return Err(verify_error(0, "RVLU NumericForNext 路徑未經對應 NumericForPrepare body entry"));
            }
        }
        k = k + 1;
    }
    assert forall|q: int, n: int| #[trigger] pairs_with(p@, q, n) && cfg_reaches(p@, -1, n) implies !cfg_reaches(p@, q, n) by {
        lemma_pairs_with_range(p@, q, n);
        let t = choose|t: int| 0 <= t < pairs@.len() && #[trigger] pairs@[t] == (q as usize, n as usize);
        assert(pairs_with(p@, pairs@[t].0 as int, pairs@[t].1 as int));
        assert(pairs@[t].0 as int == q);
        assert(pairs@[t].1 as int == n);
    }
    Ok(())
}

pub open spec fn count_some(s: Seq<Option<Option<Register>>>) -> nat
    decreases s.len(),
{
    if s.len() == 0 {
        0
    } else {
        count_some(s.drop_last()) + if s.last() is Some { 1nat } else { 0nat }
    }
}

proof fn lemma_count_some_bound(s: Seq<Option<Option<Register>>>)
    ensures
        count_some(s) <= s.len(),
    decreases s.len(),
{
    if s.len() > 0 {
        lemma_count_some_bound(s.drop_last());
    }
}

proof fn lemma_count_some_set(s: Seq<Option<Option<Register>>>, i: int, v: Option<Register>)
    requires
        0 <= i < s.len(),
        s[i] is None,
    ensures
        count_some(s.update(i, Some(v))) == count_some(s) + 1,
        count_some(s) < s.len(),
    decreases s.len(),
{
    let t = s.update(i, Some(v));
    if i == s.len() - 1 {
        assert(t.drop_last() =~= s.drop_last());
        lemma_count_some_bound(s.drop_last());
    } else {
        assert(t.drop_last() =~= s.drop_last().update(i, Some(v)));
        lemma_count_some_set(s.drop_last(), i, v);
    }
}

/// The instruction at `k` is finished in `states`: it allows its label, does
/// not fall off the end, and its successors carry its outgoing open result.
pub open spec fn flow_done(p: PrototypeModel, states: Seq<Option<Option<Register>>>, k: int) -> bool {
    &&& open_allowed(p.instructions[k].instruction, states[k]->0)
    &&& !falls_off(p, k)
    &&& forall|j: int| #[trigger] flow_edge(p, k, j) ==> 0 <= j < states.len() && states[j] == Some(
        open_after(p.instructions[k].instruction, states[k]->0),
    )
}

/// The flow successors of instruction `i`, in range or not.
fn flow_successors(p: &BytecodePrototype, i: usize) -> (r: Vec<usize>)
    requires
        i < p.instructions@.len(),
    ensures
        forall|k: int| 0 <= k < r@.len() ==> #[trigger] flow_edge(p@, i as int, r@[k] as int),
        forall|j: int| #[trigger] flow_edge(p@, i as int, j) ==> 0 <= j <= usize::MAX && r@.contains(j as usize),
{
    let mut out: Vec<usize> = Vec::new();
    let len = p.instructions.len();
    assert(p@.instructions[i as int] == p.instructions@[i as int]@);
    let next = i + 1;
    match p.instructions[i].instruction {
        Instruction::Jump { target } => {
            out.push(target.0 as usize);
        },
        Instruction::JumpIfFalse { target, .. } => {
            out.push(target.0 as usize);
            out.push(next);
        },
        Instruction::NumericForPrepare { exit, .. } => {
            out.push(exit.0 as usize);
            out.push(next);
        },
        Instruction::NumericForNext { target, exit, .. } => {
            out.push(target.0 as usize);
            out.push(exit.0 as usize);
        },
        Instruction::Return { .. } => {},
        Instruction::TailCall { .. } => {},
        _ => {
            out.push(next);
        },
    }
    proof {
        assert forall|j: int| #[trigger] flow_edge(p@, i as int, j) implies 0 <= j <= usize::MAX && out@.contains(j as usize) by {
            if out@.len() > 0 && out@[0] == j {
                assert(out@.contains(j as usize));
            } else if out@.len() > 1 && out@[1] == j {
                assert(out@.contains(j as usize));
            }
        }
    }
    out
}

/// The open-result discipline of one prototype, checked by a worklist over
/// its reachable instructions.
fn verify_control_and_dataflow(p: &BytecodePrototype, limits: &VerifyLimits) -> (r: Result<(), BytecodeError>)
    ensures
        r is Ok <==> dataflow_ok(p@, *limits),
        r matches Err(e) ==> e.offset == 0,
        r matches Err(e) ==> e.code == BytecodeErrorCode::Verify || e.code == BytecodeErrorCode::CompileLimit,
{
    let len = p.instructions.len();
    if len == 0 {
        return Err(verify_error(0, "RVLU prototype 不可空且不得 fall-through"));
    }
    if p.frame.dynamic_top.0 < p.frame.initial_top.0 {
        return Err(verify_error(0, "RVLU frame dynamic top 不可低於 initial top"));
    }
    if len > limits.max_instructions {
        return Err(limit_error(0, "RVLU CFG worklist 超過限制"));
    }
    let mut states: Vec<Option<Option<Register>>> = Vec::new();
    let mut t: usize = 0;
    while t < len
        invariant
            t <= len,
            states@.len() == t,
            forall|k: int| 0 <= k < t ==> states@[k] is None,
        decreases len - t,
    {
        states.push(None);
        t = t + 1;
    }
    proof {
        lemma_count_some_set(states@, 0, None);
    }
    states.set(0, Some(None));
    let mut worklist: Vec<usize> = Vec::new();
    worklist.push(0);
    assert(worklist@[0] == 0);
    assert(worklist@.contains(0usize));
    while worklist.len() > 0
        invariant
            len == p.instructions@.len(),
            len > 0,
            len <= limits.max_instructions,
            states@.len() == len,
            states@[0] == Some(None::<Register>),
            count_some(states@) <= len,
            worklist@.len() <= count_some(states@),
            forall|k: int| 0 <= k < worklist@.len() ==> (#[trigger] worklist@[k]) < len && states@[worklist@[k] as int] is Some,
            forall|lab: Seq<Option<Option<Register>>>, k: int|
                #[trigger] open_labelling(p@, lab) && 0 <= k < len && (#[trigger] states@[k]) is Some ==> lab[k] == states@[k],
            forall|k: int| 0 <= k < len && (#[trigger] states@[k]) is Some && !worklist@.contains(k as usize) ==> flow_done(p@, states@, k),
        decreases 2 * (len - count_some(states@)) + worklist@.len(),
    {
        let ghost old_work = worklist@;
        let ghost measure0 = 2 * (len - count_some(states@)) + worklist@.len();
        let index = worklist.pop().unwrap();
        assert(worklist@ =~= old_work.drop_last());
        proof {
            lemma_pop_contains(old_work);
        }
        let open = match states[index] {
            Some(open) => open,
            None => {
                return Err(verify_error(0, "RVLU CFG worklist state 遺失"));
            },
        };
        assert(p@.instructions[index as int] == p.instructions@[index as int]@);
        let instruction = p.instructions[index].instruction;
        let ghost ins = instruction;
        let allowed_first = match open {
            None => true,
            Some(_) => match instruction {
                Instruction::Close { .. } => true,
                Instruction::Return { result_mode: ResultMode::All, .. } => true,
                _ => false,
            },
        };
        if !allowed_first {
            assert(!dataflow_ok(p@, *limits));
            return Err(verify_error(0, "RVLU open result 未立即流向 Return(All)"));
        }
        let next_open = match instruction {
            Instruction::Call { base, result_mode: ResultMode::All, .. } => Some(base),
            Instruction::Vararg { base, result_mode: ResultMode::All } => Some(base),
            Instruction::Return { base, result_mode: ResultMode::All } => {
                let same = match open {
                    Some(o) => o == base,
                    None => false,
                };
                if !same {
                    assert(!dataflow_ok(p@, *limits));
                    return Err(verify_error(0, "RVLU Return(All) 缺少相同 open result"));
                }
                None
            },
            Instruction::TailCall { result_mode: ResultMode::All, .. } => None,
            _ => open,
        };
        assert(next_open == open_after(ins, open));
        assert(open_allowed(ins, open));
        let falls = match instruction {
            Instruction::Jump { .. } => false,
            Instruction::NumericForNext { .. } => false,
            Instruction::Return { .. } => false,
            Instruction::TailCall { .. } => false,
            _ => index + 1 >= len,
        };
        if falls {
            assert(falls_off(p@, index as int));
            assert(!dataflow_ok(p@, *limits));
            return Err(verify_error(0, "RVLU reachable fall-through 到 proto 尾端"));
        }
        let succs = flow_successors(p, index);
        let mut s: usize = 0;
        while s < succs.len()
            invariant
                len == p.instructions@.len(),
                len > 0,
                len <= limits.max_instructions,
                states@.len() == len,
                states@[0] == Some(None::<Register>),
                index < len,
                states@[index as int] == Some(open),
                ins == p@.instructions[index as int].instruction,
                next_open == open_after(ins, open),
                open_allowed(ins, open),
                !falls_off(p@, index as int),
                count_some(states@) <= len,
                worklist@.len() < count_some(states@),
                s <= succs@.len(),
                forall|k: int| 0 <= k < succs@.len() ==> #[trigger] flow_edge(p@, index as int, succs@[k] as int),
                forall|j: int| #[trigger] flow_edge(p@, index as int, j) ==> 0 <= j <= usize::MAX && succs@.contains(j as usize),
                forall|k: int| 0 <= k < s ==> (#[trigger] succs@[k]) < len && states@[succs@[k] as int] == Some(next_open),
                forall|k: int| 0 <= k < worklist@.len() ==> (#[trigger] worklist@[k]) < len && states@[worklist@[k] as int] is Some,
                forall|lab: Seq<Option<Option<Register>>>, k: int|
                    #[trigger] open_labelling(p@, lab) && 0 <= k < len && (#[trigger] states@[k]) is Some ==> lab[k] == states@[k],
                forall|k: int| 0 <= k < len && (#[trigger] states@[k]) is Some && !worklist@.contains(k as usize) && k != index ==> flow_done(p@, states@, k),
                2 * (len - count_some(states@)) + worklist@.len() < measure0,
            decreases succs@.len() - s,
        {
            let successor = succs[s];
            assert(flow_edge(p@, index as int, succs@[s as int] as int));
            if successor >= len {
                assert(!dataflow_ok(p@, *limits)) by {
                    if dataflow_ok(p@, *limits) {
                        let lab = choose|lab: Seq<Option<Option<Register>>>| #[trigger] open_labelling(p@, lab);
                        assert(lab[index as int] == states@[index as int]);
                    }
                }
                return Err(verify_error(0, "RVLU CFG successor 超出範圍"));
            }
            let j = successor;
            match states[j] {
                Some(existing) => {
                    if existing != next_open {
                        assert(!dataflow_ok(p@, *limits)) by {
                            if dataflow_ok(p@, *limits) {
                                let lab = choose|lab: Seq<Option<Option<Register>>>| #[trigger] open_labelling(p@, lab);
                                assert(lab[index as int] == states@[index as int]);
                                assert(lab[j as int] == states@[j as int]);
                            }
                        }
                        return Err(verify_error(0, "RVLU CFG join dynamic top 不一致"));
                    }
                },
                None => {
                    if worklist.len() >= limits.max_instructions {
                        proof {
                            lemma_count_some_set(states@, j as int, next_open);
                        }
                        return Err(limit_error(0, "RVLU CFG worklist 超過限制"));
                    }
                    let ghost old_states = states@;
                    let ghost work_before = worklist@;
                    proof {
                        lemma_count_some_set(states@, j as int, next_open);
                        lemma_push_contains(worklist@, j);
                        assert forall|lab: Seq<Option<Option<Register>>>| #[trigger] open_labelling(p@, lab) implies lab[j as int] == Some(next_open) by {
                            assert(lab[index as int] == states@[index as int]);
                        }
                    }
                    states.set(j, Some(next_open));
                    worklist.push(j);
                    assert(worklist@ =~= work_before.push(j));
                    assert forall|k: int| 0 <= k < len && (#[trigger] states@[k]) is Some && !worklist@.contains(k as usize) && k != index implies flow_done(p@, states@, k) by {
                        assert(old_states[k] is Some);
                        assert(flow_done(p@, old_states, k));
                        assert forall|jj: int| #[trigger] flow_edge(p@, k, jj) implies 0 <= jj < states@.len() && states@[jj] == Some(open_after(p@.instructions[k].instruction, states@[k]->0)) by {
                            assert(old_states[jj] is Some);
                        }
                    }
                },
            }
            s = s + 1;
        }
        assert(flow_done(p@, states@, index as int)) by {
            assert forall|jj: int| #[trigger] flow_edge(p@, index as int, jj) implies 0 <= jj < states@.len() && states@[jj] == Some(open_after(p@.instructions[index as int].instruction, states@[index as int]->0)) by {
                assert(succs@.contains(jj as usize));
                let k = choose|k: int| 0 <= k < succs@.len() && succs@[k] == jj as usize;
                assert(states@[succs@[k] as int] == Some(next_open));
            }
        }
    }
    assert(open_labelling(p@, states@)) by {
        assert forall|i: int| 0 <= i < states@.len() && (#[trigger] states@[i]) is Some implies {
            &&& open_allowed(p@.instructions[i].instruction, states@[i]->0)
            &&& !falls_off(p@, i)
            &&& forall|j: int| #[trigger] flow_edge(p@, i, j) ==> 0 <= j < states@.len() && states@[j] == Some(open_after(p@.instructions[i].instruction, states@[i]->0))
        } by {
            assert(!worklist@.contains(i as usize));
            assert(flow_done(p@, states@, i));
        }
    }
    Ok(())
}

/// The first prototype of the module with identity `id`.
pub fn find_proto_index(m: &BytecodeModule, id: ProtoId) -> (r: Option<usize>)
    ensures
        r matches Some(i) ==> first_proto_index(m@, id, i as int),
        r is None ==> !has_proto(m@, id),
{
    let mut i: usize = 0;
    while i < m.prototypes.len()
        invariant
            i <= m.prototypes@.len(),
            forall|j: int| 0 <= j < i ==> (#[trigger] m@.prototypes[j]).id != id,
        decreases m.prototypes.len() - i,
    {
        assert(m@.prototypes[i as int] == m.prototypes@[i as int]@);
        if m.prototypes[i].id == id {
            return Some(i);
        }
        i = i + 1;
    }
    None
}

proof fn lemma_first_proto_index_unique(m: ModuleModel, id: ProtoId, a: int, b: int)
    requires
        first_proto_index(m, id, a),
        first_proto_index(m, id, b),
    ensures
        a == b,
{
    if a < b {
        assert(m.prototypes[a].id == id);
    } else if b < a {
        assert(m.prototypes[b].id == id);
    }
}

fn environment_source_valid(p: &BytecodePrototype, m: &BytecodeModule) -> (r: Result<(), BytecodeError>)
    ensures
        r is Ok <==> environment_ok(m@, p@),
        r matches Err(e) ==> e.offset == 0,
        r matches Err(e) ==> e.code == BytecodeErrorCode::Verify,
{
    match p.frame.environment_source {
        EnvironmentSource::RootExternal => {
            if p.parent.is_some() {
                return Err(verify_error(0, "非 root frame 不可使用外部 environment source"));
            }
            Ok(())
        },
        EnvironmentSource::ParentFrame { parent, register } => {
            let found = find_proto_index(m, parent);
            match found {
                None => {
                    assert(!environment_ok(m@, p@)) by {
                        if environment_ok(m@, p@) {
                            let i = choose|i: int| #[trigger] first_proto_index(m@, parent, i) && p@.parent == Some(parent) && register == m@.prototypes[i].frame.environment;
                            assert(m@.prototypes[i].id == parent);
                        }
                    }
                    Err(verify_error(0, "RVLU environment parent prototype 不存在"))
                },
                Some(index) => {
                    assert(m@.prototypes[index as int] == m.prototypes@[index as int]@);
                    let parent_matches = match p.parent {
                        Some(x) => x == parent,
                        None => false,
                    };
                    if !parent_matches || register != m.prototypes[index].frame.environment {
                        assert(!environment_ok(m@, p@)) by {
                            if environment_ok(m@, p@) {
                                let i = choose|i: int| #[trigger] first_proto_index(m@, parent, i) && p@.parent == Some(parent) && register == m@.prototypes[i].frame.environment;
                                lemma_first_proto_index_unique(m@, parent, i, index as int);
                            }
                        }
                        return Err(verify_error(0, "RVLU ParentFrame environment source 無效"));
                    }
                    Ok(())
                },
            }
        },
        EnvironmentSource::ParentLocal { upvalue } => {
            if upvalue.0 as usize >= p.upvalues.len() {
                return Err(verify_error(0, "RVLU environment upvalue 不存在"));
            }
            match p.upvalues[upvalue.0 as usize].source {
                BytecodeUpvalueSource::ParentLocal(_) => Ok(()),
                _ => Err(verify_error(0, "RVLU environment upvalue source 不符")),
            }
        },
        EnvironmentSource::ParentUpvalue { upvalue } => {
            if upvalue.0 as usize >= p.upvalues.len() {
                return Err(verify_error(0, "RVLU environment upvalue 不存在"));
            }
            match p.upvalues[upvalue.0 as usize].source {
                BytecodeUpvalueSource::ParentUpvalue(_) => Ok(()),
                _ => Err(verify_error(0, "RVLU environment upvalue source 不符")),
            }
        },
    }
}

fn has_binding_register(p: &BytecodePrototype, binding: crate::module::BytecodeBindingId, register: Register) -> (r: bool)
    ensures
        r == p@.binding_registers.contains((binding, register)),
{
    let mut i: usize = 0;
    while i < p.binding_registers.len()
        invariant
            i <= p.binding_registers@.len(),
            forall|k: int| 0 <= k < i ==> p@.binding_registers[k] != (binding, register),
        decreases p.binding_registers.len() - i,
    {
        let (b, r) = p.binding_registers[i];
        if b == binding && r == register {
            assert(p@.binding_registers[i as int] == (binding, register));
            return true;
        }
        i = i + 1;
    }
    false
}

/// Every rule of one prototype of `m`.
pub fn validate_prototype(p: &BytecodePrototype, m: &BytecodeModule, limits: &VerifyLimits) -> (r: Result<(), BytecodeError>)
    ensures
        r is Ok <==> prototype_valid(m@, p@, *limits),
        r matches Err(e) ==> e.offset == 0,
        r matches Err(e) ==> e.code == BytecodeErrorCode::Verify || e.code == BytecodeErrorCode::CompileLimit,
{
    if p.span.start_byte > p.span.end_byte || p.span.end_byte > m.span.end_byte {
        return Err(verify_error(0, "RVLU prototype span 無效"));
    }
    if p.register_count > limits.max_registers || p.frame.register_limit > limits.max_registers
        || p.frame.environment.0 >= p.register_count || p.frame.return_base.0 >= p.register_count
        || p.frame.initial_top.0 > p.register_count || p.frame.dynamic_top.0 > p.register_count {
        return Err(limit_error(0, "RVLU frame register 超過限制"));
    }
    if p.parameter_count >= p.register_count {
        return Err(verify_error(0, "RVLU parameter count 超出 frame"));
    }
    match p.named_vararg {
        Some((binding, register)) => {
            if !p.is_variadic {
                return Err(verify_error(0, "RVLU named vararg 必須標記 variadic"));
            }
            if m.profile != LuaProfile::Lua55 {
                return Err(verify_error(0, "lua54 不可攜帶 named vararg metadata"));
            }
            if register.0 >= p.register_count || !has_binding_register(p, binding, register) {
                return Err(verify_error(0, "RVLU named vararg binding/register 無效"));
            }
        },
        None => {},
    }
    if p.constants.len() > limits.max_constants {
        return Err(limit_error(0, "RVLU constant 數超過限制"));
    }
    if p.instructions.len() > limits.max_instructions {
        return Err(limit_error(0, "RVLU instruction 數超過限制"));
    }
    if p.upvalues.len() > limits.max_upvalues_per_prototype {
        return Err(limit_error(0, "RVLU upvalue 數超過限制"));
    }
    match p.parent {
        Some(parent) => {
            if find_proto_index(m, parent).is_none() {
                return Err(verify_error(0, "RVLU parent prototype 不存在"));
            }
        },
        None => {},
    }
    if p.frame.environment != p.global_environment {
        return Err(verify_error(0, "RVLU frame environment slot 不符"));
    }
    environment_source_valid(p, m)?;
    validate_metadata(p)?;
    let mut index: usize = 0;
    while index < p.instructions.len()
        invariant
            index <= p.instructions@.len(),
            forall|k: int| 0 <= k < index ==> #[trigger] instruction_ok(m@, p@, k),
        decreases p.instructions.len() - index,
    {
        let entry = &p.instructions[index];
        assert(p@.instructions[index as int] == entry@);
        if entry.span.start_byte > entry.span.end_byte || entry.span.end_byte > p.span.end_byte {
            assert(!instruction_ok(m@, p@, index as int));
            return Err(verify_error(0, "RVLU instruction span 無效"));
        }
        let shape = validate_instruction_shape(p, m, index);
        if shape.is_err() {
            assert(!instruction_ok(m@, p@, index as int));
            return shape;
        }
        assert(instruction_ok(m@, p@, index as int));
        index = index + 1;
    }
    let pairs = validate_numeric_for_pairs(p)?;
    validate_numeric_for_body_dominance(p, &pairs)?;
    verify_control_and_dataflow(p, limits)
}

} // verus!
