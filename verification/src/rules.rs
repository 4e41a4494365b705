//! What a verified RVLU v2 module is: the structural rules that the
//! verifier decides, stated over the module's mathematical value.

use vstd::prelude::*;

use crate::bytecode::{
    BinaryOperation, BytecodeVersion, EnvironmentSource, Instruction, InstructionOffset, LuaProfile,
    ProtoId, RVLU_V2_NUMBER, Register, ResultMode, UpvalueId,
};
use crate::module::{
    BytecodeBindingId, BytecodeExitKind, BytecodeSpan, BytecodeUpvalueSource, ClosePathModel,
    InstructionModel, ModuleModel, PrototypeModel, VerifyLimits,
};

verus! {

/// The only numeric configuration: 64-bit integers and 64-bit floats.
pub open spec fn numeric_config_i64_f64() -> u8 {
    1
}

pub open spec fn span_ok(span: BytecodeSpan) -> bool {
    span.start_byte <= span.end_byte
}

/// A span that is well formed and ends inside `outer_end`.
pub open spec fn span_within(span: BytecodeSpan, outer_end: u64) -> bool {
    span.start_byte <= span.end_byte && span.end_byte <= outer_end
}

/// `count + 1` registers from `base` lie in the frame.
pub open spec fn range_ok(p: PrototypeModel, base: Register, count: int) -> bool {
    base.0 + count < p.register_count
}

pub open spec fn reg_ok(p: PrototypeModel, r: Register) -> bool {
    range_ok(p, r, 0)
}

pub open spec fn result_range_ok(p: PrototypeModel, base: Register, mode: ResultMode) -> bool {
    match mode {
        ResultMode::Fixed(count) => if count == 0 {
            reg_ok(p, base)
        } else {
            range_ok(p, base, count - 1)
        },
        ResultMode::All => reg_ok(p, base),
    }
}

pub open spec fn has_upvalue(p: PrototypeModel, u: UpvalueId) -> bool {
    exists|i: int| 0 <= i < p.upvalues.len() && #[trigger] p.upvalues[i].id == u
}

/// A jump target inside the prototype that is not the jump itself.
pub open spec fn jump_ok(p: PrototypeModel, index: int, target: InstructionOffset) -> bool {
    target.0 < p.instructions.len() && target.0 != index
}

pub open spec fn numeric_regs_ok(
    p: PrototypeModel,
    control: Register,
    limit: Register,
    step: Register,
    visible: Register,
) -> bool {
    &&& reg_ok(p, control)
    &&& reg_ok(p, limit)
    &&& reg_ok(p, step)
    &&& reg_ok(p, visible)
    &&& control != limit && control != step && control != visible
    &&& limit != step && limit != visible && step != visible
}

/// `proto` names a prototype of the module whose parent is `p`.
pub open spec fn closure_child_ok(m: ModuleModel, p: PrototypeModel, proto: ProtoId) -> bool {
    exists|i: int|
        0 <= i < m.prototypes.len() && #[trigger] m.prototypes[i].id == proto
            && m.prototypes[i].parent == Some(p.id)
}

/// The operand rules of one instruction at `index`.
pub open spec fn operands_ok(m: ModuleModel, p: PrototypeModel, index: int, ins: Instruction) -> bool {
    match ins {
        Instruction::LoadConst { dest, constant } => reg_ok(p, dest) && constant.0 < p.constants.len(),
        Instruction::LoadNil { start, count } => count != 0 && range_ok(p, start, count - 1),
        Instruction::Move { dest, src } => reg_ok(p, dest) && reg_ok(p, src),
        Instruction::GetUpvalue { dest, upvalue } => reg_ok(p, dest) && has_upvalue(p, upvalue),
        Instruction::SetUpvalue { upvalue, src } => has_upvalue(p, upvalue) && reg_ok(p, src),
        Instruction::NewTable { dest } => reg_ok(p, dest),
        Instruction::GetTable { dest, table, key } => reg_ok(p, dest) && reg_ok(p, table) && reg_ok(p, key),
        Instruction::SetTable { table, key, value } => reg_ok(p, table) && reg_ok(p, key) && reg_ok(p, value),
        Instruction::UnaryOp { dest, src, .. } => reg_ok(p, dest) && reg_ok(p, src),
        Instruction::BinaryOp { dest, op, left, right } => {
            op != BinaryOperation::And && op != BinaryOperation::Or && reg_ok(p, dest) && reg_ok(p, left)
                && reg_ok(p, right)
        },
        Instruction::Jump { target } => jump_ok(p, index, target),
        Instruction::JumpIfFalse { condition, target } => reg_ok(p, condition) && jump_ok(p, index, target),
        Instruction::Closure { dest, proto } => reg_ok(p, dest) && closure_child_ok(m, p, proto),
        Instruction::Call { base, arg_count, result_mode } => range_ok(p, base, arg_count as int)
            && result_range_ok(p, base, result_mode),
        Instruction::TailCall { base, arg_count, result_mode } => range_ok(p, base, arg_count as int)
            && result_range_ok(p, base, result_mode),
        Instruction::Vararg { base, result_mode } => p.is_variadic && reg_ok(p, base)
            && result_range_ok(p, base, result_mode),
        Instruction::Return { base, result_mode } => reg_ok(p, base) && result_range_ok(p, base, result_mode),
        Instruction::Close { base, count } => count != 0 && range_ok(p, base, count - 1),
        Instruction::NumericForPrepare { control, limit, step, visible, exit } => {
            numeric_regs_ok(p, control, limit, step, visible) && jump_ok(p, index, exit) && exit.0 > index
        },
        Instruction::NumericForNext { control, limit, step, visible, target, exit } => {
            numeric_regs_ok(p, control, limit, step, visible) && jump_ok(p, index, target) && jump_ok(
                p,
                index,
                exit,
            ) && target.0 < index && exit.0 > index
        },
    }
}

/// `(binding, register)` is the first entry for `binding` in `bindings`.
pub open spec fn first_binding_register(
    bindings: Seq<(BytecodeBindingId, Register)>,
    binding: BytecodeBindingId,
    register: Register,
) -> bool {
    exists|i: int|
        0 <= i < bindings.len() && #[trigger] bindings[i] == (binding, register) && forall|j: int|
            0 <= j < i ==> (#[trigger] bindings[j]).0 != binding
}

/// A close path whose span lies in the prototype and whose bindings are
/// mapped, in order, to its registers.
pub open spec fn close_path_ok(p: PrototypeModel, c: ClosePathModel) -> bool {
    &&& span_within(c.span, p.span.end_byte)
    &&& c.bindings.len() == c.registers.len()
    &&& forall|k: int|
        0 <= k < c.bindings.len() ==> first_binding_register(
            p.binding_registers,
            #[trigger] c.bindings[k],
            c.registers[k],
        )
}

/// A single-register Close carries a known close path that names its
/// register; no other instruction carries one.
pub open spec fn close_link_ok(p: PrototypeModel, e: InstructionModel) -> bool {
    match e.instruction {
        Instruction::Close { base, count } => match e.close_path {
            Some(path) => count == 1 && close_path_ok(p, path) && p.close_paths.contains(path)
                && path.registers.contains(base),
            None => false,
        },
        _ => e.close_path is None,
    }
}

/// Everything the verifier asks of the instruction at `index` alone.
pub open spec fn instruction_ok(m: ModuleModel, p: PrototypeModel, index: int) -> bool {
    let e = p.instructions[index];
    &&& span_within(e.span, p.span.end_byte)
    &&& operands_ok(m, p, index, e.instruction)
    &&& close_link_ok(p, e)
}

/// The Close run that starts at `i` for `path`: one single-register Close
/// per register of the path, in order, each linked to the same path.
pub open spec fn close_run_ok(p: PrototypeModel, i: int, path: ClosePathModel) -> bool {
    forall|k: int|
        0 <= k < path.registers.len() ==> i + k < p.instructions.len() && (#[trigger] p.instructions[i
            + k]).instruction == (Instruction::Close { base: path.registers[k], count: 1 })
            && p.instructions[i + k].close_path == Some(path)
}

/// A return path must not end in an open tail call after its Close run.
pub open spec fn close_run_followed_ok(p: PrototypeModel, after: int, path: ClosePathModel) -> bool {
    !(path.kind == BytecodeExitKind::Return && 0 <= after < p.instructions.len()
        && p.instructions[after].instruction matches Instruction::TailCall {
        result_mode: ResultMode::All,
        ..
    })
}

/// The close runs from instruction `i` on: each linked Close starts a
/// non-empty run for its path, and scanning resumes after the run.
pub open spec fn close_runs_from(p: PrototypeModel, i: int) -> bool
    decreases p.instructions.len() - i,
{
    if i < 0 || i >= p.instructions.len() {
        true
    } else {
        let e = p.instructions[i];
        match (e.instruction, e.close_path) {
            (Instruction::Close { .. }, Some(path)) => {
                if path.registers.len() == 0 || i + path.registers.len() > p.instructions.len() {
                    false
                } else {
                    close_run_ok(p, i, path) && close_run_followed_ok(p, i + path.registers.len(), path)
                        && close_runs_from(p, i + path.registers.len())
                }
            },
            _ => close_runs_from(p, i + 1),
        }
    }
}

/// The binding, upvalue and close metadata of a prototype.
pub open spec fn metadata_ok(p: PrototypeModel) -> bool {
    let bs = p.binding_registers;
    let us = p.upvalues;
    &&& forall|i: int| 0 <= i < bs.len() ==> (#[trigger] bs[i]).1.0 < p.register_count
    &&& forall|i: int, j: int| 0 <= i < j < bs.len() ==> (#[trigger] bs[i]).0 != (#[trigger] bs[j]).0
    &&& (p.frame.environment_source is RootExternal ==> exists|i: int|
        0 <= i < bs.len() && (#[trigger] bs[i]).0 == p.global_environment_binding)
    &&& forall|i: int| 0 <= i < us.len() ==> (#[trigger] us[i]).id.0 < us.len()
    &&& forall|i: int, j: int| 0 <= i < j < us.len() ==> (#[trigger] us[i]).id != (#[trigger] us[j]).id
    &&& forall|i: int| 0 <= i < p.close_paths.len() ==> close_path_ok(p, #[trigger] p.close_paths[i])
    &&& close_runs_from(p, 0)
}

/// `i` is the first prototype of the module with identity `id`.
pub open spec fn first_proto_index(m: ModuleModel, id: ProtoId, i: int) -> bool {
    0 <= i < m.prototypes.len() && m.prototypes[i].id == id && forall|j: int|
        0 <= j < i ==> (#[trigger] m.prototypes[j]).id != id
}

pub open spec fn has_proto(m: ModuleModel, id: ProtoId) -> bool {
    exists|i: int| 0 <= i < m.prototypes.len() && #[trigger] m.prototypes[i].id == id
}

/// Where the frame's environment comes from agrees with the prototype's
/// parent and upvalues.
pub open spec fn environment_ok(m: ModuleModel, p: PrototypeModel) -> bool {
    match p.frame.environment_source {
        EnvironmentSource::RootExternal => p.parent is None,
        EnvironmentSource::ParentFrame { parent, register } => exists|i: int|
            #[trigger] first_proto_index(m, parent, i) && p.parent == Some(parent) && register
                == m.prototypes[i].frame.environment,
        EnvironmentSource::ParentLocal { upvalue } => upvalue.0 < p.upvalues.len()
            && p.upvalues[upvalue.0 as int].source is ParentLocal,
        EnvironmentSource::ParentUpvalue { upvalue } => upvalue.0 < p.upvalues.len()
            && p.upvalues[upvalue.0 as int].source is ParentUpvalue,
    }
}

/// The frame registers lie in the frame and under the register limit.
pub open spec fn frame_ok(p: PrototypeModel, limits: VerifyLimits) -> bool {
    &&& p.register_count <= limits.max_registers
    &&& p.frame.register_limit <= limits.max_registers
    &&& p.frame.environment.0 < p.register_count
    &&& p.frame.return_base.0 < p.register_count
    &&& p.frame.initial_top.0 <= p.register_count
    &&& p.frame.dynamic_top.0 <= p.register_count
}

pub open spec fn named_vararg_ok(m: ModuleModel, p: PrototypeModel) -> bool {
    match p.named_vararg {
        Some((binding, register)) => p.is_variadic && m.profile == LuaProfile::Lua55 && register.0
            < p.register_count && p.binding_registers.contains((binding, register)),
        None => true,
    }
}

// ---------------------------------------------------------------------------
// Numeric for loops.

pub open spec fn is_prepare_for(
    p: PrototypeModel,
    q: int,
    control: Register,
    limit: Register,
    step: Register,
    visible: Register,
) -> bool {
    0 <= q < p.instructions.len() && match p.instructions[q].instruction {
        Instruction::NumericForPrepare { control: c, limit: l, step: s, visible: v, .. } => c
            == control && l == limit && s == step && v == visible,
        _ => false,
    }
}

pub open spec fn prepare_exit(p: PrototypeModel, q: int) -> InstructionOffset {
    match p.instructions[q].instruction {
        Instruction::NumericForPrepare { exit, .. } => exit,
        _ => InstructionOffset(0),
    }
}

/// `q` is the only Prepare with the registers of the Next at `n`, and the two
/// agree on the loop body and the exit.
pub open spec fn pairs_with(p: PrototypeModel, q: int, n: int) -> bool {
    0 <= n < p.instructions.len() && match p.instructions[n].instruction {
        Instruction::NumericForNext { control, limit, step, visible, target, exit } => {
            &&& is_prepare_for(p, q, control, limit, step, visible)
            &&& forall|q2: int| #[trigger]
                is_prepare_for(p, q2, control, limit, step, visible) ==> q2 == q
            &&& prepare_exit(p, q) == exit
            &&& q + 1 == target.0
            &&& target.0 < n
        },
        _ => false,
    }
}

/// Every Next has its Prepare.
pub open spec fn numeric_pairs_ok(p: PrototypeModel) -> bool {
    forall|n: int|
        0 <= n < p.instructions.len() && (#[trigger] p.instructions[n]).instruction is NumericForNext
            ==> exists|q: int| #[trigger] pairs_with(p, q, n)
}

/// An edge of the control-flow graph between instructions; the body edge of
/// the Prepare at `avoid` is left out.
pub open spec fn cfg_edge(p: PrototypeModel, avoid: int, i: int, j: int) -> bool {
    0 <= i < p.instructions.len() && 0 <= j < p.instructions.len() && match p.instructions[i].instruction {
        Instruction::Jump { target } => j == target.0,
        Instruction::JumpIfFalse { target, .. } => j == target.0 || j == i + 1,
        Instruction::NumericForPrepare { exit, .. } => j == exit.0 || (i != avoid && j == i + 1),
        Instruction::NumericForNext { target, exit, .. } => j == target.0 || j == exit.0,
        Instruction::Return { .. } => false,
        Instruction::TailCall { .. } => false,
        _ => j == i + 1,
    }
}

/// A set of instructions that no edge leaves.
pub open spec fn cfg_closed(p: PrototypeModel, avoid: int, s: Set<int>) -> bool {
    forall|i: int, j: int| s.contains(i) && #[trigger] cfg_edge(p, avoid, i, j) ==> s.contains(j)
}

/// `n` can be reached from the entry: it lies in every closed set that holds
/// the entry.
pub open spec fn cfg_reaches(p: PrototypeModel, avoid: int, n: int) -> bool {
    forall|s: Set<int>| #[trigger] cfg_closed(p, avoid, s) && s.contains(0) ==> s.contains(n)
}

/// Every reachable Next lies behind the body edge of its Prepare: once that
/// edge is removed, the Next can no longer be reached.
pub open spec fn numeric_bodies_ok(p: PrototypeModel) -> bool {
    forall|q: int, n: int|
        #[trigger] pairs_with(p, q, n) && cfg_reaches(p, -1, n) ==> !cfg_reaches(p, q, n)
}

// ---------------------------------------------------------------------------
// Open results.

/// The open result that flows out of an instruction, given the one that
/// flows in.
pub open spec fn open_after(ins: Instruction, open: Option<Register>) -> Option<Register> {
    match ins {
        Instruction::Call { base, result_mode: ResultMode::All, .. } => Some(base),
        Instruction::Vararg { base, result_mode: ResultMode::All } => Some(base),
        Instruction::Return { result_mode: ResultMode::All, .. } => None,
        Instruction::TailCall { result_mode: ResultMode::All, .. } => None,
        _ => open,
    }
}

/// An open result may only reach a Close or a Return(All) of the same base.
pub open spec fn open_allowed(ins: Instruction, open: Option<Register>) -> bool {
    &&& (open is Some ==> (ins is Close || ins matches Instruction::Return {
        result_mode: ResultMode::All,
        ..
    }))
    &&& (ins matches Instruction::Return { base, result_mode: ResultMode::All } ==> open == Some(base))
}

/// The instruction can fall through past the last instruction.
pub open spec fn falls_off(p: PrototypeModel, i: int) -> bool {
    i + 1 >= p.instructions.len() && match p.instructions[i].instruction {
        Instruction::Jump { .. } => false,
        Instruction::NumericForNext { .. } => false,
        Instruction::Return { .. } => false,
        Instruction::TailCall { .. } => false,
        _ => true,
    }
}

/// The successors of an instruction in the flow of open results.
pub open spec fn flow_edge(p: PrototypeModel, i: int, j: int) -> bool {
    match p.instructions[i].instruction {
        Instruction::Jump { target } => j == target.0,
        Instruction::JumpIfFalse { target, .. } => j == target.0 || j == i + 1,
        Instruction::NumericForPrepare { exit, .. } => j == exit.0 || j == i + 1,
        Instruction::NumericForNext { target, exit, .. } => j == target.0 || j == exit.0,
        Instruction::Return { .. } => false,
        Instruction::TailCall { .. } => false,
        _ => j == i + 1,
    }
}

/// A labelling of instructions with the open result that reaches them: the
/// entry has none, and every labelled instruction allows its label, does not
/// fall off the end, and passes its result on to labelled successors.
pub open spec fn open_labelling(p: PrototypeModel, lab: Seq<Option<Option<Register>>>) -> bool {
    &&& lab.len() == p.instructions.len()
    &&& lab.len() > 0
    &&& lab[0] == Some(None::<Register>)
    &&& forall|i: int|
        0 <= i < lab.len() && (#[trigger] lab[i]) is Some ==> {
            &&& open_allowed(p.instructions[i].instruction, lab[i]->0)
            &&& !falls_off(p, i)
            &&& forall|j: int| #[trigger]
                flow_edge(p, i, j) ==> 0 <= j < lab.len() && lab[j] == Some(
                    open_after(p.instructions[i].instruction, lab[i]->0),
                )
        }
}

/// The open-result discipline of a prototype.
pub open spec fn dataflow_ok(p: PrototypeModel, limits: VerifyLimits) -> bool {
    &&& p.instructions.len() > 0
    &&& p.frame.initial_top.0 <= p.frame.dynamic_top.0
    &&& p.instructions.len() <= limits.max_instructions
    &&& exists|lab: Seq<Option<Option<Register>>>| #[trigger] open_labelling(p, lab)
}

// ---------------------------------------------------------------------------
// Prototypes and modules.

/// Every rule the verifier applies to one prototype of `m`.
pub open spec fn prototype_valid(m: ModuleModel, p: PrototypeModel, limits: VerifyLimits) -> bool {
    &&& span_within(p.span, m.span.end_byte)
    &&& frame_ok(p, limits)
    &&& p.parameter_count < p.register_count
    &&& named_vararg_ok(m, p)
    &&& p.constants.len() <= limits.max_constants
    &&& p.instructions.len() <= limits.max_instructions
    &&& p.upvalues.len() <= limits.max_upvalues_per_prototype
    &&& (p.parent matches Some(parent) ==> has_proto(m, parent))
    &&& p.frame.environment == p.global_environment
    &&& environment_ok(m, p)
    &&& metadata_ok(p)
    &&& forall|i: int| 0 <= i < p.instructions.len() ==> #[trigger] instruction_ok(m, p, i)
    &&& numeric_pairs_ok(p)
    &&& numeric_bodies_ok(p)
    &&& dataflow_ok(p, limits)
}

pub open spec fn total_instructions(ps: Seq<PrototypeModel>) -> nat
    decreases ps.len(),
{
    if ps.len() == 0 {
        0
    } else {
        total_instructions(ps.drop_last()) + ps.last().instructions.len()
    }
}

pub open spec fn total_constants(ps: Seq<PrototypeModel>) -> nat
    decreases ps.len(),
{
    if ps.len() == 0 {
        0
    } else {
        total_constants(ps.drop_last()) + ps.last().constants.len()
    }
}

/// The function map entry points at a prototype of that function.
pub open spec fn mapping_ok(m: ModuleModel, entry: (u32, ProtoId)) -> bool {
    exists|i: int| #[trigger] first_proto_index(m, entry.1, i) && m.prototypes[i].function == entry.0
}

/// A module that the verifier accepts for `profile` under `limits`.
#[verifier::opaque]
pub open spec fn module_valid(m: ModuleModel, profile: LuaProfile, limits: VerifyLimits) -> bool {
    &&& m.format_version == BytecodeVersion(RVLU_V2_NUMBER)
    &&& m.profile == profile
    &&& m.numeric_config == numeric_config_i64_f64()
    &&& span_ok(m.span)
    &&& m.prototypes.len() <= limits.max_prototypes
    &&& m.function_prototypes.len() == m.prototypes.len()
    &&& total_instructions(m.prototypes) <= limits.max_instructions
    &&& total_constants(m.prototypes) <= limits.max_constants
    &&& forall|i: int, j: int|
        0 <= i < j < m.prototypes.len() ==> (#[trigger] m.prototypes[i]).id != (#[trigger] m.prototypes[j]).id
    &&& forall|i: int, j: int|
        0 <= i < j < m.prototypes.len() ==> (#[trigger] m.prototypes[i]).function
            != (#[trigger] m.prototypes[j]).function
    &&& forall|i: int| 0 <= i < m.prototypes.len() ==> prototype_valid(m, #[trigger] m.prototypes[i], limits)
    &&& forall|k: int| 0 <= k < m.function_prototypes.len() ==> mapping_ok(m, #[trigger] m.function_prototypes[k])
}

} // verus!
