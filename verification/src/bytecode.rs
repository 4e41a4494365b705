//! The fixed RVLU v2 instruction set shared by the compiler and the codec.

use vstd::prelude::*;
use crate::integer::{IntegerOutcome, decimal_text, floor_div, floor_mod, shift_spec, wrapped};

verus! {

#[derive(Clone, Copy, Debug, PartialEq, Eq, Structural, Hash, PartialOrd, Ord)]
pub struct Register(pub u16);

#[derive(Clone, Copy, Debug, PartialEq, Eq, Structural, Hash, PartialOrd, Ord)]
pub struct ConstId(pub u32);

#[derive(Clone, Copy, Debug, PartialEq, Eq, Structural, Hash, PartialOrd, Ord)]
pub struct UpvalueId(pub u16);

#[derive(Clone, Copy, Debug, PartialEq, Eq, Structural, Hash, PartialOrd, Ord)]
pub struct ProtoId(pub u32);

#[derive(Clone, Copy, Debug, PartialEq, Eq, Structural, Hash, PartialOrd, Ord)]
pub struct InstructionOffset(pub u32);

#[derive(Clone, Copy, Debug, PartialEq, Eq, Structural, Hash, PartialOrd, Ord)]
pub struct BytecodeVersion(pub u16);

/// Raw number of the first RVLU format; it is refused by the verifier and the decoder.
pub const RVLU_V1_NUMBER: u16 = 1;

/// Raw number of the only RVLU format that can be encoded and verified.
pub const RVLU_V2_NUMBER: u16 = 2;

/// The first RVLU format; it is refused by the verifier and the decoder.
pub fn rvlu_v1() -> (r: BytecodeVersion)
    ensures
        r == BytecodeVersion(RVLU_V1_NUMBER),
{
    BytecodeVersion(RVLU_V1_NUMBER)
}

/// The only RVLU language bytecode format that can be encoded and verified.
pub fn rvlu_v2() -> (r: BytecodeVersion)
    ensures
        r == BytecodeVersion(RVLU_V2_NUMBER),
{
    BytecodeVersion(RVLU_V2_NUMBER)
}

#[derive(Clone, Copy, Debug, PartialEq, Eq, Structural, Hash)]
pub enum LuaProfile {
    Lua55,
    Lua54,
}

#[derive(Clone, Copy, Debug, PartialEq, Eq, Structural)]
pub enum ProfileRequirement {
    Any,
    Only(LuaProfile),
}

#[derive(Clone, Copy, Debug, PartialEq, Eq, Structural)]
pub enum ResultMode {
    Fixed(u16),
    All,
}

/// Where the environment slot of a frame is initialised from.
#[derive(Clone, Copy, Debug, PartialEq, Eq, Structural)]
pub enum EnvironmentSource {
    RootExternal,
    ParentFrame { parent: ProtoId, register: Register },
    ParentLocal { upvalue: UpvalueId },
    ParentUpvalue { upvalue: UpvalueId },
}

/// The static layout of a frame; `dynamic_top` only names where open
/// results start and says nothing about run-time state.
#[derive(Clone, Copy, Debug, PartialEq, Eq, Structural)]
pub struct FrameLayout {
    pub register_limit: u16,
    pub initial_top: Register,
    pub dynamic_top: Register,
    pub return_base: Register,
    /// The external environment slot chosen for the root `_ENV` source.
    pub environment: Register,
    pub environment_source: EnvironmentSource,
    pub registers_start_as_nil: bool,
}

#[derive(Clone, Copy, Debug, PartialEq, Eq, Structural)]
pub enum UnaryOperation {
    Negate,
    Not,
    Length,
    BitNot,
}

#[derive(Clone, Copy, Debug, PartialEq, Eq, Structural)]
pub enum BinaryOperation {
    Or,
    And,
    Equal,
    NotEqual,
    Less,
    LessEqual,
    Greater,
    GreaterEqual,
    Pipe,
    BitXor,
    Ampersand,
    ShiftLeft,
    ShiftRight,
    Concat,
    Add,
    Subtract,
    Multiply,
    Divide,
    FloorDivide,
    Modulo,
    Power,
}

/// What an RVLU binary operation computes from two integer registers:
/// arithmetic wraps to 64 bits, floor division and modulo round toward
/// negative infinity and refuse a zero divisor, division and power give
/// floats, concatenation joins the decimal texts, and `And`/`Or` select an
/// operand by truth (every integer is true).
pub open spec fn binary_operation_outcome(op: BinaryOperation, a: i64, b: i64) -> IntegerOutcome {
    match op {
        BinaryOperation::Or => IntegerOutcome::Integer(a as int),
        BinaryOperation::And => IntegerOutcome::Integer(b as int),
        BinaryOperation::Equal => IntegerOutcome::Truth(a == b),
        BinaryOperation::NotEqual => IntegerOutcome::Truth(a != b),
        BinaryOperation::Less => IntegerOutcome::Truth(a < b),
        BinaryOperation::LessEqual => IntegerOutcome::Truth(a <= b),
        BinaryOperation::Greater => IntegerOutcome::Truth(a > b),
        BinaryOperation::GreaterEqual => IntegerOutcome::Truth(a >= b),
        BinaryOperation::Pipe => IntegerOutcome::Integer((a | b) as int),
        BinaryOperation::BitXor => IntegerOutcome::Integer((a ^ b) as int),
        BinaryOperation::Ampersand => IntegerOutcome::Integer((a & b) as int),
        BinaryOperation::ShiftLeft => IntegerOutcome::Integer(shift_spec(a, b, true) as int),
        BinaryOperation::ShiftRight => IntegerOutcome::Integer(shift_spec(a, b, false) as int),
        BinaryOperation::Concat => IntegerOutcome::Joined(decimal_text(a as int) + decimal_text(b as int)),
        BinaryOperation::Add => IntegerOutcome::Integer(wrapped(a + b)),
        BinaryOperation::Subtract => IntegerOutcome::Integer(wrapped(a - b)),
        BinaryOperation::Multiply => IntegerOutcome::Integer(wrapped(a * b)),
        BinaryOperation::Divide => IntegerOutcome::Quotient(a as int, b as int),
        BinaryOperation::FloorDivide => if b == 0 { IntegerOutcome::Refused } else { IntegerOutcome::Integer(wrapped(floor_div(a as int, b as int))) },
        BinaryOperation::Modulo => if b == 0 { IntegerOutcome::Refused } else { IntegerOutcome::Integer(floor_mod(a as int, b as int)) },
        BinaryOperation::Power => IntegerOutcome::Power(a as int, b as int),
    }
}

/// What an RVLU unary operation computes from an integer register.
pub open spec fn unary_operation_outcome(op: UnaryOperation, a: i64) -> IntegerOutcome {
    match op {
        UnaryOperation::Negate => IntegerOutcome::Integer(wrapped(-a)),
        UnaryOperation::Not => IntegerOutcome::Truth(false),
        UnaryOperation::Length => IntegerOutcome::Refused,
        UnaryOperation::BitNot => IntegerOutcome::Integer((!a) as int),
    }
}

/// Two binary operations that compute the same thing on every pair of
/// integers are the same operation: what an operation computes names it.
pub proof fn lemma_binary_outcome_names_operation(x: BinaryOperation, y: BinaryOperation)
    requires
        forall|a: i64, b: i64| #[trigger] binary_operation_outcome(x, a, b) == binary_operation_outcome(y, a, b),
    ensures
        x == y,
{
    assert((3i64 | 5i64) == 7i64) by (bit_vector);
    assert((3i64 ^ 5i64) == 6i64) by (bit_vector);
    assert((3i64 & 5i64) == 1i64) by (bit_vector);
    assert((7i64 | 2i64) == 7i64) by (bit_vector);
    assert((7i64 ^ 2i64) == 5i64) by (bit_vector);
    assert((7i64 & 2i64) == 2i64) by (bit_vector);
    assert(((3i64 as u64) << 5u64) as i64 == 96i64) by (bit_vector);
    assert(((3i64 as u64) >> 5u64) as i64 == 0i64) by (bit_vector);
    assert(((7i64 as u64) << 2u64) as i64 == 28i64) by (bit_vector);
    assert(((7i64 as u64) >> 2u64) as i64 == 1i64) by (bit_vector);
    assert(shift_spec(3, 5, true) == 96);
    assert(shift_spec(3, 5, false) == 0);
    assert(shift_spec(7, 2, true) == 28);
    assert(shift_spec(7, 2, false) == 1);
    assert(wrapped(8) == 8 && wrapped(-2) == -2 && wrapped(15) == 15 && wrapped(0) == 0);
    assert(wrapped(9) == 9 && wrapped(5) == 5 && wrapped(14) == 14 && wrapped(3) == 3);
    assert(floor_div(3, 5) == 0 && floor_mod(3, 5) == 3 && floor_div(7, 2) == 3 && floor_mod(7, 2) == 1);
    let p = binary_operation_outcome(x, 3, 5);
    let q = binary_operation_outcome(x, 7, 2);
    let t = binary_operation_outcome(x, 5, 5);
    assert(p == binary_operation_outcome(y, 3, 5));
    assert(q == binary_operation_outcome(y, 7, 2));
    assert(t == binary_operation_outcome(y, 5, 5));
}

/// Two unary operations that compute the same thing on every integer are
/// the same operation.
pub proof fn lemma_unary_outcome_names_operation(x: UnaryOperation, y: UnaryOperation)
    requires
        forall|a: i64| #[trigger] unary_operation_outcome(x, a) == unary_operation_outcome(y, a),
    ensures
        x == y,
{
    assert(!0i64 == -1i64) by (bit_vector);
    assert(wrapped(0) == 0);
    assert(unary_operation_outcome(x, 0) == unary_operation_outcome(y, 0));
}

#[derive(Clone, Copy, Debug, PartialEq, Eq, Structural)]
pub enum Opcode {
    LoadConst,
    LoadNil,
    Move,
    GetUpvalue,
    SetUpvalue,
    NewTable,
    GetTable,
    SetTable,
    UnaryOp,
    BinaryOp,
    Jump,
    JumpIfFalse,
    Closure,
    Call,
    TailCall,
    Vararg,
    Return,
    Close,
    NumericForPrepare,
    NumericForNext,
}

impl Opcode {
    /// Every opcode of the fixed set, once each, in encoding order.
    pub const ALL: [Opcode; 20] = [
        Opcode::LoadConst,
        Opcode::LoadNil,
        Opcode::Move,
        Opcode::GetUpvalue,
        Opcode::SetUpvalue,
        Opcode::NewTable,
        Opcode::GetTable,
        Opcode::SetTable,
        Opcode::UnaryOp,
        Opcode::BinaryOp,
        Opcode::Jump,
        Opcode::JumpIfFalse,
        Opcode::Closure,
        Opcode::Call,
        Opcode::TailCall,
        Opcode::Vararg,
        Opcode::Return,
        Opcode::Close,
        Opcode::NumericForPrepare,
        Opcode::NumericForNext,
    ];
}

#[derive(Clone, Copy, Debug, PartialEq, Eq, Structural)]
pub enum ControlFlow {
    Linear,
    Jump,
    ConditionalJump,
    Terminal,
}

#[derive(Clone, Debug, PartialEq, Eq)]
pub struct InstructionEffects {
    pub reads: Vec<Register>,
    pub writes: Vec<Register>,
    pub control_flow: ControlFlow,
    pub allocates: bool,
    pub writes_heap: bool,
    pub may_call: bool,
    pub may_yield: bool,
    pub may_error: bool,
    pub safe_point: bool,
}

impl InstructionEffects {
    pub const ALLOCATES: u8 = 1;
    pub const WRITES_HEAP: u8 = 2;
    pub const MAY_CALL: u8 = 4;
    pub const MAY_YIELD: u8 = 8;
    pub const MAY_ERROR: u8 = 16;
    pub const SAFE_POINT: u8 = 32;
    pub const KNOWN_FLAGS: u8 = 63;

    /// The flag byte of the six effect bits.
    pub open spec fn flags_of(
        allocates: bool,
        writes_heap: bool,
        may_call: bool,
        may_yield: bool,
        may_error: bool,
        safe_point: bool,
    ) -> u8 {
        ((if allocates { 1int } else { 0int }) + (if writes_heap { 2int } else { 0int }) + (
        if may_call { 4int } else { 0int }) + (if may_yield { 8int } else { 0int }) + (
        if may_error { 16int } else { 0int }) + (if safe_point { 32int } else { 0int })) as u8
    }

    pub open spec fn spec_encoded_flags(&self) -> u8 {
        Self::flags_of(
            self.allocates,
            self.writes_heap,
            self.may_call,
            self.may_yield,
            self.may_error,
            self.safe_point,
        )
    }

    /// Packs the six effect booleans into one byte, one bit each.
    pub fn encoded_flags(&self) -> (r: u8)
        ensures
            r == self.spec_encoded_flags(),
    {
        let mut r: u8 = 0;
        if self.allocates {
            r = r + 1;
        }
        if self.writes_heap {
            r = r + 2;
        }
        if self.may_call {
            r = r + 4;
        }
        if self.may_yield {
            r = r + 8;
        }
        if self.may_error {
            r = r + 16;
        }
        if self.safe_point {
            r = r + 32;
        }
        r
    }
}

#[derive(Clone, Copy, Debug, PartialEq, Eq, Structural)]
pub enum Instruction {
    LoadConst { dest: Register, constant: ConstId },
    LoadNil { start: Register, count: u16 },
    Move { dest: Register, src: Register },
    GetUpvalue { dest: Register, upvalue: UpvalueId },
    SetUpvalue { upvalue: UpvalueId, src: Register },
    NewTable { dest: Register },
    GetTable { dest: Register, table: Register, key: Register },
    SetTable { table: Register, key: Register, value: Register },
    UnaryOp { dest: Register, op: UnaryOperation, src: Register },
    BinaryOp { dest: Register, op: BinaryOperation, left: Register, right: Register },
    Jump { target: InstructionOffset },
    JumpIfFalse { condition: Register, target: InstructionOffset },
    Closure { dest: Register, proto: ProtoId },
    Call { base: Register, arg_count: u16, result_mode: ResultMode },
    TailCall { base: Register, arg_count: u16, result_mode: ResultMode },
    Vararg { base: Register, result_mode: ResultMode },
    Return { base: Register, result_mode: ResultMode },
    Close { base: Register, count: u16 },
    /// Turns the three evaluated numeric-for control values into numeric
    /// mode and jumps to `exit` when the first value already fails the loop
    /// test.  The four registers are distinct.
    NumericForPrepare {
        control: Register,
        limit: Register,
        step: Register,
        visible: Register,
        exit: InstructionOffset,
    },
    /// Advances a numeric-for without overflow; goes back to `target` while
    /// the loop goes on and to `exit` otherwise.  It is the only RVLU v2
    /// instruction that expresses the back edge of a numeric for.
    NumericForNext {
        control: Register,
        limit: Register,
        step: Register,
        visible: Register,
        target: InstructionOffset,
        exit: InstructionOffset,
    },
}

/// `count` consecutive registers from `base`, each index saturating at the top.
pub open spec fn register_run(base: Register, count: nat) -> Seq<Register> {
    Seq::new(
        count,
        |k: int|
            Register(
                if base.0 + k > u16::MAX {
                    u16::MAX
                } else {
                    (base.0 + k) as u16
                },
            ),
    )
}

/// The registers a result mode covers from `base`.
pub open spec fn result_registers(base: Register, mode: ResultMode) -> Seq<Register> {
    match mode {
        ResultMode::Fixed(count) => register_run(base, count as nat),
        ResultMode::All => seq![base],
    }
}

fn register_run_vec(base: Register, count: u16) -> (r: Vec<Register>)
    ensures
        r@ == register_run(base, count as nat),
{
    let mut r: Vec<Register> = Vec::new();
    let mut offset: u16 = 0;
    while offset < count
        invariant
            offset <= count,
            r@ == register_run(base, offset as nat),
        decreases count - offset,
    {
        r.push(Register(base.0.saturating_add(offset)));
        offset = offset + 1;
        assert(r@ =~= register_run(base, offset as nat));
    }
    r
}

fn result_registers_vec(base: Register, mode: ResultMode) -> (r: Vec<Register>)
    ensures
        r@ == result_registers(base, mode),
{
    match mode {
        ResultMode::Fixed(count) => register_run_vec(base, count),
        ResultMode::All => {
            let mut v = Vec::new();
            v.push(base);
            assert(v@ =~= seq![base]);
            v
        },
    }
}

impl Instruction {
    pub open spec fn spec_opcode(&self) -> Opcode {
        match self {
            Instruction::LoadConst { .. } => Opcode::LoadConst,
            Instruction::LoadNil { .. } => Opcode::LoadNil,
            Instruction::Move { .. } => Opcode::Move,
            Instruction::GetUpvalue { .. } => Opcode::GetUpvalue,
            Instruction::SetUpvalue { .. } => Opcode::SetUpvalue,
            Instruction::NewTable { .. } => Opcode::NewTable,
            Instruction::GetTable { .. } => Opcode::GetTable,
            Instruction::SetTable { .. } => Opcode::SetTable,
            Instruction::UnaryOp { .. } => Opcode::UnaryOp,
            Instruction::BinaryOp { .. } => Opcode::BinaryOp,
            Instruction::Jump { .. } => Opcode::Jump,
            Instruction::JumpIfFalse { .. } => Opcode::JumpIfFalse,
            Instruction::Closure { .. } => Opcode::Closure,
            Instruction::Call { .. } => Opcode::Call,
            Instruction::TailCall { .. } => Opcode::TailCall,
            Instruction::Vararg { .. } => Opcode::Vararg,
            Instruction::Return { .. } => Opcode::Return,
            Instruction::Close { .. } => Opcode::Close,
            Instruction::NumericForPrepare { .. } => Opcode::NumericForPrepare,
            Instruction::NumericForNext { .. } => Opcode::NumericForNext,
        }
    }

    /// The opcode of the instruction's variant.
    pub fn opcode(&self) -> (r: Opcode)
        ensures
            r == self.spec_opcode(),
    {
        match self {
            Instruction::LoadConst { .. } => Opcode::LoadConst,
            Instruction::LoadNil { .. } => Opcode::LoadNil,
            Instruction::Move { .. } => Opcode::Move,
            Instruction::GetUpvalue { .. } => Opcode::GetUpvalue,
            Instruction::SetUpvalue { .. } => Opcode::SetUpvalue,
            Instruction::NewTable { .. } => Opcode::NewTable,
            Instruction::GetTable { .. } => Opcode::GetTable,
            Instruction::SetTable { .. } => Opcode::SetTable,
            Instruction::UnaryOp { .. } => Opcode::UnaryOp,
            Instruction::BinaryOp { .. } => Opcode::BinaryOp,
            Instruction::Jump { .. } => Opcode::Jump,
            Instruction::JumpIfFalse { .. } => Opcode::JumpIfFalse,
            Instruction::Closure { .. } => Opcode::Closure,
            Instruction::Call { .. } => Opcode::Call,
            Instruction::TailCall { .. } => Opcode::TailCall,
            Instruction::Vararg { .. } => Opcode::Vararg,
            Instruction::Return { .. } => Opcode::Return,
            Instruction::Close { .. } => Opcode::Close,
            Instruction::NumericForPrepare { .. } => Opcode::NumericForPrepare,
            Instruction::NumericForNext { .. } => Opcode::NumericForNext,
        }
    }

    /// Every RVLU v2 instruction is valid under both profiles.
    pub fn profile_requirement(&self) -> (r: ProfileRequirement)
        ensures
            r == ProfileRequirement::Any,
    {
        ProfileRequirement::Any
    }

    /// The canonical effect flags fixed by each opcode, independent of operand counts.
    pub open spec fn spec_effect_flags(&self) -> u8 {
        match self {
            Instruction::NewTable { .. } | Instruction::Closure { .. } => 49u8,
            Instruction::GetTable { .. } => 60u8,
            Instruction::SetTable { .. } => 62u8,
            Instruction::BinaryOp { op: BinaryOperation::Concat, .. } => 61u8,
            Instruction::UnaryOp { .. } | Instruction::BinaryOp { .. } => 60u8,
            Instruction::SetUpvalue { .. } => 34u8,
            Instruction::Call { .. } | Instruction::TailCall { .. } | Instruction::Close {
                ..
            } => 60u8,
            Instruction::NumericForPrepare { .. } | Instruction::NumericForNext { .. } => 48u8,
            _ => 0u8,
        }
    }

    pub fn canonical_effect_flags(&self) -> (r: u8)
        ensures
            r == self.spec_effect_flags(),
    {
        match self {
            Instruction::NewTable { .. } | Instruction::Closure { .. } => 1 + 16 + 32,
            Instruction::GetTable { .. } => 4 + 8 + 16 + 32,
            Instruction::SetTable { .. } => 2 + 4 + 8 + 16 + 32,
            Instruction::BinaryOp { op: BinaryOperation::Concat, .. } => 1 + 4 + 8 + 16 + 32,
            Instruction::UnaryOp { .. } | Instruction::BinaryOp { .. } => 4 + 8 + 16 + 32,
            Instruction::SetUpvalue { .. } => 2 + 32,
            Instruction::Call { .. } | Instruction::TailCall { .. } | Instruction::Close {
                ..
            } => 4 + 8 + 16 + 32,
            Instruction::NumericForPrepare { .. } | Instruction::NumericForNext { .. } => 16 + 32,
            _ => 0,
        }
    }

    /// The registers the instruction reads.
    pub open spec fn spec_reads(&self) -> Seq<Register> {
        match *self {
            Instruction::Move { src, .. } => seq![src],
            Instruction::SetUpvalue { src, .. } => seq![src],
            Instruction::GetTable { table, key, .. } => seq![table, key],
            Instruction::SetTable { table, key, value } => seq![table, key, value],
            Instruction::UnaryOp { src, .. } => seq![src],
            Instruction::BinaryOp { left, right, .. } => seq![left, right],
            Instruction::JumpIfFalse { condition, .. } => seq![condition],
            Instruction::Call { base, arg_count, .. } | Instruction::TailCall {
                base,
                arg_count,
                ..
            } => register_run(base, arg_count as nat + 1),
            Instruction::Return { base, result_mode } => result_registers(base, result_mode),
            Instruction::Close { base, count } => register_run(base, count as nat),
            Instruction::NumericForPrepare { control, limit, step, .. }
            | Instruction::NumericForNext { control, limit, step, .. } => seq![control, limit, step],
            _ => seq![],
        }
    }

    /// The registers the instruction writes.
    pub open spec fn spec_writes(&self) -> Seq<Register> {
        match *self {
            Instruction::LoadConst { dest, .. } => seq![dest],
            Instruction::LoadNil { start, count } => register_run(start, count as nat),
            Instruction::Move { dest, .. } => seq![dest],
            Instruction::GetUpvalue { dest, .. } => seq![dest],
            Instruction::NewTable { dest } => seq![dest],
            Instruction::GetTable { dest, .. } => seq![dest],
            Instruction::UnaryOp { dest, .. } => seq![dest],
            Instruction::BinaryOp { dest, .. } => seq![dest],
            Instruction::Closure { dest, .. } => seq![dest],
            Instruction::Call { base, result_mode, .. } | Instruction::TailCall {
                base,
                result_mode,
                ..
            } => result_registers(base, result_mode),
            Instruction::Vararg { base, result_mode } => result_registers(base, result_mode),
            Instruction::NumericForPrepare { control, visible, .. }
            | Instruction::NumericForNext { control, visible, .. } => seq![control, visible],
            _ => seq![],
        }
    }

    pub open spec fn spec_control_flow(&self) -> ControlFlow {
        match self {
            Instruction::Jump { .. } => ControlFlow::Jump,
            Instruction::JumpIfFalse { .. } => ControlFlow::ConditionalJump,
            Instruction::NumericForPrepare { .. } | Instruction::NumericForNext { .. } => ControlFlow::ConditionalJump,
            Instruction::TailCall { .. } | Instruction::Return { .. } => ControlFlow::Terminal,
            _ => ControlFlow::Linear,
        }
    }

    /// The registers, control flow and effect bits of the instruction; the six
    /// bits are exactly those of the canonical flag byte.
    pub fn effects(&self) -> (r: InstructionEffects)
        ensures
            r.reads@ == self.spec_reads(),
            r.writes@ == self.spec_writes(),
            r.control_flow == self.spec_control_flow(),
            r.spec_encoded_flags() == self.spec_effect_flags(),
            r.allocates == (self.spec_effect_flags() & 1 != 0),
            r.writes_heap == (self.spec_effect_flags() & 2 != 0),
            r.may_call == (self.spec_effect_flags() & 4 != 0),
            r.may_yield == (self.spec_effect_flags() & 8 != 0),
            r.may_error == (self.spec_effect_flags() & 16 != 0),
            r.safe_point == (self.spec_effect_flags() & 32 != 0),
    {
        let mut reads: Vec<Register> = Vec::new();
        let mut writes: Vec<Register> = Vec::new();
        let control_flow;
        match *self {
            Instruction::LoadConst { dest, .. } => {
                writes.push(dest);
                control_flow = ControlFlow::Linear;
            },
            Instruction::LoadNil { start, count } => {
                writes = register_run_vec(start, count);
                control_flow = ControlFlow::Linear;
            },
            Instruction::Move { dest, src } => {
                reads.push(src);
                writes.push(dest);
                control_flow = ControlFlow::Linear;
            },
            Instruction::GetUpvalue { dest, .. } => {
                writes.push(dest);
                control_flow = ControlFlow::Linear;
            },
            Instruction::SetUpvalue { src, .. } => {
                reads.push(src);
                control_flow = ControlFlow::Linear;
            },
            Instruction::NewTable { dest } => {
                writes.push(dest);
                control_flow = ControlFlow::Linear;
            },
            Instruction::GetTable { dest, table, key } => {
                reads.push(table);
                reads.push(key);
                writes.push(dest);
                control_flow = ControlFlow::Linear;
            },
            Instruction::SetTable { table, key, value } => {
                reads.push(table);
                reads.push(key);
                reads.push(value);
                control_flow = ControlFlow::Linear;
            },
            Instruction::UnaryOp { dest, src, .. } => {
                reads.push(src);
                writes.push(dest);
                control_flow = ControlFlow::Linear;
            },
            Instruction::BinaryOp { dest, left, right, .. } => {
                reads.push(left);
                reads.push(right);
                writes.push(dest);
                control_flow = ControlFlow::Linear;
            },
            Instruction::Jump { .. } => {
                control_flow = ControlFlow::Jump;
            },
            Instruction::JumpIfFalse { condition, .. } => {
                reads.push(condition);
                control_flow = ControlFlow::ConditionalJump;
            },
            Instruction::Closure { dest, .. } => {
                writes.push(dest);
                control_flow = ControlFlow::Linear;
            },
            Instruction::Call { base, arg_count, result_mode } => {
                reads = call_reads(base, arg_count);
                writes = result_registers_vec(base, result_mode);
                control_flow = ControlFlow::Linear;
            },
            Instruction::TailCall { base, arg_count, result_mode } => {
                reads = call_reads(base, arg_count);
                writes = result_registers_vec(base, result_mode);
                control_flow = ControlFlow::Terminal;
            },
            Instruction::Vararg { base, result_mode } => {
                writes = result_registers_vec(base, result_mode);
                control_flow = ControlFlow::Linear;
            },
            Instruction::Return { base, result_mode } => {
                reads = result_registers_vec(base, result_mode);
                control_flow = ControlFlow::Terminal;
            },
            Instruction::Close { base, count } => {
                reads = register_run_vec(base, count);
                control_flow = ControlFlow::Linear;
            },
            Instruction::NumericForPrepare { control, limit, step, visible, .. }
            | Instruction::NumericForNext { control, limit, step, visible, .. } => {
                reads.push(control);
                reads.push(limit);
                reads.push(step);
                writes.push(control);
                writes.push(visible);
                control_flow = ControlFlow::ConditionalJump;
            },
        }
        proof {
            assert(reads@ =~= self.spec_reads());
            assert(writes@ =~= self.spec_writes());
        }
        let flags = self.canonical_effect_flags();
        let r = InstructionEffects {
            reads,
            writes,
            control_flow,
            allocates: flags & 1 != 0,
            writes_heap: flags & 2 != 0,
            may_call: flags & 4 != 0,
            may_yield: flags & 8 != 0,
            may_error: flags & 16 != 0,
            safe_point: flags & 32 != 0,
        };
        proof {
            lemma_flags_roundtrip(flags);
        }
        r
    }
}

/// Any flag byte with only the six known bits is rebuilt by its six bits.
proof fn lemma_flags_roundtrip(flags: u8)
    requires
        flags == 0 || flags == 34 || flags == 48 || flags == 49 || flags == 60 || flags == 61
            || flags == 62,
    ensures
        InstructionEffects::flags_of(
            flags & 1 != 0,
            flags & 2 != 0,
            flags & 4 != 0,
            flags & 8 != 0,
            flags & 16 != 0,
            flags & 32 != 0,
        ) == flags,
{
    assert(flags & 192 == 0) by (bit_vector)
        requires
            flags == 0 || flags == 34 || flags == 48 || flags == 49 || flags == 60 || flags == 61
                || flags == 62,
    ;
    assert(flags & 192 == 0 ==> flags == (flags & 1) + (flags & 2) + (flags & 4) + (flags & 8) + (
    flags & 16) + (flags & 32)) by (bit_vector);
    assert((flags & 1 != 0) == (flags & 1 == 1)) by (bit_vector);
    assert((flags & 2 != 0) == (flags & 2 == 2)) by (bit_vector);
    assert((flags & 4 != 0) == (flags & 4 == 4)) by (bit_vector);
    assert((flags & 8 != 0) == (flags & 8 == 8)) by (bit_vector);
    assert((flags & 16 != 0) == (flags & 16 == 16)) by (bit_vector);
    assert((flags & 32 != 0) == (flags & 32 == 32)) by (bit_vector);
}

fn call_reads(base: Register, arg_count: u16) -> (r: Vec<Register>)
    ensures
        r@ == register_run(base, arg_count as nat + 1),
{
    let mut r = register_run_vec(base, arg_count);
    let last = Register(base.0.saturating_add(arg_count));
    r.push(last);
    assert(r@ =~= register_run(base, arg_count as nat + 1));
    r
}

/// Limits on the IR that lowering may produce.
#[derive(Clone, Copy, Debug, PartialEq, Eq, Structural)]
pub struct IrLimits {
    pub max_prototypes: usize,
    pub max_instructions: usize,
    pub max_registers: u16,
    pub max_upvalues_per_prototype: usize,
}

impl IrLimits {
    /// The default lowering limits.
    pub fn default_limits() -> (r: Self)
        ensures
            r.max_prototypes == 4096,
            r.max_instructions == 100_000,
            r.max_registers == 4096,
            r.max_upvalues_per_prototype == 255,
    {
        IrLimits {
            max_prototypes: 4096,
            max_instructions: 100_000,
            max_registers: 4096,
            max_upvalues_per_prototype: 255,
        }
    }
}

impl Default for IrLimits {
    fn default() -> (r: Self)
        ensures
            r.max_prototypes == 4096,
            r.max_instructions == 100_000,
            r.max_registers == 4096,
            r.max_upvalues_per_prototype == 255,
    {
        IrLimits::default_limits()
    }
}

} // verus!
