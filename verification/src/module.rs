//! The RVLU module data model: owned candidate modules, their mathematical
//! views, and the error and limit types of the codec and the verifier.

use vstd::prelude::*;

use crate::bytecode::{BytecodeVersion, FrameLayout, Instruction, LuaProfile, ProtoId, Register, UpvalueId};

verus! {

#[derive(Clone, Copy, Debug, PartialEq, Eq, Structural)]
pub enum BytecodeErrorCode {
    CompileLimit,
    Verify,
}

/// An error of the verifier or the codec: its class, the byte offset it was
/// found at (zero for a candidate module), and a message.
#[derive(Clone, Debug, PartialEq, Eq)]
pub struct BytecodeError {
    pub code: BytecodeErrorCode,
    pub offset: usize,
    pub message: String,
}

impl BytecodeError {
    /// The error as one line of text: the message and the byte offset.
    pub fn describe(&self) -> String {
        let mut text = self.message.clone();
        text.append(" at byte ");
        let digits = decimal_digits(self.offset);
        text.append(digits.as_str());
        text
    }
}

fn digit_str(d: usize) -> (r: &'static str)
    requires
        d < 10,
{
    if d == 0 { "0" } else if d == 1 { "1" } else if d == 2 { "2" } else if d == 3 { "3" }
    else if d == 4 { "4" } else if d == 5 { "5" } else if d == 6 { "6" } else if d == 7 { "7" }
    else if d == 8 { "8" } else { "9" }
}

fn decimal_digits(value: usize) -> String {
    let mut divisor: usize = 1;
    while value / divisor >= 10
        invariant
            divisor >= 1,
        decreases value / divisor,
    {
        assert(value / divisor >= 10);
        if divisor > usize::MAX / 10 {
            break;
        }
        let next = divisor * 10;
        assert(value / next < value / divisor) by (nonlinear_arith)
            requires next == divisor * 10, divisor >= 1, value / divisor >= 10;
        divisor = next;
    }
    let mut text = String::new();
    let mut d = divisor;
    while d >= 1
        invariant
            d <= divisor,
        decreases d,
    {
        let digit = (value / d) % 10;
        text.append(digit_str(digit));
        d = d / 10;
    }
    text
}

/// A verification error at `offset`.
pub fn verify_error(offset: usize, message: &str) -> (r: BytecodeError)
    ensures
        r.code == BytecodeErrorCode::Verify,
        r.offset == offset,
{
    BytecodeError { code: BytecodeErrorCode::Verify, offset, message: message.to_owned() }
}

/// A refusal of bytecode: a rule broken or a limit exceeded.
pub open spec fn bytecode_refusal(e: BytecodeError) -> bool {
    e.code == BytecodeErrorCode::Verify || e.code == BytecodeErrorCode::CompileLimit
}

/// A resource-limit error at `offset`.
pub fn limit_error(offset: usize, message: &str) -> (r: BytecodeError)
    ensures
        r.code == BytecodeErrorCode::CompileLimit,
        r.offset == offset,
{
    BytecodeError { code: BytecodeErrorCode::CompileLimit, offset, message: message.to_owned() }
}

/// The resource limits that verification and decoding enforce.
#[derive(Clone, Copy, Debug, PartialEq, Eq, Structural)]
pub struct VerifyLimits {
    pub max_module_bytes: usize,
    pub max_prototypes: usize,
    pub max_instructions: usize,
    pub max_constants: usize,
    pub max_registers: u16,
    pub max_upvalues_per_prototype: usize,
}

impl VerifyLimits {
    /// The default limits.
    pub fn default_limits() -> (r: Self)
        ensures
            r.max_module_bytes == 16 * 1024 * 1024,
            r.max_prototypes == 4096,
            r.max_instructions == 100_000,
            r.max_constants == 100_000,
            r.max_registers == 4096,
            r.max_upvalues_per_prototype == 255,
    {
        VerifyLimits {
            max_module_bytes: 16 * 1024 * 1024,
            max_prototypes: 4096,
            max_instructions: 100_000,
            max_constants: 100_000,
            max_registers: 4096,
            max_upvalues_per_prototype: 255,
        }
    }
}

impl Default for VerifyLimits {
    fn default() -> (r: Self)
        ensures
            r.max_module_bytes == 16 * 1024 * 1024,
            r.max_prototypes == 4096,
            r.max_instructions == 100_000,
            r.max_constants == 100_000,
            r.max_registers == 4096,
            r.max_upvalues_per_prototype == 255,
    {
        VerifyLimits::default_limits()
    }
}

#[derive(Clone, Copy, Debug, PartialEq, Eq, Structural)]
pub struct BytecodeSpan {
    pub start_byte: u64,
    pub end_byte: u64,
}

#[derive(Clone, Copy, Debug, PartialEq, Eq, Structural, Hash)]
pub struct BytecodeBindingId {
    pub function: u32,
    pub ordinal: u32,
}

#[derive(Clone, Copy, Debug, PartialEq, Eq, Structural)]
pub enum BytecodeExitKind {
    Normal,
    Return,
    Break,
    Goto,
    Error,
}

#[derive(Clone, Copy, Debug, PartialEq, Eq, Structural)]
pub enum BytecodeUpvalueSource {
    ParentLocal(BytecodeBindingId),
    ParentUpvalue(UpvalueId),
}

#[derive(Clone, Copy, Debug, PartialEq, Eq, Structural)]
pub struct BytecodeUpvalue {
    pub id: UpvalueId,
    pub source: BytecodeUpvalueSource,
}

#[derive(Clone, Debug, PartialEq, Eq)]
pub struct BytecodeClosePath {
    pub kind: BytecodeExitKind,
    pub span: BytecodeSpan,
    pub from_scope: u32,
    pub target_scope: Option<u32>,
    pub bindings: Vec<BytecodeBindingId>,
    pub registers: Vec<Register>,
}

/// The mathematical value of a close path.
pub struct ClosePathModel {
    pub kind: BytecodeExitKind,
    pub span: BytecodeSpan,
    pub from_scope: u32,
    pub target_scope: Option<u32>,
    pub bindings: Seq<BytecodeBindingId>,
    pub registers: Seq<Register>,
}

impl View for BytecodeClosePath {
    type V = ClosePathModel;

    open spec fn view(&self) -> ClosePathModel {
        ClosePathModel {
            kind: self.kind,
            span: self.span,
            from_scope: self.from_scope,
            target_scope: self.target_scope,
            bindings: self.bindings@,
            registers: self.registers@,
        }
    }
}

#[derive(Clone, Debug, PartialEq)]
pub enum BytecodeConstant {
    Integer(i64),
    FloatBits(u64),
    Name(Vec<u8>),
    String(Vec<u8>),
    Boolean(bool),
}

/// The mathematical value of a constant.
pub enum ConstantModel {
    Integer(i64),
    FloatBits(u64),
    Name(Seq<u8>),
    String(Seq<u8>),
    Boolean(bool),
}

impl View for BytecodeConstant {
    type V = ConstantModel;

    open spec fn view(&self) -> ConstantModel {
        match self {
            BytecodeConstant::Integer(v) => ConstantModel::Integer(*v),
            BytecodeConstant::FloatBits(v) => ConstantModel::FloatBits(*v),
            BytecodeConstant::Name(v) => ConstantModel::Name(v@),
            BytecodeConstant::String(v) => ConstantModel::String(v@),
            BytecodeConstant::Boolean(v) => ConstantModel::Boolean(*v),
        }
    }
}

#[derive(Clone, Debug, PartialEq)]
pub struct BytecodeInstruction {
    pub instruction: Instruction,
    pub span: BytecodeSpan,
    /// The static link of a Close instruction to its ordered close path;
    /// every other opcode carries `None`.
    pub close_path: Option<BytecodeClosePath>,
}

/// The mathematical value of an instruction entry.
pub struct InstructionModel {
    pub instruction: Instruction,
    pub span: BytecodeSpan,
    pub close_path: Option<ClosePathModel>,
}

pub open spec fn close_view(c: Option<BytecodeClosePath>) -> Option<ClosePathModel> {
    match c {
        Some(p) => Some(p@),
        None => None,
    }
}

impl View for BytecodeInstruction {
    type V = InstructionModel;

    open spec fn view(&self) -> InstructionModel {
        InstructionModel {
            instruction: self.instruction,
            span: self.span,
            close_path: close_view(self.close_path),
        }
    }
}

#[derive(Clone, Debug, PartialEq)]
pub struct BytecodePrototype {
    pub id: ProtoId,
    pub function: u32,
    pub parent: Option<ProtoId>,
    pub span: BytecodeSpan,
    pub register_count: u16,
    pub parameter_count: u16,
    pub is_variadic: bool,
    pub named_vararg: Option<(BytecodeBindingId, Register)>,
    pub frame: FrameLayout,
    pub global_environment: Register,
    pub global_environment_binding: BytecodeBindingId,
    pub binding_registers: Vec<(BytecodeBindingId, Register)>,
    pub constants: Vec<BytecodeConstant>,
    pub upvalues: Vec<BytecodeUpvalue>,
    pub instructions: Vec<BytecodeInstruction>,
    pub close_paths: Vec<BytecodeClosePath>,
}

/// The mathematical value of a prototype.
pub struct PrototypeModel {
    pub id: ProtoId,
    pub function: u32,
    pub parent: Option<ProtoId>,
    pub span: BytecodeSpan,
    pub register_count: u16,
    pub parameter_count: u16,
    pub is_variadic: bool,
    pub named_vararg: Option<(BytecodeBindingId, Register)>,
    pub frame: FrameLayout,
    pub global_environment: Register,
    pub global_environment_binding: BytecodeBindingId,
    pub binding_registers: Seq<(BytecodeBindingId, Register)>,
    pub constants: Seq<ConstantModel>,
    pub upvalues: Seq<BytecodeUpvalue>,
    pub instructions: Seq<InstructionModel>,
    pub close_paths: Seq<ClosePathModel>,
}

impl View for BytecodePrototype {
    type V = PrototypeModel;

    open spec fn view(&self) -> PrototypeModel {
        PrototypeModel {
            id: self.id,
            function: self.function,
            parent: self.parent,
            span: self.span,
            register_count: self.register_count,
            parameter_count: self.parameter_count,
            is_variadic: self.is_variadic,
            named_vararg: self.named_vararg,
            frame: self.frame,
            global_environment: self.global_environment,
            global_environment_binding: self.global_environment_binding,
            binding_registers: self.binding_registers@,
            constants: self.constants@.map_values(|c: BytecodeConstant| c@),
            upvalues: self.upvalues@,
            instructions: self.instructions@.map_values(|i: BytecodeInstruction| i@),
            close_paths: self.close_paths@.map_values(|c: BytecodeClosePath| c@),
        }
    }
}

#[derive(Clone, Debug, PartialEq)]
pub struct BytecodeModule {
    pub format_version: BytecodeVersion,
    pub profile: LuaProfile,
    pub numeric_config: u8,
    pub span: BytecodeSpan,
    pub function_prototypes: Vec<(u32, ProtoId)>,
    pub prototypes: Vec<BytecodePrototype>,
}

/// The mathematical value of a module.
pub struct ModuleModel {
    pub format_version: BytecodeVersion,
    pub profile: LuaProfile,
    pub numeric_config: u8,
    pub span: BytecodeSpan,
    pub function_prototypes: Seq<(u32, ProtoId)>,
    pub prototypes: Seq<PrototypeModel>,
}

impl View for BytecodeModule {
    type V = ModuleModel;

    open spec fn view(&self) -> ModuleModel {
        ModuleModel {
            format_version: self.format_version,
            profile: self.profile,
            numeric_config: self.numeric_config,
            span: self.span,
            function_prototypes: self.function_prototypes@,
            prototypes: self.prototypes@.map_values(|p: BytecodePrototype| p@),
        }
    }
}

} // verus!
