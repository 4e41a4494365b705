//! The owned typed IR that lowering produces from the resolved tree; it is
//! not yet bytecode and nothing runs it.

use vstd::prelude::*;
use crate::bytecode::{FrameLayout, Instruction, LuaProfile, ProtoId, Register, UpvalueId};
use crate::lexer::{Literal, Span};
use crate::resolved::{BindingId, ExitKind, FunctionId, ScopeId, UpvalueSource};

verus! {

#[derive(Clone, Debug, PartialEq)]
pub enum IrConstant {
    Literal(Literal),
    Boolean(bool),
    Name(Vec<u8>),
}

#[derive(Clone, Debug, PartialEq)]
pub struct IrInstruction {
    pub instruction: Instruction,
    pub span: Span,
    pub close_path: Option<IrClosePath>,
}

#[derive(Clone, Debug, PartialEq)]
pub struct IrClosePath {
    pub kind: ExitKind,
    pub span: Span,
    pub from_scope: ScopeId,
    pub target_scope: Option<ScopeId>,
    pub bindings: Vec<BindingId>,
    pub registers: Vec<Register>,
}

#[derive(Clone, Debug, Eq, PartialEq)]
pub struct IrUpvalue {
    pub id: UpvalueId,
    pub source: UpvalueSource,
}

#[derive(Clone, Debug, PartialEq)]
pub struct IrPrototype {
    pub id: ProtoId,
    pub function: FunctionId,
    pub parent: Option<ProtoId>,
    pub span: Span,
    pub register_count: u16,
    pub parameter_count: u16,
    pub is_variadic: bool,
    pub named_vararg: Option<(BindingId, Register)>,
    pub frame: FrameLayout,
    pub global_environment: Register,
    pub global_environment_binding: BindingId,
    pub binding_registers: Vec<(BindingId, Register)>,
    pub constants: Vec<IrConstant>,
    pub upvalues: Vec<IrUpvalue>,
    pub instructions: Vec<IrInstruction>,
    pub close_paths: Vec<IrClosePath>,
}

#[derive(Clone, Debug, PartialEq)]
pub struct IrModule {
    pub profile: LuaProfile,
    pub span: Span,
    pub function_prototypes: Vec<(FunctionId, ProtoId)>,
    pub prototypes: Vec<IrPrototype>,
}

/// The prototype the first entry for `function` maps it to.
pub open spec fn proto_of(map: Seq<(FunctionId, ProtoId)>, function: FunctionId) -> Option<ProtoId>
    decreases map.len(),
{
    if map.len() == 0 {
        None
    } else if map[0].0 == function {
        Some(map[0].1)
    } else {
        proto_of(map.drop_first(), function)
    }
}

impl IrModule {
    /// The prototype that `function` was lowered into.
    pub fn proto_id_for(&self, function: FunctionId) -> (r: Option<ProtoId>)
        ensures
            r == proto_of(self.function_prototypes@, function),
    {
        let mut i: usize = 0;
        assert(self.function_prototypes@.skip(0) =~= self.function_prototypes@);
        while i < self.function_prototypes.len()
            invariant
                i <= self.function_prototypes@.len(),
                proto_of(self.function_prototypes@, function) == proto_of(self.function_prototypes@.skip(i as int), function),
            decreases self.function_prototypes.len() - i,
        {
            assert(self.function_prototypes@.skip(i as int).drop_first() =~= self.function_prototypes@.skip(i + 1));
            if self.function_prototypes[i].0 == function {
                return Some(self.function_prototypes[i].1);
            }
            i = i + 1;
        }
        None
    }

    /// The prototype that `function` was lowered into, itself.
    pub fn prototype_for(&self, function: FunctionId) -> (r: Option<&IrPrototype>)
        ensures
            r matches Some(p) ==> proto_of(self.function_prototypes@, function) == Some(p.id)
                && self.prototypes@.contains(*p),
            r is None ==> proto_of(self.function_prototypes@, function) is None
                || forall|k: int| 0 <= k < self.prototypes@.len() ==> self.prototypes@[k].id != proto_of(self.function_prototypes@, function)->0,
    {
        let id = match self.proto_id_for(function) {
            Some(id) => id,
            None => {
                return None;
            },
        };
        let mut k: usize = 0;
        while k < self.prototypes.len()
            invariant
                k <= self.prototypes@.len(),
                proto_of(self.function_prototypes@, function) == Some(id),
                forall|j: int| 0 <= j < k ==> self.prototypes@[j].id != id,
            decreases self.prototypes.len() - k,
        {
            if self.prototypes[k].id == id {
                return Some(&self.prototypes[k]);
            }
            k = k + 1;
        }
        None
    }
}

} // verus!
