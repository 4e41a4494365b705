//! Checkable numeric core errors.

use vstd::prelude::*;

use crate::value::ValueKind;

verus! {

/// The numeric operation that produced an error.
#[derive(Clone, Copy, Debug, PartialEq, Eq, Structural)]
pub enum Operation {
    FloorDivide,
    Modulo,
    BitAnd,
    BitOr,
    BitXor,
    BitNot,
    ShiftLeft,
    ShiftRight,
    ConvertToInteger,
    ConvertToNumber,
}

/// The reason of an error, checkable by the caller.
#[derive(Clone, Copy, Debug, PartialEq, Eq, Structural)]
pub enum CoreErrorKind {
    IntegerDivideByZero,
    IntegerModuloByZero,
    NotInteger,
    NotNumeric,
}

/// Core error data; it holds no host address and no uninitialised data.
#[derive(Clone, Copy, Debug, PartialEq, Eq, Structural)]
pub struct CoreError {
    pub operation: Operation,
    pub operand: ValueKind,
    pub kind: CoreErrorKind,
}

impl CoreError {
    /// Builds an error from its three parts, kept unchanged.
    pub fn new(operation: Operation, operand: ValueKind, kind: CoreErrorKind) -> (r: Self)
        ensures
            r.operation == operation,
            r.operand == operand,
            r.kind == kind,
    {
        CoreError { operation, operand, kind }
    }
}

} // verus!
