//! The value model: opaque handles and the tagged union of everything a
//! handle can denote.

use crate::typ::Type;
use vstd::prelude::*;

verus! {

/// Opaque handle into a function's value table.
#[derive(Clone, Copy, PartialEq, Eq, Structural, Debug)]
pub struct ValueId(pub u32);

/// Opaque handle into a function's instruction table.
#[derive(Clone, Copy, PartialEq, Eq, Structural, Debug)]
pub struct InstructionId(pub u32);

/// Opaque handle to a basic block, unique within a function.
#[derive(Clone, Copy, PartialEq, Eq, Structural, Debug)]
pub struct BasicBlockId(pub u32);

/// Opaque handle to a function, unique within a program.
#[derive(Clone, Copy, PartialEq, Eq, Structural, Debug)]
pub struct FunctionId(pub u32);

/// Everything a value handle can denote. Every variant carries the type
/// the value is displayed with.
#[derive(Debug)]
pub enum Value {
    /// A block-scoped input; it has no defining instruction.
    Param { typ: Type },
    /// The result of exactly one instruction; `position` is the index of
    /// this result when the instruction yields several.
    Instruction { instruction: InstructionId, position: usize, typ: Type },
    /// An immutable numeric literal.
    NumericConstant { constant: u128, typ: Type },
    /// A reference to another function of the program.
    Function { id: FunctionId, typ: Type },
    /// A reference to a builtin operation.
    Intrinsic { name: String, typ: Type },
    /// A reference to an externally linked function.
    ForeignFunction { name: String, typ: Type },
    /// An array of other values; the type carries one element type per lane.
    Array { array: Vec<ValueId>, typ: Type },
}

impl Value {
    /// The type this value is displayed with.
    pub open spec fn spec_typ(self) -> Type {
        match self {
            Value::Param { typ } => typ,
            Value::Instruction { typ, .. } => typ,
            Value::NumericConstant { typ, .. } => typ,
            Value::Function { typ, .. } => typ,
            Value::Intrinsic { typ, .. } => typ,
            Value::ForeignFunction { typ, .. } => typ,
            Value::Array { typ, .. } => typ,
        }
    }

    /// The type this value is displayed with.
    pub fn typ(&self) -> (r: &Type)
        ensures
            *r == self.spec_typ(),
    {
        match self {
            Value::Param { typ } => typ,
            Value::Instruction { typ, .. } => typ,
            Value::NumericConstant { typ, .. } => typ,
            Value::Function { typ, .. } => typ,
            Value::Intrinsic { typ, .. } => typ,
            Value::ForeignFunction { typ, .. } => typ,
            Value::Array { typ, .. } => typ,
        }
    }
}

} // verus!
