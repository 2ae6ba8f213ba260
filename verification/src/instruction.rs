//! The closed set of instructions and block terminators, with their
//! display names.

use crate::value::{BasicBlockId, ValueId};
use vstd::prelude::*;

verus! {

/// The reserved error selector that marks a dynamic payload as an encoded
/// string.
pub const STRING_ERROR_SELECTOR: u64 = 0;

/// Binary operators, each with a display symbol.
#[derive(Clone, Copy, PartialEq, Eq, Structural, Debug)]
pub enum BinaryOp {
    Add,
    Sub,
    Mul,
    Div,
    Mod,
    Eq,
    Lt,
    And,
    Or,
    Xor,
    Shl,
    Shr,
}

/// The display symbol of a binary operator.
pub open spec fn binop_text(op: BinaryOp) -> Seq<char> {
    match op {
        BinaryOp::Add => "add"@,
        BinaryOp::Sub => "sub"@,
        BinaryOp::Mul => "mul"@,
        BinaryOp::Div => "div"@,
        BinaryOp::Mod => "mod"@,
        BinaryOp::Eq => "eq"@,
        BinaryOp::Lt => "lt"@,
        BinaryOp::And => "and"@,
        BinaryOp::Or => "or"@,
        BinaryOp::Xor => "xor"@,
        BinaryOp::Shl => "shl"@,
        BinaryOp::Shr => "shr"@,
    }
}

/// Renders the display symbol of a binary operator.
pub fn binop_str(op: BinaryOp) -> (r: &'static str)
    ensures
        r@ == binop_text(op),
{
    match op {
        BinaryOp::Add => "add",
        BinaryOp::Sub => "sub",
        BinaryOp::Mul => "mul",
        BinaryOp::Div => "div",
        BinaryOp::Mod => "mod",
        BinaryOp::Eq => "eq",
        BinaryOp::Lt => "lt",
        BinaryOp::And => "and",
        BinaryOp::Or => "or",
        BinaryOp::Xor => "xor",
        BinaryOp::Shl => "shl",
        BinaryOp::Shr => "shr",
    }
}

/// The error payload a `Constrain` may carry: either a static diagnostic
/// string, or a dynamic payload identified by a small integer selector
/// plus an ordered list of values.
#[derive(Debug)]
pub enum ConstrainError {
    StaticString(String),
    Dynamic(u64, Vec<ValueId>),
}

/// The closed set of operations. Operand order matters: it is displayed
/// and semantically meaningful.
#[derive(Debug)]
pub enum Instruction {
    /// Two operands combined by an operator; one result.
    Binary { operator: BinaryOp, lhs: ValueId, rhs: ValueId },
    /// Reinterprets width or signedness; one result.
    Cast { value: ValueId, typ: crate::typ::Type },
    /// Bitwise or boolean complement; one result.
    Not { value: ValueId },
    /// Narrows the representable range; one result.
    Truncate { value: ValueId, bit_size: u32, max_bit_size: u32 },
    /// An assertion that both operands are equal, with an optional error
    /// payload; no result.
    Constrain { lhs: ValueId, rhs: ValueId, error: Option<ConstrainError> },
    /// A call of a direct function, intrinsic, or indirect value; any
    /// number of results.
    Call { func: ValueId, arguments: Vec<ValueId> },
    /// Introduces a mutable memory cell; one result (the reference).
    Allocate,
    /// Reads the current value of a cell; one result.
    Load { address: ValueId },
    /// Writes a cell; no result.
    Store { address: ValueId, value: ValueId },
    /// Toggles the conditional-execution context for the instructions that
    /// follow; no result.
    EnableSideEffectsIf { condition: ValueId },
    /// Reads one array element (bounds are checked elsewhere); one result.
    ArrayGet { array: ValueId, index: ValueId },
    /// Produces an updated array; the flag distinguishes in-place from
    /// copy-on-write semantics; one result.
    ArraySet { array: ValueId, index: ValueId, value: ValueId, mutable: bool },
    /// Reference-count bookkeeping for shared arrays; no result.
    IncrementRc { value: ValueId },
    /// Reference-count bookkeeping for shared arrays; no result.
    DecrementRc { value: ValueId },
    /// Asserts the operand fits in the given bit width; no result.
    RangeCheck { value: ValueId, max_bit_size: u32 },
    /// Value-level conditional select; one result.
    IfElse { then_condition: ValueId, then_value: ValueId, else_condition: ValueId, else_value: ValueId },
}

impl Instruction {
    /// How many results this instruction yields, or `None` when the count
    /// is free (a call yields as many results as its callee).
    pub open spec fn result_arity(self) -> Option<int> {
        match self {
            Instruction::Binary { .. } => Some(1),
            Instruction::Cast { .. } => Some(1),
            Instruction::Not { .. } => Some(1),
            Instruction::Truncate { .. } => Some(1),
            Instruction::Constrain { .. } => Some(0),
            Instruction::Call { .. } => None,
            Instruction::Allocate => Some(1),
            Instruction::Load { .. } => Some(1),
            Instruction::Store { .. } => Some(0),
            Instruction::EnableSideEffectsIf { .. } => Some(0),
            Instruction::ArrayGet { .. } => Some(1),
            Instruction::ArraySet { .. } => Some(1),
            Instruction::IncrementRc { .. } => Some(0),
            Instruction::DecrementRc { .. } => Some(0),
            Instruction::RangeCheck { .. } => Some(0),
            Instruction::IfElse { .. } => Some(1),
        }
    }
}

/// The control transfer that ends a complete block.
#[derive(Debug)]
pub enum TerminatorInstruction {
    /// Unconditional jump, passing arguments to the destination's
    /// parameters.
    Jmp { destination: BasicBlockId, arguments: Vec<ValueId> },
    /// Conditional jump to one of two destinations.
    JmpIf { condition: ValueId, then_destination: BasicBlockId, else_destination: BasicBlockId },
    /// Return from the function.
    Return { return_values: Vec<ValueId> },
}

impl TerminatorInstruction {
    /// The successor blocks this terminator can transfer control to.
    pub open spec fn spec_successors(self) -> Seq<u32> {
        match self {
            TerminatorInstruction::Jmp { destination, .. } => seq![destination.0],
            TerminatorInstruction::JmpIf { then_destination, else_destination, .. } => seq![
                then_destination.0,
                else_destination.0,
            ],
            TerminatorInstruction::Return { .. } => Seq::empty(),
        }
    }
}

} // verus!
