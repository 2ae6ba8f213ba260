//! Basic blocks: an ordered parameter list, an ordered instruction list,
//! and an optional terminator (absent only while a function is being
//! built).

use crate::instruction::TerminatorInstruction;
use crate::value::{InstructionId, ValueId};
use vstd::prelude::*;

verus! {

/// A straight-line instruction sequence with parameters, ended by at most
/// one terminator. Successor blocks are derived from the terminator.
#[derive(Debug)]
pub struct BasicBlock {
    /// The block's parameters, in order.
    pub parameters: Vec<ValueId>,
    /// The block's instructions, in definition order.
    pub instructions: Vec<InstructionId>,
    /// The terminator; `None` only during construction.
    pub terminator: Option<TerminatorInstruction>,
}

impl BasicBlock {
    /// The successors this block can transfer control to; empty while the
    /// block is unterminated.
    pub open spec fn spec_successors(self) -> Seq<u32> {
        match self.terminator {
            Some(t) => t.spec_successors(),
            None => Seq::empty(),
        }
    }

    /// The successors this block can transfer control to, as a list of
    /// block numbers.
    pub fn successors(&self) -> (r: Vec<u32>)
        ensures
            r@ == self.spec_successors(),
    {
        let mut r: Vec<u32> = Vec::new();
        match &self.terminator {
            Some(TerminatorInstruction::Jmp { destination, .. }) => {
                r.push(destination.0);
                proof {
                    assert(r@ =~= self.spec_successors());
                }
            },
            Some(TerminatorInstruction::JmpIf { then_destination, else_destination, .. }) => {
                r.push(then_destination.0);
                r.push(else_destination.0);
                proof {
                    assert(r@ =~= self.spec_successors());
                }
            },
            Some(TerminatorInstruction::Return { .. }) => {
                proof {
                    assert(r@ =~= self.spec_successors());
                }
            },
            None => {
                proof {
                    assert(r@ =~= self.spec_successors());
                }
            },
        }
        r
    }

    /// An empty, unterminated block.
    pub fn new() -> (r: BasicBlock)
        ensures
            r.parameters@ == Seq::<ValueId>::empty(),
            r.instructions@ == Seq::<InstructionId>::empty(),
            r.terminator is None,
    {
        BasicBlock { parameters: Vec::new(), instructions: Vec::new(), terminator: None }
    }
}

} // verus!
