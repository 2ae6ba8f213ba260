//! A function: identity, runtime classification, a distinguished entry
//! block, and the data-flow graph owning all of its IR.

use crate::dfg::DataFlowGraph;
use crate::typ::Type;
use crate::value::{BasicBlockId, FunctionId, ValueId};
use vstd::prelude::*;

verus! {

/// How calls into a function are inlined.
#[derive(Clone, Copy, PartialEq, Eq, Structural, Debug)]
pub enum InlineType {
    /// Inlined into its callers.
    Inline,
    /// Kept apart as a callable unit of its own.
    Fold,
}

/// The runtime a function is compiled for.
#[derive(Clone, Copy, PartialEq, Eq, Structural, Debug)]
pub enum RuntimeType {
    /// Compiled to an arithmetic circuit.
    Acir(InlineType),
    /// Compiled to bytecode for the unconstrained runtime.
    Brillig(InlineType),
}

impl RuntimeType {
    /// Whether a function of this runtime is a program entry point on its
    /// own (beyond the designated main function): a circuit function kept
    /// apart as a callable unit.
    pub open spec fn spec_is_entry_point(self) -> bool {
        self == RuntimeType::Acir(InlineType::Fold)
    }

    /// Whether a function of this runtime is a program entry point on its
    /// own.
    pub fn is_entry_point(&self) -> (r: bool)
        ensures
            r == self.spec_is_entry_point(),
    {
        match self {
            RuntimeType::Acir(InlineType::Fold) => true,
            _ => false,
        }
    }
}

/// The display tag of a runtime.
pub open spec fn runtime_text(rt: RuntimeType) -> Seq<char> {
    match rt {
        RuntimeType::Acir(InlineType::Inline) => "acir(inline)"@,
        RuntimeType::Acir(InlineType::Fold) => "acir(fold)"@,
        RuntimeType::Brillig(InlineType::Inline) => "brillig(inline)"@,
        RuntimeType::Brillig(InlineType::Fold) => "brillig(fold)"@,
    }
}

/// Renders the display tag of a runtime.
pub fn runtime_str(rt: RuntimeType) -> (r: &'static str)
    ensures
        r@ == runtime_text(rt),
{
    match rt {
        RuntimeType::Acir(InlineType::Inline) => "acir(inline)",
        RuntimeType::Acir(InlineType::Fold) => "acir(fold)",
        RuntimeType::Brillig(InlineType::Inline) => "brillig(inline)",
        RuntimeType::Brillig(InlineType::Fold) => "brillig(fold)",
    }
}

/// One function of the program.
#[derive(Debug)]
pub struct Function {
    /// The function's identity within its program.
    pub id: FunctionId,
    /// The function's name, for display.
    pub name: String,
    /// The runtime classification.
    pub runtime: RuntimeType,
    /// The block where execution of this function begins.
    pub entry_block: BasicBlockId,
    /// The data-flow graph owning all blocks, values and instructions.
    pub dfg: DataFlowGraph,
}

impl Function {
    /// Well-formedness: the graph is well-formed and the entry block
    /// exists.
    pub open spec fn wf(self) -> bool {
        &&& self.dfg.wf()
        &&& (self.entry_block.0 as int) < self.dfg.blocks@.len()
    }

    /// Decides well-formedness at run time, for callers that receive a
    /// function from outside (deserialization) and cannot assume it.
    pub fn is_wf(&self) -> (r: bool)
        ensures
            r == self.wf(),
    {
        self.dfg.is_wf() && (self.entry_block.0 as usize) < self.dfg.blocks.len()
    }

    /// A fresh function with the given name and identifier, one empty
    /// entry block, and the default runtime.
    pub fn new(name: String, id: FunctionId) -> (r: Function)
        ensures
            r.wf(),
            r.id == id,
            r.name == name,
            r.runtime == RuntimeType::Acir(InlineType::Inline),
            r.entry_block.0 == 0,
            r.dfg.blocks@.len() == 1,
            r.dfg.values@.len() == 0,
            r.dfg.instructions@.len() == 0,
            r.dfg.blocks@[0].parameters@.len() == 0,
            r.dfg.blocks@[0].instructions@.len() == 0,
            r.dfg.blocks@[0].terminator is None,
    {
        let mut dfg = DataFlowGraph::new();
        let entry = dfg.make_block();
        Function { id, name, runtime: RuntimeType::Acir(InlineType::Inline), entry_block: entry, dfg }
    }

    /// Adds a parameter of the given type to the entry block.
    pub fn add_parameter(&mut self, typ: Type) -> (r: ValueId)
        requires
            old(self).wf(),
            old(self).dfg.values@.len() < u32::MAX,
        ensures
            final(self).wf(),
            final(self).id == old(self).id,
            final(self).name == old(self).name,
            final(self).runtime == old(self).runtime,
            final(self).entry_block == old(self).entry_block,
            r.0 as int == old(self).dfg.values@.len(),
            final(self).dfg.values@ == old(self).dfg.values@.push(
                crate::value::Value::Param { typ },
            ),
            final(self).dfg.instructions == old(self).dfg.instructions,
            final(self).dfg.blocks@[old(self).entry_block.0 as int].parameters@ == old(
                self,
            ).dfg.blocks@[old(self).entry_block.0 as int].parameters@.push(r),
            final(self).dfg.blocks@.len() == old(self).dfg.blocks@.len(),
    {
        let entry = self.entry_block;
        self.dfg.add_parameter(entry, typ)
    }
}

} // verus!
