//! The per-function data-flow graph: the value table with its alias
//! resolution, the instruction table with its results, and the block
//! table. It is the sole mutation surface for a function's IR.

use crate::basic_block::BasicBlock;
use crate::instruction::{Instruction, TerminatorInstruction};
use crate::typ::Type;
use crate::value::{BasicBlockId, InstructionId, Value, ValueId};
use vstd::prelude::*;

verus! {

/// Owner of all values, instructions and blocks of one function.
#[derive(Debug)]
pub struct DataFlowGraph {
    /// The value table; `ValueId(i)` names `values[i]`.
    pub values: Vec<Value>,
    /// Alias table, parallel to `values`: `redirects[i] == i` means value
    /// `i` is canonical, `redirects[i] < i` redirects it to an earlier
    /// value. Resolution follows redirects to a fixpoint.
    pub redirects: Vec<u32>,
    /// The instruction table; `InstructionId(i)` names `instructions[i]`.
    pub instructions: Vec<Instruction>,
    /// The result values of each instruction, parallel to `instructions`.
    pub results: Vec<Vec<ValueId>>,
    /// The block table; `BasicBlockId(i)` names `blocks[i]`.
    pub blocks: Vec<BasicBlock>,
}

/// The canonical identity of the possibly-aliased value `id`: follows
/// redirects while they point strictly downward.
pub open spec fn spec_resolve_id(dfg: DataFlowGraph, id: int) -> int
    decreases id,
{
    if 0 <= id < dfg.redirects@.len() && (dfg.redirects@[id] as int) < id {
        spec_resolve_id(dfg, dfg.redirects@[id] as int)
    } else {
        id
    }
}

/// Structural soundness of one value: an array's elements must be earlier
/// values, and an array carries an array type.
pub open spec fn value_ok(v: Value, i: int) -> bool {
    match v {
        Value::Array { array, typ } => typ is Array && forall|j: int|
            0 <= j < array@.len() ==> (array@[j].0 as int) < i,
        _ => true,
    }
}

/// The result entry `(i, j)` names a value that records `i` as its one
/// defining instruction and `j` as its position.
pub open spec fn result_ok(dfg: DataFlowGraph, i: int, j: int) -> bool {
    let v = dfg.results@[i]@[j];
    &&& (v.0 as int) < dfg.values@.len()
    &&& dfg.values@[v.0 as int] matches Value::Instruction { instruction, position, .. }
        && instruction.0 as int == i && position as int == j
}

/// A block only names existing instructions, parameters and successor
/// blocks.
pub open spec fn block_ok(dfg: DataFlowGraph, blk: BasicBlock) -> bool {
    &&& forall|k: int|
        0 <= k < blk.instructions@.len() ==> (blk.instructions@[k].0 as int)
            < dfg.instructions@.len()
    &&& forall|k: int|
        0 <= k < blk.parameters@.len() ==> (blk.parameters@[k].0 as int) < dfg.values@.len()
    &&& forall|k: int|
        0 <= k < blk.spec_successors().len() ==> (blk.spec_successors()[k] as int)
            < dfg.blocks@.len()
}

impl DataFlowGraph {
    /// Well-formedness: tables are parallel, redirects point downward,
    /// arrays reference earlier values, every instruction result is
    /// defined by exactly that instruction, and blocks only name existing
    /// entities.
    pub open spec fn wf(self) -> bool {
        &&& self.redirects@.len() == self.values@.len()
        &&& forall|i: int| 0 <= i < self.redirects@.len() ==> (self.redirects@[i] as int) <= i
        &&& forall|i: int| 0 <= i < self.values@.len() ==> value_ok(#[trigger] self.values@[i], i)
        &&& self.results@.len() == self.instructions@.len()
        &&& forall|i: int, j: int|
            0 <= i < self.results@.len() && 0 <= j < self.results@[i]@.len() ==> result_ok(
                self,
                i,
                j,
            )
        &&& forall|b: int| 0 <= b < self.blocks@.len() ==> block_ok(self, #[trigger] self.blocks@[b])
    }

    /// An empty graph.
    pub fn new() -> (r: DataFlowGraph)
        ensures
            r.wf(),
            r.values@.len() == 0,
            r.instructions@.len() == 0,
            r.blocks@.len() == 0,
    {
        DataFlowGraph {
            values: Vec::new(),
            redirects: Vec::new(),
            instructions: Vec::new(),
            results: Vec::new(),
            blocks: Vec::new(),
        }
    }

    /// Decides well-formedness at run time, for callers that receive a
    /// graph from outside (deserialization) and cannot assume it.
    #[verifier::loop_isolation(false)]
    pub fn is_wf(&self) -> (r: bool)
        ensures
            r == self.wf(),
    {
        if self.redirects.len() != self.values.len() {
            return false;
        }
        if self.results.len() != self.instructions.len() {
            return false;
        }
        let nv = self.values.len();
        let mut i: usize = 0;
        while i < nv
            invariant
                i <= nv,
                forall|k: int| 0 <= k < i as int ==> (#[trigger] self.redirects@[k] as int) <= k,
                forall|k: int| 0 <= k < i as int ==> value_ok(#[trigger] self.values@[k], k),
            decreases nv - i,
        {
            if !((self.redirects[i] as usize) <= i) {
                proof {
                    if self.wf() {
                        assert((self.redirects@[i as int] as int) <= i as int);
                    }
                }
                return false;
            }
            match &self.values[i] {
                Value::Array { array, typ } => {
                    let arr_typ = match typ {
                        Type::Array { .. } => true,
                        _ => false,
                    };
                    if !arr_typ {
                        proof {
                            if self.wf() {
                                assert(value_ok(self.values@[i as int], i as int));
                            }
                        }
                        return false;
                    }
                    let na = array.len();
                    let mut j: usize = 0;
                    while j < na
                        invariant
                            j <= na,
                            i < nv,
                            forall|k: int|
                                0 <= k < j as int ==> ((#[trigger] array@[k]).0 as int) < i as int,
                        decreases na - j,
                    {
                        if !((array[j].0 as usize) < i) {
                            proof {
                                if self.wf() {
                                    assert(value_ok(self.values@[i as int], i as int));
                                }
                            }
                            return false;
                        }
                        j = j + 1;
                    }
                    proof {
                        assert(value_ok(self.values@[i as int], i as int));
                    }
                },
                _ => {},
            }
            i = i + 1;
        }
        let ni = self.results.len();
        let mut i2: usize = 0;
        while i2 < ni
            invariant
                i2 <= ni,
                forall|a: int, b2: int|
                    0 <= a < i2 as int && 0 <= b2 < self.results@[a]@.len() ==> result_ok(
                        *self,
                        a,
                        b2,
                    ),
            decreases ni - i2,
        {
            let row = &self.results[i2];
            let nr = row.len();
            let mut j: usize = 0;
            while j < nr
                invariant
                    j <= nr,
                    i2 < ni,
                    forall|b2: int| 0 <= b2 < j as int ==> result_ok(*self, i2 as int, b2),
                decreases nr - j,
            {
                let v = row[j];
                let ok: bool = if (v.0 as usize) < nv {
                    match &self.values[v.0 as usize] {
                        Value::Instruction { instruction, position, .. } => {
                            (instruction.0 as usize) == i2 && *position == j
                        },
                        _ => false,
                    }
                } else {
                    false
                };
                if !ok {
                    proof {
                        if self.wf() {
                            assert(result_ok(*self, i2 as int, j as int));
                        }
                    }
                    return false;
                }
                proof {
                    assert(result_ok(*self, i2 as int, j as int));
                }
                j = j + 1;
            }
            i2 = i2 + 1;
        }
        let nb = self.blocks.len();
        let ninst = self.instructions.len();
        let mut b: usize = 0;
        while b < nb
            invariant
                b <= nb,
                forall|k: int| 0 <= k < b as int ==> block_ok(*self, #[trigger] self.blocks@[k]),
            decreases nb - b,
        {
            let blk = &self.blocks[b];
            let n1 = blk.instructions.len();
            let mut k: usize = 0;
            while k < n1
                invariant
                    k <= n1,
                    b < nb,
                    forall|t: int|
                        0 <= t < k as int ==> ((#[trigger] blk.instructions@[t]).0 as int)
                            < self.instructions@.len(),
                decreases n1 - k,
            {
                if !((blk.instructions[k].0 as usize) < ninst) {
                    proof {
                        if self.wf() {
                            assert(block_ok(*self, self.blocks@[b as int]));
                        }
                    }
                    return false;
                }
                k = k + 1;
            }
            let n2 = blk.parameters.len();
            let mut k2: usize = 0;
            while k2 < n2
                invariant
                    k2 <= n2,
                    b < nb,
                    forall|t: int|
                        0 <= t < k2 as int ==> ((#[trigger] blk.parameters@[t]).0 as int)
                            < self.values@.len(),
                decreases n2 - k2,
            {
                if !((blk.parameters[k2].0 as usize) < nv) {
                    proof {
                        if self.wf() {
                            assert(block_ok(*self, self.blocks@[b as int]));
                        }
                    }
                    return false;
                }
                k2 = k2 + 1;
            }
            let succ = blk.successors();
            let n3 = succ.len();
            let mut k3: usize = 0;
            while k3 < n3
                invariant
                    k3 <= n3,
                    b < nb,
                    succ@ == self.blocks@[b as int].spec_successors(),
                    forall|t: int|
                        0 <= t < k3 as int ==> ((#[trigger] succ@[t]) as int) < self.blocks@.len(),
                decreases n3 - k3,
            {
                if !((succ[k3] as usize) < nb) {
                    proof {
                        if self.wf() {
                            assert(block_ok(*self, self.blocks@[b as int]));
                        }
                    }
                    return false;
                }
                k3 = k3 + 1;
            }
            proof {
                assert(block_ok(*self, self.blocks@[b as int]));
            }
            b = b + 1;
        }
        proof {
            assert(self.wf());
        }
        true
    }

    /// Returns the canonical identity for a possibly-aliased value.
    /// Stale handles captured before an alias was recorded remain valid
    /// inputs. The result is itself canonical.
    pub fn resolve(&self, id: ValueId) -> (r: ValueId)
        ensures
            r.0 as int == spec_resolve_id(*self, id.0 as int),
            spec_resolve_id(*self, r.0 as int) == r.0 as int,
        decreases id.0,
    {
        let i = id.0 as usize;
        if i < self.redirects.len() && self.redirects[i] < id.0 {
            let nxt = self.redirects[i];
            self.resolve(ValueId(nxt))
        } else {
            proof {
                lemma_resolve_idempotent(*self, id.0 as int);
            }
            id
        }
    }

    /// The type of the (resolved) value `id`.
    pub open spec fn spec_type_of(self, id: ValueId) -> Type {
        let c = spec_resolve_id(self, id.0 as int);
        if 0 <= c < self.values@.len() {
            self.values@[c].spec_typ()
        } else {
            Type::Function
        }
    }

    /// Looks up the type of a value, resolving it first.
    pub fn type_of_value(&self, id: ValueId) -> (r: &Type)
        requires
            spec_resolve_id(*self, id.0 as int) < self.values@.len(),
        ensures
            *r == self.spec_type_of(id),
    {
        let c = self.resolve(id);
        self.values[c.0 as usize].typ()
    }

    /// The numeric constant the value resolves to, if it is one.
    pub open spec fn spec_numeric_constant(self, id: ValueId) -> Option<u128> {
        let c = spec_resolve_id(self, id.0 as int);
        if 0 <= c < self.values@.len() && self.values@[c] is NumericConstant {
            Some(self.values@[c]->NumericConstant_constant)
        } else {
            None
        }
    }

    /// Looks up the numeric constant a value resolves to, if any.
    pub fn get_numeric_constant(&self, id: ValueId) -> (r: Option<u128>)
        ensures
            r == self.spec_numeric_constant(id),
    {
        let c = self.resolve(id);
        let i = c.0 as usize;
        if i < self.values.len() {
            match &self.values[i] {
                Value::NumericConstant { constant, .. } => Some(*constant),
                _ => None,
            }
        } else {
            None
        }
    }

    /// The result values of an instruction.
    pub fn instruction_results(&self, id: InstructionId) -> (r: &Vec<ValueId>)
        requires
            (id.0 as int) < self.results@.len(),
        ensures
            *r == self.results@[id.0 as int],
    {
        &self.results[id.0 as usize]
    }

    /// Appends a fresh, unterminated block and returns its identifier.
    pub fn make_block(&mut self) -> (r: BasicBlockId)
        requires
            old(self).wf(),
            old(self).blocks@.len() < u32::MAX,
        ensures
            final(self).wf(),
            r.0 as int == old(self).blocks@.len(),
            final(self).blocks@.len() == old(self).blocks@.len() + 1,
            final(self).values == old(self).values,
            final(self).redirects == old(self).redirects,
            final(self).instructions == old(self).instructions,
            final(self).results == old(self).results,
            forall|b: int|
                0 <= b < old(self).blocks@.len() ==> final(self).blocks@[b] == old(self).blocks@[b],
            final(self).blocks@[r.0 as int].parameters@.len() == 0,
            final(self).blocks@[r.0 as int].instructions@.len() == 0,
            final(self).blocks@[r.0 as int].terminator is None,
    {
        let id = BasicBlockId(self.blocks.len() as u32);
        self.blocks.push(BasicBlock::new());
        proof {
            assert forall|b: int| 0 <= b < self.blocks@.len() implies block_ok(
                *self,
                self.blocks@[b],
            ) by {
                if b < old(self).blocks@.len() {
                    assert(block_ok(*old(self), old(self).blocks@[b]));
                }
            }
            assert forall|i: int, j: int|
                0 <= i < self.results@.len() && 0 <= j < self.results@[i]@.len() implies result_ok(
                *self,
                i,
                j,
            ) by {
                assert(result_ok(*old(self), i, j));
            }
        }
        id
    }

    /// Appends one value (with its self-redirect) and returns its
    /// identifier. Internal helper for the typed constructors below.
    fn push_value(&mut self, v: Value) -> (r: ValueId)
        requires
            old(self).wf(),
            old(self).values@.len() < u32::MAX,
            value_ok(v, old(self).values@.len() as int),
        ensures
            final(self).wf(),
            r.0 as int == old(self).values@.len(),
            final(self).values@ == old(self).values@.push(v),
            final(self).redirects@ == old(self).redirects@.push(r.0),
            final(self).instructions == old(self).instructions,
            final(self).results == old(self).results,
            final(self).blocks == old(self).blocks,
            spec_resolve_id(*final(self), r.0 as int) == r.0 as int,
    {
        let id = ValueId(self.values.len() as u32);
        self.values.push(v);
        self.redirects.push(id.0);
        proof {
            let new = *self;
            let oldd = *old(self);
            assert forall|i: int, j: int|
                0 <= i < new.results@.len() && 0 <= j < new.results@[i]@.len() implies result_ok(
                new,
                i,
                j,
            ) by {
                assert(result_ok(oldd, i, j));
            }
            assert forall|b: int| 0 <= b < new.blocks@.len() implies block_ok(
                new,
                new.blocks@[b],
            ) by {
                assert(block_ok(oldd, oldd.blocks@[b]));
            }
        }
        id
    }

    /// Adds a parameter value to a block and returns its identifier.
    pub fn add_parameter(&mut self, block: BasicBlockId, typ: Type) -> (r: ValueId)
        requires
            old(self).wf(),
            (block.0 as int) < old(self).blocks@.len(),
            old(self).values@.len() < u32::MAX,
        ensures
            final(self).wf(),
            r.0 as int == old(self).values@.len(),
            final(self).values@ == old(self).values@.push(Value::Param { typ }),
            final(self).redirects@ == old(self).redirects@.push(r.0),
            final(self).instructions == old(self).instructions,
            final(self).results == old(self).results,
            final(self).blocks@[block.0 as int].parameters@ == old(
                self,
            ).blocks@[block.0 as int].parameters@.push(r),
            final(self).blocks@[block.0 as int].instructions == old(
                self,
            ).blocks@[block.0 as int].instructions,
            final(self).blocks@[block.0 as int].terminator == old(
                self,
            ).blocks@[block.0 as int].terminator,
            forall|b: int|
                0 <= b < old(self).blocks@.len() && b != block.0 as int ==> final(self).blocks@[b]
                    == old(self).blocks@[b],
            final(self).blocks@.len() == old(self).blocks@.len(),
            spec_resolve_id(*final(self), r.0 as int) == r.0 as int,
    {
        let id = self.push_value(Value::Param { typ });
        let bi = block.0 as usize;
        self.blocks[bi].parameters.push(id);
        proof {
            let new = *self;
            let oldd = *old(self);
            assert forall|b: int| 0 <= b < new.blocks@.len() implies block_ok(
                new,
                new.blocks@[b],
            ) by {
                assert(block_ok(oldd, oldd.blocks@[b]));
                if b == block.0 as int {
                    assert(new.blocks@[b].spec_successors() == oldd.blocks@[b].spec_successors());
                }
            }
            assert forall|i: int, j: int|
                0 <= i < new.results@.len() && 0 <= j < new.results@[i]@.len() implies result_ok(
                new,
                i,
                j,
            ) by {
                assert(result_ok(oldd, i, j));
            }
            lemma_resolve_idempotent(*self, id.0 as int);
        }
        id
    }
    /// Adds a numeric constant value and returns its identifier.
    pub fn numeric_constant(&mut self, constant: u128, typ: Type) -> (r: ValueId)
        requires
            old(self).wf(),
            old(self).values@.len() < u32::MAX,
        ensures
            final(self).wf(),
            r.0 as int == old(self).values@.len(),
            final(self).values@ == old(self).values@.push(Value::NumericConstant { constant, typ }),
            final(self).redirects@ == old(self).redirects@.push(r.0),
            final(self).instructions == old(self).instructions,
            final(self).results == old(self).results,
            final(self).blocks == old(self).blocks,
            spec_resolve_id(*final(self), r.0 as int) == r.0 as int,
    {
        self.push_value(Value::NumericConstant { constant, typ })
    }

    /// Adds a reference to another function of the program.
    pub fn function_value(&mut self, id: crate::value::FunctionId) -> (r: ValueId)
        requires
            old(self).wf(),
            old(self).values@.len() < u32::MAX,
        ensures
            final(self).wf(),
            r.0 as int == old(self).values@.len(),
            final(self).values@ == old(self).values@.push(
                Value::Function { id, typ: Type::Function },
            ),
            final(self).redirects@ == old(self).redirects@.push(r.0),
            spec_resolve_id(*final(self), r.0 as int) == r.0 as int,
            final(self).instructions == old(self).instructions,
            final(self).results == old(self).results,
            final(self).blocks == old(self).blocks,
    {
        self.push_value(Value::Function { id, typ: Type::Function })
    }

    /// Adds a reference to a builtin operation.
    pub fn intrinsic_value(&mut self, name: String) -> (r: ValueId)
        requires
            old(self).wf(),
            old(self).values@.len() < u32::MAX,
        ensures
            final(self).wf(),
            r.0 as int == old(self).values@.len(),
            final(self).values@ == old(self).values@.push(
                Value::Intrinsic { name, typ: Type::Function },
            ),
            final(self).redirects@ == old(self).redirects@.push(r.0),
            spec_resolve_id(*final(self), r.0 as int) == r.0 as int,
            final(self).instructions == old(self).instructions,
            final(self).results == old(self).results,
            final(self).blocks == old(self).blocks,
    {
        self.push_value(Value::Intrinsic { name, typ: Type::Function })
    }

    /// Adds a reference to an externally linked function.
    pub fn foreign_function_value(&mut self, name: String) -> (r: ValueId)
        requires
            old(self).wf(),
            old(self).values@.len() < u32::MAX,
        ensures
            final(self).wf(),
            r.0 as int == old(self).values@.len(),
            final(self).values@ == old(self).values@.push(
                Value::ForeignFunction { name, typ: Type::Function },
            ),
            final(self).redirects@ == old(self).redirects@.push(r.0),
            spec_resolve_id(*final(self), r.0 as int) == r.0 as int,
            final(self).instructions == old(self).instructions,
            final(self).results == old(self).results,
            final(self).blocks == old(self).blocks,
    {
        self.push_value(Value::ForeignFunction { name, typ: Type::Function })
    }

    /// Adds an array value over existing elements and returns its
    /// identifier. The type must carry the element lanes.
    pub fn make_array(&mut self, array: Vec<ValueId>, typ: Type) -> (r: ValueId)
        requires
            old(self).wf(),
            old(self).values@.len() < u32::MAX,
            typ is Array,
            forall|j: int|
                0 <= j < array@.len() ==> (array@[j].0 as int) < old(self).values@.len(),
        ensures
            final(self).wf(),
            r.0 as int == old(self).values@.len(),
            final(self).values@ == old(self).values@.push(Value::Array { array: array, typ }),
            final(self).redirects@ == old(self).redirects@.push(r.0),
            spec_resolve_id(*final(self), r.0 as int) == r.0 as int,
            final(self).instructions == old(self).instructions,
            final(self).results == old(self).results,
            final(self).blocks == old(self).blocks,
    {
        self.push_value(Value::Array { array, typ })
    }

    /// Ends a block with the given terminator. The destinations must be
    /// existing blocks.
    pub fn set_terminator(&mut self, block: BasicBlockId, terminator: TerminatorInstruction)
        requires
            old(self).wf(),
            (block.0 as int) < old(self).blocks@.len(),
            forall|k: int|
                0 <= k < terminator.spec_successors().len() ==> (
                terminator.spec_successors()[k] as int) < old(self).blocks@.len(),
        ensures
            final(self).wf(),
            final(self).values == old(self).values,
            final(self).redirects == old(self).redirects,
            final(self).instructions == old(self).instructions,
            final(self).results == old(self).results,
            final(self).blocks@.len() == old(self).blocks@.len(),
            forall|b: int|
                0 <= b < old(self).blocks@.len() && b != block.0 as int ==> final(self).blocks@[b]
                    == old(self).blocks@[b],
            final(self).blocks@[block.0 as int].parameters == old(
                self,
            ).blocks@[block.0 as int].parameters,
            final(self).blocks@[block.0 as int].instructions == old(
                self,
            ).blocks@[block.0 as int].instructions,
            final(self).blocks@[block.0 as int].terminator == Some(terminator),
    {
        let bi = block.0 as usize;
        self.blocks[bi].terminator = Some(terminator);
        proof {
            let new = *self;
            let oldd = *old(self);
            assert forall|b: int| 0 <= b < new.blocks@.len() implies block_ok(
                new,
                new.blocks@[b],
            ) by {
                assert(block_ok(oldd, oldd.blocks@[b]));
            }
            assert forall|i: int, j: int|
                0 <= i < new.results@.len() && 0 <= j < new.results@[i]@.len() implies result_ok(
                new,
                i,
                j,
            ) by {
                assert(result_ok(oldd, i, j));
            }
        }
    }

    /// Inserts an instruction at the end of a block, allocating one fresh
    /// result value per given result type. Returns the instruction's
    /// identifier.
    #[verifier::loop_isolation(false)]
    pub fn insert_instruction(
        &mut self,
        block: BasicBlockId,
        instruction: Instruction,
        result_types: Vec<Type>,
    ) -> (r: InstructionId)
        requires
            old(self).wf(),
            (block.0 as int) < old(self).blocks@.len(),
            old(self).instructions@.len() < u32::MAX,
            old(self).values@.len() + result_types@.len() < u32::MAX,
            match instruction.result_arity() {
                Some(k) => result_types@.len() == k,
                None => true,
            },
        ensures
            final(self).wf(),
            r.0 as int == old(self).instructions@.len(),
            final(self).instructions@ == old(self).instructions@.push(instruction),
            final(self).results@.len() == old(self).results@.len() + 1,
            forall|i: int|
                0 <= i < old(self).results@.len() ==> final(self).results@[i] == old(
                    self,
                ).results@[i],
            final(self).results@[r.0 as int]@.len() == result_types@.len(),
            forall|j: int|
                0 <= j < result_types@.len() ==> (#[trigger] final(self).results@[r.0 as int]@[j]).0
                    as int == old(self).values@.len() + j,
            final(self).values@.len() == old(self).values@.len() + result_types@.len(),
            forall|i: int|
                0 <= i < old(self).values@.len() ==> final(self).values@[i] == old(
                    self,
                ).values@[i],
            forall|j: int|
                0 <= j < result_types@.len() ==> (#[trigger] final(self).values@[old(
                    self,
                ).values@.len() + j]).spec_typ() == result_types@[j],
            final(self).blocks@.len() == old(self).blocks@.len(),
            forall|b: int|
                0 <= b < old(self).blocks@.len() && b != block.0 as int ==> final(self).blocks@[b]
                    == old(self).blocks@[b],
            final(self).blocks@[block.0 as int].parameters == old(
                self,
            ).blocks@[block.0 as int].parameters,
            final(self).blocks@[block.0 as int].terminator == old(
                self,
            ).blocks@[block.0 as int].terminator,
            final(self).blocks@[block.0 as int].instructions@ == old(
                self,
            ).blocks@[block.0 as int].instructions@.push(r),
            forall|id: int|
                0 <= id < old(self).redirects@.len() ==> final(self).redirects@[id] == old(
                    self,
                ).redirects@[id],
            final(self).redirects@.len() == final(self).values@.len(),
            forall|j: int|
                0 <= j < result_types@.len() ==> (#[trigger] final(self).redirects@[old(
                    self,
                ).values@.len() + j]) as int == old(self).values@.len() + j,
            forall|j: int|
                0 <= j < result_types@.len() ==> #[trigger] spec_resolve_id(
                    *final(self),
                    old(self).values@.len() + j,
                ) == old(self).values@.len() + j,
    {
        let n_ins: u32 = self.instructions.len() as u32;
        let ins_id = InstructionId(n_ins);
        self.instructions.push(instruction);
        let ghost old_values_len: int = self.values@.len() as int;
        let ghost all_types: Seq<Type> = result_types@;
        let mut rt = result_types;
        let mut res: Vec<ValueId> = Vec::new();
        let mut j: usize = 0;
        while rt.len() > 0
            invariant
                j as int + rt@.len() == all_types.len(),
                rt@ == all_types.subrange(j as int, all_types.len() as int),
                res@.len() == j as int,
                forall|k: int| 0 <= k < j as int ==> (#[trigger] res@[k]).0 as int == old_values_len + k,
                self.values@.len() == old_values_len + j,
                self.redirects@.len() == self.values@.len(),
                forall|i: int| 0 <= i < old_values_len ==> self.values@[i] == old(self).values@[i],
                forall|i: int|
                    0 <= i < old_values_len ==> self.redirects@[i] == old(self).redirects@[i],
                forall|k: int|
                    0 <= k < j as int ==> #[trigger] self.values@[old_values_len + k]
                        == (Value::Instruction {
                        instruction: ins_id,
                        position: k as usize,
                        typ: all_types[k],
                    }),
                forall|k: int|
                    0 <= k < j as int ==> (#[trigger] self.redirects@[old_values_len + k]) as int
                        == old_values_len + k,
                self.instructions@ == old(self).instructions@.push(instruction),
                self.results == old(self).results,
                self.blocks == old(self).blocks,
            decreases rt@.len(),
        {
            let t = rt.remove(0);
            let vid = ValueId(self.values.len() as u32);
            self.values.push(Value::Instruction { instruction: ins_id, position: j, typ: t });
            self.redirects.push(vid.0);
            res.push(vid);
            j = j + 1;
        }
        self.results.push(res);
        let bi = block.0 as usize;
        self.blocks[bi].instructions.push(ins_id);
        proof {
            let new = *self;
            let oldd = *old(self);
            assert forall|i: int| 0 <= i < new.redirects@.len() implies (new.redirects@[i] as int)
                <= i by {
                if i >= old_values_len {
                    let k = i - old_values_len;
                    assert((new.redirects@[old_values_len + k] as int) == old_values_len + k);
                }
            }
            assert forall|i: int| 0 <= i < new.values@.len() implies value_ok(
                #[trigger] new.values@[i],
                i,
            ) by {
                if i < old_values_len {
                    assert(value_ok(oldd.values@[i], i));
                } else {
                    let k = i - old_values_len;
                    assert(new.values@[old_values_len + k] == (Value::Instruction {
                        instruction: ins_id,
                        position: k as usize,
                        typ: all_types[k],
                    }));
                }
            }
            assert forall|i: int, j2: int|
                0 <= i < new.results@.len() && 0 <= j2 < new.results@[i]@.len() implies result_ok(
                new,
                i,
                j2,
            ) by {
                if i < oldd.results@.len() {
                    assert(result_ok(oldd, i, j2));
                }
            }
            assert forall|b: int| 0 <= b < new.blocks@.len() implies block_ok(
                new,
                new.blocks@[b],
            ) by {
                assert(block_ok(oldd, oldd.blocks@[b]));
                if b == block.0 as int {
                    assert(new.blocks@[b].spec_successors() == oldd.blocks@[b].spec_successors());
                }
            }
            assert forall|j2: int| 0 <= j2 < all_types.len() implies #[trigger] spec_resolve_id(
                new,
                old_values_len + j2,
            ) == old_values_len + j2 by {
                assert((new.redirects@[old_values_len + j2] as int) == old_values_len + j2);
            }
        }
        ins_id
    }
    /// Records that `old_value` (which must currently be canonical, and
    /// must not precede the canonical identity of `new_value`) is an alias
    /// of `new_value`. Stale handles captured earlier remain valid: they
    /// now resolve to the new identity.
    pub fn replace_value(&mut self, old_value: ValueId, new_value: ValueId)
        requires
            old(self).wf(),
            (old_value.0 as int) < old(self).values@.len(),
            spec_resolve_id(*old(self), old_value.0 as int) == old_value.0 as int,
            spec_resolve_id(*old(self), new_value.0 as int) <= old_value.0 as int,
        ensures
            final(self).wf(),
            final(self).values == old(self).values,
            final(self).instructions == old(self).instructions,
            final(self).results == old(self).results,
            final(self).blocks == old(self).blocks,
            final(self).redirects@.len() == old(self).redirects@.len(),
            forall|id: int|
                #[trigger] spec_resolve_id(*final(self), id) == (if spec_resolve_id(
                    *old(self),
                    id,
                ) == old_value.0 as int {
                    spec_resolve_id(*old(self), new_value.0 as int)
                } else {
                    spec_resolve_id(*old(self), id)
                }),
    {
        let c = self.resolve(new_value);
        let i = old_value.0 as usize;
        let target = &mut self.redirects[i];
        *target = c.0;
        proof {
            let new = *self;
            let oldd = *old(self);
            lemma_resolve_le(oldd, new_value.0 as int);
            assert forall|id: int| 0 <= id < new.redirects@.len() implies (new.redirects@[id] as int)
                <= id by {}
            assert forall|i2: int, j: int|
                0 <= i2 < new.results@.len() && 0 <= j < new.results@[i2]@.len() implies result_ok(
                new,
                i2,
                j,
            ) by {
                assert(result_ok(oldd, i2, j));
            }
            assert forall|b: int| 0 <= b < new.blocks@.len() implies block_ok(
                new,
                new.blocks@[b],
            ) by {
                assert(block_ok(oldd, oldd.blocks@[b]));
            }
            assert forall|id: int| #[trigger] spec_resolve_id(new, id) == (if spec_resolve_id(
                oldd,
                id,
            ) == old_value.0 as int {
                spec_resolve_id(oldd, new_value.0 as int)
            } else {
                spec_resolve_id(oldd, id)
            }) by {
                lemma_resolve_after_redirect(oldd, new, old_value.0 as int, c.0, id);
            }
        }
    }
}

/// How resolution is rerouted when the canonical value `t` is redirected
/// to the canonical value `c`: chains that ended at `t` now end at `c`,
/// and every other chain is unchanged.
proof fn lemma_resolve_after_redirect(
    oldd: DataFlowGraph,
    new: DataFlowGraph,
    t: int,
    c: u32,
    id: int,
)
    requires
        forall|i: int|
            0 <= i < oldd.redirects@.len() ==> (#[trigger] oldd.redirects@[i] as int) <= i,
        0 <= t < oldd.redirects@.len(),
        c as int <= t,
        spec_resolve_id(oldd, t) == t,
        spec_resolve_id(oldd, c as int) == c as int,
        new.redirects@ == oldd.redirects@.update(t, c),
    ensures
        spec_resolve_id(new, id) == (if spec_resolve_id(oldd, id) == t {
            c as int
        } else {
            spec_resolve_id(oldd, id)
        }),
    decreases id,
{
    let ci = c as int;
    if id == t {
        if ci < t {
            if 0 <= ci < oldd.redirects@.len() && (oldd.redirects@[ci] as int) < ci {
                lemma_resolve_le(oldd, oldd.redirects@[ci] as int);
                assert(false);
            }
            assert(new.redirects@[ci] == oldd.redirects@[ci]);
            assert(spec_resolve_id(new, ci) == ci);
            assert(spec_resolve_id(new, t) == spec_resolve_id(new, ci));
        }
    } else if 0 <= id < oldd.redirects@.len() && (oldd.redirects@[id] as int) < id {
        lemma_resolve_after_redirect(oldd, new, t, c, oldd.redirects@[id] as int);
    }
}

/// Extending the value table (old redirect entries preserved) preserves
/// the canonical identity of every value that already existed: handles
/// captured before an insertion resolve, and so display, exactly as
/// before.
pub proof fn lemma_resolve_preserved(d1: DataFlowGraph, d2: DataFlowGraph, id: int)
    requires
        d1.redirects@.len() <= d2.redirects@.len(),
        forall|i: int| 0 <= i < d1.redirects@.len() ==> d2.redirects@[i] == d1.redirects@[i],
        forall|i: int| 0 <= i < d1.redirects@.len() ==> (#[trigger] d1.redirects@[i] as int) <= i,
        id < d1.redirects@.len(),
    ensures
        spec_resolve_id(d2, id) == spec_resolve_id(d1, id),
    decreases id,
{
    if 0 <= id && (d1.redirects@[id] as int) < id {
        lemma_resolve_preserved(d1, d2, d1.redirects@[id] as int);
    }
}

/// Resolution never moves upward: the canonical identity of `id` is at
/// most `id`, and non-negative whenever `id` is.
pub proof fn lemma_resolve_le(dfg: DataFlowGraph, id: int)
    ensures
        spec_resolve_id(dfg, id) <= id,
        id >= 0 ==> spec_resolve_id(dfg, id) >= 0,
    decreases id,
{
    if 0 <= id < dfg.redirects@.len() && (dfg.redirects@[id] as int) < id {
        lemma_resolve_le(dfg, dfg.redirects@[id] as int);
    }
}

/// Resolution is idempotent: resolving an already-resolved identity
/// returns it unchanged.
pub proof fn lemma_resolve_idempotent(dfg: DataFlowGraph, id: int)
    ensures
        spec_resolve_id(dfg, spec_resolve_id(dfg, id)) == spec_resolve_id(dfg, id),
    decreases id,
{
    if 0 <= id < dfg.redirects@.len() && (dfg.redirects@[id] as int) < id {
        lemma_resolve_idempotent(dfg, dfg.redirects@[id] as int);
    }
}

/// The defining SSA property: no two instruction slots produce the same
/// result value identifier. Two equal result entries name the same
/// instruction and position.
pub proof fn lemma_single_definition(dfg: DataFlowGraph, i1: int, j1: int, i2: int, j2: int)
    requires
        dfg.wf(),
        0 <= i1 < dfg.results@.len(),
        0 <= j1 < dfg.results@[i1]@.len(),
        0 <= i2 < dfg.results@.len(),
        0 <= j2 < dfg.results@[i2]@.len(),
        dfg.results@[i1]@[j1] == dfg.results@[i2]@[j2],
    ensures
        i1 == i2,
        j1 == j2,
{
    assert(result_ok(dfg, i1, j1));
    assert(result_ok(dfg, i2, j2));
}

} // verus!
