//! The canonical textual rendering of the IR: a deterministic, read-only
//! traversal producing the stable display form, and the extraction of
//! constant-string payloads from encoded error data.

use crate::dfg::{block_ok, spec_resolve_id, value_ok, DataFlowGraph};
use crate::dfg::{lemma_resolve_le, result_ok};
use crate::function::{runtime_str, runtime_text, Function};
use crate::instruction::{
    binop_str, binop_text, ConstrainError, Instruction, TerminatorInstruction,
    STRING_ERROR_SELECTOR,
};
use crate::text::{dec_str, u128_str, u32_str};
use crate::typ::{append_typ_list, typ_list_text, typ_text, type_text, Type};
use crate::value::{BasicBlockId, InstructionId, Value, ValueId};
use vstd::prelude::*;

verus! {

/// Canonical text of a single value: constants and function-like
/// references print directly, arrays print their elements recursively,
/// and everything else prints as its (resolved) identifier.
pub open spec fn val_text(dfg: DataFlowGraph, id: ValueId) -> Seq<char>
    decreases spec_resolve_id(dfg, id.0 as int), 1int, 0int,
{
    let c = spec_resolve_id(dfg, id.0 as int);
    if 0 <= c < dfg.values@.len() {
        match dfg.values@[c] {
            Value::NumericConstant { constant, typ } => typ_text(typ) + " "@ + dec_str(
                constant as int,
            ),
            Value::Function { id: fid, .. } => "f"@ + dec_str(fid.0 as int),
            Value::Intrinsic { name, .. } => name@,
            Value::Array { array, typ } => {
                let lanes: Seq<Type> = if typ is Array {
                    typ->Array_element_types@
                } else {
                    Seq::empty()
                };
                let open_part = elems_text(dfg, array@, 0, c, "["@);
                if lanes.len() == 1 {
                    open_part + "] of "@ + typ_text(lanes[0])
                } else {
                    typ_list_text(lanes, 0, open_part + "] of ("@) + ")"@
                }
            },
            _ => "v"@ + dec_str(c),
        }
    } else {
        "v"@ + dec_str(c)
    }
}

/// Texts of array elements from position `i` on, separated by `", "`,
/// appended to `acc`; `bound` dominates the canonical identities of the
/// remaining elements (an array only references earlier values).
pub open spec fn elems_text(
    dfg: DataFlowGraph,
    ids: Seq<ValueId>,
    i: int,
    bound: int,
    acc: Seq<char>,
) -> Seq<char>
    decreases bound, 0int, ids.len() - i,
        when forall|j: int| i <= j < ids.len() ==> spec_resolve_id(dfg, ids[j].0 as int) < bound
{
    if i < 0 || i >= ids.len() {
        acc
    } else {
        let sep: Seq<char> = if i == 0 {
            Seq::empty()
        } else {
            ", "@
        };
        proof {
            lemma_resolve_le(dfg, ids[i].0 as int);
        }
        elems_text(dfg, ids, i + 1, bound, acc + sep + val_text(dfg, ids[i]))
    }
}

/// Texts of the values of `ids` from position `i` on, separated by
/// `", "`, appended to `acc`.
pub open spec fn value_list_text(
    dfg: DataFlowGraph,
    ids: Seq<ValueId>,
    i: int,
    acc: Seq<char>,
) -> Seq<char>
    decreases ids.len() - i,
{
    if i < 0 || i >= ids.len() {
        acc
    } else {
        let sep: Seq<char> = if i == 0 {
            Seq::empty()
        } else {
            ", "@
        };
        value_list_text(dfg, ids, i + 1, acc + sep + val_text(dfg, ids[i]))
    }
}

/// Texts of the values of `ids`, each followed by `": "` and its type,
/// separated by `", "`, appended to `acc`.
pub open spec fn value_list_with_types_text(
    dfg: DataFlowGraph,
    ids: Seq<ValueId>,
    i: int,
    acc: Seq<char>,
) -> Seq<char>
    decreases ids.len() - i,
{
    if i < 0 || i >= ids.len() {
        acc
    } else {
        let sep: Seq<char> = if i == 0 {
            Seq::empty()
        } else {
            ", "@
        };
        value_list_with_types_text(
            dfg,
            ids,
            i + 1,
            acc + sep + val_text(dfg, ids[i]) + ": "@ + typ_text(dfg.spec_type_of(ids[i])),
        )
    }
}

/// Types of the result values of `ids` from position `i` on, separated by
/// `", "`, appended to `acc`.
pub open spec fn result_typs_list_text(
    dfg: DataFlowGraph,
    ids: Seq<ValueId>,
    i: int,
    acc: Seq<char>,
) -> Seq<char>
    decreases ids.len() - i,
{
    if i < 0 || i >= ids.len() {
        acc
    } else {
        let sep: Seq<char> = if i == 0 {
            Seq::empty()
        } else {
            ", "@
        };
        result_typs_list_text(dfg, ids, i + 1, acc + sep + typ_text(dfg.spec_type_of(ids[i])))
    }
}

/// The result-type annotation of an instruction: nothing for no results,
/// `" -> T"` for one, `" -> (T0, T1, ...)"` for several.
pub open spec fn result_types_text(dfg: DataFlowGraph, ids: Seq<ValueId>, acc: Seq<char>) -> Seq<
    char,
> {
    if ids.len() == 0 {
        acc
    } else if ids.len() == 1 {
        acc + " -> "@ + typ_text(dfg.spec_type_of(ids[0]))
    } else {
        result_typs_list_text(dfg, ids, 0, acc + " -> ("@) + ")"@
    }
}

/// Whether a dynamic error payload decodes as a constant string: the
/// reserved selector, exactly one value, that value an array, and every
/// element a numeric constant.
pub open spec fn spec_extract_ok(dfg: DataFlowGraph, selector: u64, values: Seq<ValueId>) -> bool {
    &&& selector == STRING_ERROR_SELECTOR
    &&& values.len() == 1
    &&& {
        let c = spec_resolve_id(dfg, values[0].0 as int);
        &&& 0 <= c < dfg.values@.len()
        &&& dfg.values@[c] is Array
        &&& forall|j: int|
            0 <= j < dfg.values@[c]->Array_array@.len() ==> dfg.spec_numeric_constant(
                #[trigger] dfg.values@[c]->Array_array@[j],
            ) is Some
    }
}

/// The low byte a numeric constant decodes to: its low 8 bits. This is
/// a lossy, display-only fallback, not a round-trip-safe decode.
pub open spec fn const_byte(c: u128) -> u8 {
    (c % 256) as u8
}

/// The character one array element decodes to.
pub open spec fn elem_char(dfg: DataFlowGraph, id: ValueId) -> char {
    match dfg.spec_numeric_constant(id) {
        Some(c) => const_byte(c) as char,
        None => const_byte(0) as char,
    }
}

/// The string a well-formed encoded payload decodes to, one character per
/// array element, in order.
pub open spec fn decoded_text(dfg: DataFlowGraph, values: Seq<ValueId>) -> Seq<char> {
    let c = spec_resolve_id(dfg, values[0].0 as int);
    let arr = dfg.values@[c]->Array_array@;
    Seq::new(arr.len(), |j: int| elem_char(dfg, arr[j]))
}

/// Text of a constrain error payload, appended to `acc` and ending the
/// line: a static or successfully decoded string in quotes, otherwise the
/// raw value list.
pub open spec fn constrain_error_text(
    dfg: DataFlowGraph,
    error: ConstrainError,
    acc: Seq<char>,
) -> Seq<char> {
    match error {
        ConstrainError::StaticString(s) => acc + " '"@ + debug_str_of(s@) + "'\n"@,
        ConstrainError::Dynamic(selector, values) => {
            if spec_extract_ok(dfg, selector, values@) {
                acc + " '"@ + decoded_text(dfg, values@) + "'\n"@
            } else {
                value_list_text(dfg, values@, 0, acc + ", data "@) + "\n"@
            }
        },
    }
}

/// The display form of one instruction (operands and annotations, ending
/// the line), appended to `acc`.
pub open spec fn inner_text(
    dfg: DataFlowGraph,
    ins: Instruction,
    results: Seq<ValueId>,
    acc: Seq<char>,
) -> Seq<char> {
    match ins {
        Instruction::Binary { operator, lhs, rhs } => acc + binop_text(operator) + " "@ + val_text(
            dfg,
            lhs,
        ) + ", "@ + val_text(dfg, rhs) + "\n"@,
        Instruction::Cast { value, typ } => acc + "cast "@ + val_text(dfg, value) + " as "@
            + typ_text(typ) + "\n"@,
        Instruction::Not { value } => acc + "not "@ + val_text(dfg, value) + "\n"@,
        Instruction::Truncate { value, bit_size, max_bit_size } => acc + "truncate "@ + val_text(
            dfg,
            value,
        ) + " to "@ + dec_str(bit_size as int) + " bits, max_bit_size: "@ + dec_str(
            max_bit_size as int,
        ) + "\n"@,
        Instruction::Constrain { lhs, rhs, error } => {
            let base = acc + "constrain "@ + val_text(dfg, lhs) + " == "@ + val_text(dfg, rhs);
            match error {
                Some(e) => constrain_error_text(dfg, e, base),
                None => base + "\n"@,
            }
        },
        Instruction::Call { func, arguments } => result_types_text(
            dfg,
            results,
            value_list_text(dfg, arguments@, 0, acc + "call "@ + val_text(dfg, func) + "("@)
                + ")"@,
        ) + "\n"@,
        Instruction::Allocate => result_types_text(dfg, results, acc + "allocate"@) + "\n"@,
        Instruction::Load { address } => result_types_text(
            dfg,
            results,
            acc + "load "@ + val_text(dfg, address),
        ) + "\n"@,
        Instruction::Store { address, value } => acc + "store "@ + val_text(dfg, value) + " at "@
            + val_text(dfg, address) + "\n"@,
        Instruction::EnableSideEffectsIf { condition } => acc + "enable_side_effects "@ + val_text(
            dfg,
            condition,
        ) + "\n"@,
        Instruction::ArrayGet { array, index } => result_types_text(
            dfg,
            results,
            acc + "array_get "@ + val_text(dfg, array) + ", index "@ + val_text(dfg, index),
        ) + "\n"@,
        Instruction::ArraySet { array, index, value, mutable } => acc + "array_set"@ + (if mutable {
            " mut"@
        } else {
            Seq::empty()
        }) + " "@ + val_text(dfg, array) + ", index "@ + val_text(dfg, index) + ", value "@
            + val_text(dfg, value) + "\n"@,
        Instruction::IncrementRc { value } => acc + "inc_rc "@ + val_text(dfg, value) + "\n"@,
        Instruction::DecrementRc { value } => acc + "dec_rc "@ + val_text(dfg, value) + "\n"@,
        Instruction::RangeCheck { value, max_bit_size } => acc + "range_check "@ + val_text(
            dfg,
            value,
        ) + " to "@ + dec_str(max_bit_size as int) + " bits\n"@,
        Instruction::IfElse { then_condition, then_value, else_condition, else_value } => acc
            + "if "@ + val_text(dfg, then_condition) + " then "@ + val_text(dfg, then_value)
            + " else if "@ + val_text(dfg, else_condition) + " then "@ + val_text(
            dfg,
            else_value,
        ) + "\n"@,
    }
}

/// The full display line of the instruction in slot `ins_id`: indentation,
/// the result list when there is one, and the instruction itself.
pub open spec fn inst_text(dfg: DataFlowGraph, ins_id: int, acc: Seq<char>) -> Seq<char> {
    let results = dfg.results@[ins_id]@;
    let base = acc + "    "@;
    let base2 = if results.len() > 0 {
        value_list_text(dfg, results, 0, base) + " = "@
    } else {
        base
    };
    inner_text(dfg, dfg.instructions@[ins_id], results, base2)
}

/// The display lines of the instructions of a block from position `i` on,
/// appended to `acc`.
pub open spec fn insts_text(
    dfg: DataFlowGraph,
    ins_ids: Seq<InstructionId>,
    i: int,
    acc: Seq<char>,
) -> Seq<char>
    decreases ins_ids.len() - i,
{
    if i < 0 || i >= ins_ids.len() {
        acc
    } else {
        insts_text(dfg, ins_ids, i + 1, inst_text(dfg, ins_ids[i].0 as int, acc))
    }
}

/// The display line of a terminator, appended to `acc`; an unterminated
/// block shows a placeholder marker.
pub open spec fn terminator_text(
    dfg: DataFlowGraph,
    terminator: Option<TerminatorInstruction>,
    acc: Seq<char>,
) -> Seq<char> {
    match terminator {
        Some(TerminatorInstruction::Jmp { destination, arguments }) => value_list_text(
            dfg,
            arguments@,
            0,
            acc + "    jmp b"@ + dec_str(destination.0 as int) + "("@,
        ) + ")\n"@,
        Some(TerminatorInstruction::JmpIf { condition, then_destination, else_destination }) => acc
            + "    jmpif "@ + val_text(dfg, condition) + " then: b"@ + dec_str(
            then_destination.0 as int,
        ) + ", else: b"@ + dec_str(else_destination.0 as int) + "\n"@,
        Some(TerminatorInstruction::Return { return_values }) => {
            if return_values@.len() == 0 {
                acc + "    return\n"@
            } else {
                value_list_text(dfg, return_values@, 0, acc + "    return "@) + "\n"@
            }
        },
        None => acc + "    (no terminator instruction)\n"@,
    }
}

/// The full text of one block: its header with typed parameters, its
/// instructions in definition order, and its terminator.
pub open spec fn block_text(f: Function, b: u32, acc: Seq<char>) -> Seq<char> {
    let blk = f.dfg.blocks@[b as int];
    terminator_text(
        f.dfg,
        blk.terminator,
        insts_text(
            f.dfg,
            blk.instructions@,
            0,
            value_list_with_types_text(
                f.dfg,
                blk.parameters@,
                0,
                acc + "  b"@ + dec_str(b as int) + "("@,
            ) + "):\n"@,
        ),
    )
}

/// The successors of block `b`, empty when `b` does not exist.
pub open spec fn successors_of(f: Function, b: u32) -> Seq<u32> {
    if (b as int) < f.dfg.blocks@.len() {
        f.dfg.blocks@[b as int].spec_successors()
    } else {
        Seq::empty()
    }
}

/// How many blocks a visited table still leaves unvisited.
pub open spec fn count_unvisited(s: Seq<bool>) -> nat
    decreases s.len(),
{
    if s.len() == 0 {
        0
    } else {
        (if s.last() {
            0nat
        } else {
            1nat
        }) + count_unvisited(s.drop_last())
    }
}

/// The depth-first, cycle-safe walk from block `b`: renders the block,
/// marks it visited, and recurses into its yet-unvisited successors in
/// order. Returns the text (appended to `acc`), the visited table, and
/// the order in which blocks were visited. `fuel` only bounds the
/// recursion depth; one unvisited block buys one unit.
pub open spec fn walk_block(
    f: Function,
    b: u32,
    visited: Seq<bool>,
    fuel: nat,
    acc: Seq<char>,
) -> (Seq<char>, Seq<bool>, Seq<u32>)
    decreases fuel, 0int,
{
    if fuel == 0 {
        (acc, visited, Seq::empty())
    } else {
        let acc1 = block_text(f, b, acc);
        let vis1 = if (b as int) < visited.len() {
            visited.update(b as int, true)
        } else {
            visited
        };
        let walked = walk_succs(f, successors_of(f, b), 0, vis1, (fuel - 1) as nat, acc1);
        (walked.0, walked.1, seq![b] + walked.2)
    }
}

/// The part of the walk that goes through a successor list from position
/// `i` on, skipping blocks already visited.
pub open spec fn walk_succs(
    f: Function,
    succs: Seq<u32>,
    i: int,
    visited: Seq<bool>,
    fuel: nat,
    acc: Seq<char>,
) -> (Seq<char>, Seq<bool>, Seq<u32>)
    decreases fuel, succs.len() - i + 1,
{
    if i < 0 || i >= succs.len() {
        (acc, visited, Seq::empty())
    } else {
        let s = succs[i];
        if (s as int) < visited.len() && !visited[s as int] {
            let walked = walk_block(f, s, visited, fuel, acc);
            let rest = walk_succs(f, succs, i + 1, walked.1, fuel, walked.0);
            (rest.0, rest.1, walked.2 + rest.2)
        } else {
            walk_succs(f, succs, i + 1, visited, fuel, acc)
        }
    }
}

/// A visited table of `n` blocks, none visited yet.
pub open spec fn all_false(n: int) -> Seq<bool> {
    Seq::new(n as nat, |i: int| false)
}

/// The canonical text of a whole function: the header line, then the
/// cycle-safe walk of the block graph from the entry block, then the
/// closing brace.
pub open spec fn func_text(f: Function) -> Seq<char> {
    let acc0 = runtime_text(f.runtime) + " fn "@ + f.name@ + " f"@ + dec_str(f.id.0 as int)
        + " {\n"@;
    let n = f.dfg.blocks@.len() as int;
    walk_block(f, f.entry_block.0, all_false(n), count_unvisited(all_false(n)), acc0).0 + "}"@
}

/// What `Debug` formatting produces for a string: its text wrapped in
/// double quotes, with escape sequences. A function of the characters
/// alone.
pub uninterp spec fn debug_str_of(s: Seq<char>) -> Seq<char>;

/// Relies on the `Debug` formatting of `str` (`{:?}`): deterministic,
/// depending on the characters alone.
#[verifier::external_body]
fn debug_string(s: &str) -> (r: String)
    ensures
        r@ == debug_str_of(s@),
{
    format!("{:?}", s)
}

/// Relies on `String::push`: appends exactly the given character.
#[verifier::external_body]
fn push_char(s: &mut String, c: char)
    ensures
        final(s)@ == old(s)@.push(c),
{
    s.push(c);
}

/// Renders a single value: numeric constants and function references
/// print directly, arrays print recursively, anything else prints as its
/// resolved identifier.
#[verifier::loop_isolation(false)]
pub fn value(function: &Function, id: ValueId) -> (r: String)
    requires
        function.dfg.wf(),
    ensures
        r@ == val_text(function.dfg, id),
    decreases spec_resolve_id(function.dfg, id.0 as int),
{
    let dfg = &function.dfg;
    let c = dfg.resolve(id);
    let ghost cs: int = spec_resolve_id(function.dfg, id.0 as int);
    let ci = c.0 as usize;
    if ci < dfg.values.len() {
        match &dfg.values[ci] {
            Value::NumericConstant { constant, typ } => {
                let mut s = type_text(typ);
                s.append(" ");
                let num = u128_str(*constant);
                s.append(num.as_str());
                s
            },
            Value::Function { id: fid, .. } => {
                let mut s = String::from_str("f");
                let num = u32_str(fid.0);
                s.append(num.as_str());
                s
            },
            Value::Intrinsic { name, .. } => String::from_str(name.as_str()),
            Value::Array { array, typ } => {
                proof {
                    assert(value_ok(function.dfg.values@[cs], cs));
                }
                let mut s = String::from_str("[");
                let n = array.len();
                let mut i: usize = 0;
                while i < n
                    invariant
                        i <= n,
                        elems_text(function.dfg, array@, i as int, cs, s@) == elems_text(
                            function.dfg,
                            array@,
                            0,
                            cs,
                            "["@,
                        ),
                    decreases n - i,
                {
                    if i > 0 {
                        s.append(", ");
                    }
                    proof {
                        assert forall|j: int| i as int <= j < array@.len() implies spec_resolve_id(
                            function.dfg,
                            array@[j].0 as int,
                        ) < cs by {
                            lemma_resolve_le(function.dfg, array@[j].0 as int);
                        }
                        lemma_resolve_le(function.dfg, array@[i as int].0 as int);
                    }
                    let piece = value(function, array[i]);
                    s.append(piece.as_str());
                    i = i + 1;
                }
                proof {
                    assert forall|j: int| 0 <= j < array@.len() implies spec_resolve_id(
                        function.dfg,
                        array@[j].0 as int,
                    ) < cs by {
                        lemma_resolve_le(function.dfg, array@[j].0 as int);
                    }
                    assert(s@ == elems_text(function.dfg, array@, 0, cs, "["@));
                    assert(function.dfg.values@[cs] matches Value::Array { array: sa, typ: st }
                        && sa@ == array@ && st == *typ);
                }
                let ghost open_part = s@;
                match typ {
                    Type::Array { element_types, .. } => {
                        if element_types.len() == 1 {
                            s.append("] of ");
                            let t0 = type_text(&element_types[0]);
                            s.append(t0.as_str());
                            proof {
                                assert(s@ == open_part + "] of "@ + typ_text(element_types@[0]));
                                assert(typ->Array_element_types@ == element_types@);
                                assert(s@ == val_text(function.dfg, id));
                            }
                        } else {
                            s.append("] of (");
                            append_typ_list(element_types, &mut s);
                            s.append(")");
                            proof {
                                assert(s@ == typ_list_text(
                                    element_types@,
                                    0,
                                    open_part + "] of ("@,
                                ) + ")"@);
                                assert(s@ == val_text(function.dfg, id));
                            }
                        }
                    },
                    _ => {
                        s.append("] of (");
                        s.append(")");
                    },
                }
                proof {
                    assert(s@ == val_text(function.dfg, id));
                }
                s
            },
            _ => {
                let mut s = String::from_str("v");
                let num = u32_str(c.0);
                s.append(num.as_str());
                s
            },
        }
    } else {
        let mut s = String::from_str("v");
        let num = u32_str(c.0);
        s.append(num.as_str());
        s
    }
}

/// Renders the values of a list, separated by `", "`, onto the end of
/// `output`.
#[verifier::loop_isolation(false)]
pub fn value_list(function: &Function, values: &Vec<ValueId>, output: &mut String)
    requires
        function.dfg.wf(),
    ensures
        final(output)@ == value_list_text(function.dfg, values@, 0, old(output)@),
{
    let n = values.len();
    let mut i: usize = 0;
    while i < n
        invariant
            i <= n,
            value_list_text(function.dfg, values@, i as int, output@) == value_list_text(
                function.dfg,
                values@,
                0,
                old(output)@,
            ),
        decreases n - i,
    {
        if i > 0 {
            output.append(", ");
        }
        let piece = value(function, values[i]);
        output.append(piece.as_str());
        i = i + 1;
    }
}

/// Renders each value along with its type, e.g. `v0: Field, v1: u64`,
/// onto the end of `output`.
#[verifier::loop_isolation(false)]
pub fn value_list_with_types(function: &Function, values: &Vec<ValueId>, output: &mut String)
    requires
        function.dfg.wf(),
        forall|k: int|
            0 <= k < values@.len() ==> spec_resolve_id(function.dfg, (#[trigger] values@[k]).0 as int)
                < function.dfg.values@.len(),
    ensures
        final(output)@ == value_list_with_types_text(function.dfg, values@, 0, old(output)@),
{
    let n = values.len();
    let mut i: usize = 0;
    while i < n
        invariant
            i <= n,
            value_list_with_types_text(function.dfg, values@, i as int, output@)
                == value_list_with_types_text(function.dfg, values@, 0, old(output)@),
        decreases n - i,
    {
        if i > 0 {
            output.append(", ");
        }
        let piece = value(function, values[i]);
        output.append(piece.as_str());
        output.append(": ");
        let t = function.dfg.type_of_value(values[i]);
        let ts = type_text(t);
        output.append(ts.as_str());
        i = i + 1;
    }
}

/// Renders the result-type annotation of an instruction onto the end of
/// `output`.
#[verifier::loop_isolation(false)]
pub fn result_types(function: &Function, results: &Vec<ValueId>, output: &mut String)
    requires
        function.dfg.wf(),
        forall|k: int|
            0 <= k < results@.len() ==> spec_resolve_id(
                function.dfg,
                (#[trigger] results@[k]).0 as int,
            ) < function.dfg.values@.len(),
    ensures
        final(output)@ == result_types_text(function.dfg, results@, old(output)@),
{
    let n = results.len();
    if n == 0 {
    } else if n == 1 {
        output.append(" -> ");
        let t = function.dfg.type_of_value(results[0]);
        let ts = type_text(t);
        output.append(ts.as_str());
    } else {
        output.append(" -> (");
        let mut i: usize = 0;
        while i < n
            invariant
                i <= n,
                result_typs_list_text(function.dfg, results@, i as int, output@)
                    == result_typs_list_text(function.dfg, results@, 0, old(output)@ + " -> ("@),
            decreases n - i,
        {
            if i > 0 {
                output.append(", ");
            }
            let t = function.dfg.type_of_value(results[i]);
            let ts = type_text(t);
            output.append(ts.as_str());
            i = i + 1;
        }
        output.append(")");
    }
}

/// Tries to extract a constant string from a dynamic error payload.
/// Succeeds exactly when the selector is the reserved string selector,
/// one array value is supplied, and every element is a numeric constant;
/// each element then decodes to its low byte, read as one character.
#[verifier::loop_isolation(false)]
pub fn try_to_extract_string_from_error_payload(
    error_selector: u64,
    values: &Vec<ValueId>,
    dfg: &DataFlowGraph,
) -> (r: Option<String>)
    ensures
        r is Some <==> spec_extract_ok(*dfg, error_selector, values@),
        r matches Some(s) ==> s@ == decoded_text(*dfg, values@),
{
    if error_selector != STRING_ERROR_SELECTOR {
        return None;
    }
    if values.len() != 1 {
        return None;
    }
    let c = dfg.resolve(values[0]);
    let ci = c.0 as usize;
    if ci >= dfg.values.len() {
        return None;
    }
    match &dfg.values[ci] {
        Value::Array { array, .. } => {
            let n = array.len();
            let mut s = String::new();
            let mut j: usize = 0;
            while j < n
                invariant
                    j <= n,
                    s@.len() == j as int,
                    forall|k: int| 0 <= k < j as int ==> s@[k] == elem_char(*dfg, array@[k]),
                    forall|k: int|
                        0 <= k < j as int ==> dfg.spec_numeric_constant(#[trigger] array@[k])
                            is Some,
                decreases n - j,
            {
                match dfg.get_numeric_constant(array[j]) {
                    Some(cst) => {
                        let b: u8 = (cst % 256) as u8;
                        push_char(&mut s, b as char);
                    },
                    None => {
                        return None;
                    },
                }
                j = j + 1;
            }
            proof {
                assert(s@ =~= decoded_text(*dfg, values@));
            }
            Some(s)
        },
        _ => None,
    }
}

/// Renders a constrain error payload onto the end of `output`: a static
/// or successfully decoded string in quotes, otherwise the raw value
/// list.
pub fn display_constrain_error(function: &Function, error: &ConstrainError, output: &mut String)
    requires
        function.dfg.wf(),
    ensures
        final(output)@ == constrain_error_text(function.dfg, *error, old(output)@),
{
    match error {
        ConstrainError::StaticString(msg) => {
            output.append(" '");
            let quoted = debug_string(msg.as_str());
            output.append(quoted.as_str());
            output.append("'\n");
        },
        ConstrainError::Dynamic(selector, vals) => {
            let extracted = try_to_extract_string_from_error_payload(
                *selector,
                vals,
                &function.dfg,
            );
            match extracted {
                Some(s) => {
                    output.append(" '");
                    output.append(s.as_str());
                    output.append("'\n");
                },
                None => {
                    output.append(", data ");
                    value_list(function, vals, output);
                    output.append("\n");
                },
            }
        },
    }
}

/// Renders the operand part of one instruction, ending the line.
pub fn display_instruction_inner(
    function: &Function,
    instruction: &Instruction,
    results: &Vec<ValueId>,
    output: &mut String,
)
    requires
        function.dfg.wf(),
        forall|k: int|
            0 <= k < results@.len() ==> spec_resolve_id(
                function.dfg,
                (#[trigger] results@[k]).0 as int,
            ) < function.dfg.values@.len(),
    ensures
        final(output)@ == inner_text(function.dfg, *instruction, results@, old(output)@),
{
    match instruction {
        Instruction::Binary { operator, lhs, rhs } => {
            output.append(binop_str(*operator));
            output.append(" ");
            let p = value(function, *lhs);
            output.append(p.as_str());
            output.append(", ");
            let p2 = value(function, *rhs);
            output.append(p2.as_str());
            output.append("\n");
        },
        Instruction::Cast { value: v, typ } => {
            output.append("cast ");
            let p = value(function, *v);
            output.append(p.as_str());
            output.append(" as ");
            let ts = type_text(typ);
            output.append(ts.as_str());
            output.append("\n");
        },
        Instruction::Not { value: v } => {
            output.append("not ");
            let p = value(function, *v);
            output.append(p.as_str());
            output.append("\n");
        },
        Instruction::Truncate { value: v, bit_size, max_bit_size } => {
            output.append("truncate ");
            let p = value(function, *v);
            output.append(p.as_str());
            output.append(" to ");
            let num = u32_str(*bit_size);
            output.append(num.as_str());
            output.append(" bits, max_bit_size: ");
            let num2 = u32_str(*max_bit_size);
            output.append(num2.as_str());
            output.append("\n");
        },
        Instruction::Constrain { lhs, rhs, error } => {
            output.append("constrain ");
            let p = value(function, *lhs);
            output.append(p.as_str());
            output.append(" == ");
            let p2 = value(function, *rhs);
            output.append(p2.as_str());
            match error {
                Some(e) => {
                    display_constrain_error(function, e, output);
                },
                None => {
                    output.append("\n");
                },
            }
        },
        Instruction::Call { func, arguments } => {
            output.append("call ");
            let p = value(function, *func);
            output.append(p.as_str());
            output.append("(");
            value_list(function, arguments, output);
            output.append(")");
            result_types(function, results, output);
            output.append("\n");
        },
        Instruction::Allocate => {
            output.append("allocate");
            result_types(function, results, output);
            output.append("\n");
        },
        Instruction::Load { address } => {
            output.append("load ");
            let p = value(function, *address);
            output.append(p.as_str());
            result_types(function, results, output);
            output.append("\n");
        },
        Instruction::Store { address, value: v } => {
            output.append("store ");
            let p = value(function, *v);
            output.append(p.as_str());
            output.append(" at ");
            let p2 = value(function, *address);
            output.append(p2.as_str());
            output.append("\n");
        },
        Instruction::EnableSideEffectsIf { condition } => {
            output.append("enable_side_effects ");
            let p = value(function, *condition);
            output.append(p.as_str());
            output.append("\n");
        },
        Instruction::ArrayGet { array, index } => {
            output.append("array_get ");
            let p = value(function, *array);
            output.append(p.as_str());
            output.append(", index ");
            let p2 = value(function, *index);
            output.append(p2.as_str());
            result_types(function, results, output);
            output.append("\n");
        },
        Instruction::ArraySet { array, index, value: v, mutable } => {
            output.append("array_set");
            if *mutable {
                output.append(" mut");
            }
            output.append(" ");
            let p = value(function, *array);
            output.append(p.as_str());
            output.append(", index ");
            let p2 = value(function, *index);
            output.append(p2.as_str());
            output.append(", value ");
            let p3 = value(function, *v);
            output.append(p3.as_str());
            output.append("\n");
        },
        Instruction::IncrementRc { value: v } => {
            output.append("inc_rc ");
            let p = value(function, *v);
            output.append(p.as_str());
            output.append("\n");
        },
        Instruction::DecrementRc { value: v } => {
            output.append("dec_rc ");
            let p = value(function, *v);
            output.append(p.as_str());
            output.append("\n");
        },
        Instruction::RangeCheck { value: v, max_bit_size } => {
            output.append("range_check ");
            let p = value(function, *v);
            output.append(p.as_str());
            output.append(" to ");
            let num = u32_str(*max_bit_size);
            output.append(num.as_str());
            output.append(" bits\n");
        },
        Instruction::IfElse { then_condition, then_value, else_condition, else_value } => {
            output.append("if ");
            let p = value(function, *then_condition);
            output.append(p.as_str());
            output.append(" then ");
            let p2 = value(function, *then_value);
            output.append(p2.as_str());
            output.append(" else if ");
            let p3 = value(function, *else_condition);
            output.append(p3.as_str());
            output.append(" then ");
            let p4 = value(function, *else_value);
            output.append(p4.as_str());
            output.append("\n");
        },
    }
}

/// Renders one full instruction line: indentation, the result list when
/// there is one, and the instruction itself.
pub fn display_instruction(function: &Function, instruction: InstructionId, output: &mut String)
    requires
        function.dfg.wf(),
        (instruction.0 as int) < function.dfg.instructions@.len(),
    ensures
        final(output)@ == inst_text(function.dfg, instruction.0 as int, old(output)@),
{
    output.append("    ");
    let results = function.dfg.instruction_results(instruction);
    proof {
        assert forall|k: int| 0 <= k < results@.len() implies spec_resolve_id(
            function.dfg,
            (#[trigger] results@[k]).0 as int,
        ) < function.dfg.values@.len() by {
            assert(result_ok(function.dfg, instruction.0 as int, k));
            lemma_resolve_le(function.dfg, results@[k].0 as int);
        }
    }
    if results.len() > 0 {
        value_list(function, results, output);
        output.append(" = ");
    }
    display_instruction_inner(
        function,
        &function.dfg.instructions[instruction.0 as usize],
        results,
        output,
    );
}

/// Renders a terminator line; an unterminated block shows a placeholder
/// marker (never emitted for a complete function).
pub fn display_terminator(
    function: &Function,
    terminator: &Option<TerminatorInstruction>,
    output: &mut String,
)
    requires
        function.dfg.wf(),
    ensures
        final(output)@ == terminator_text(function.dfg, *terminator, old(output)@),
{
    match terminator {
        Some(TerminatorInstruction::Jmp { destination, arguments }) => {
            output.append("    jmp b");
            let num = u32_str(destination.0);
            output.append(num.as_str());
            output.append("(");
            value_list(function, arguments, output);
            output.append(")\n");
        },
        Some(TerminatorInstruction::JmpIf { condition, then_destination, else_destination }) => {
            output.append("    jmpif ");
            let p = value(function, *condition);
            output.append(p.as_str());
            output.append(" then: b");
            let num = u32_str(then_destination.0);
            output.append(num.as_str());
            output.append(", else: b");
            let num2 = u32_str(else_destination.0);
            output.append(num2.as_str());
            output.append("\n");
        },
        Some(TerminatorInstruction::Return { return_values }) => {
            if return_values.len() == 0 {
                output.append("    return\n");
            } else {
                output.append("    return ");
                value_list(function, return_values, output);
                output.append("\n");
            }
        },
        None => {
            output.append("    (no terminator instruction)\n");
        },
    }
}

/// Renders a single block: header with typed parameters, instructions in
/// definition order, then the terminator. Does not follow successors.
#[verifier::loop_isolation(false)]
pub fn display_block(function: &Function, block_id: BasicBlockId, output: &mut String)
    requires
        function.dfg.wf(),
        (block_id.0 as int) < function.dfg.blocks@.len(),
    ensures
        final(output)@ == block_text(*function, block_id.0, old(output)@),
{
    let bi = block_id.0 as usize;
    let block = &function.dfg.blocks[bi];
    proof {
        assert(block_ok(function.dfg, function.dfg.blocks@[bi as int]));
        assert forall|k: int| 0 <= k < block.parameters@.len() implies spec_resolve_id(
            function.dfg,
            (#[trigger] block.parameters@[k]).0 as int,
        ) < function.dfg.values@.len() by {
            lemma_resolve_le(function.dfg, block.parameters@[k].0 as int);
        }
    }
    output.append("  b");
    let num = u32_str(block_id.0);
    output.append(num.as_str());
    output.append("(");
    value_list_with_types(function, &block.parameters, output);
    output.append("):\n");
    let ghost mid = output@;
    let n = block.instructions.len();
    let mut k: usize = 0;
    while k < n
        invariant
            k <= n,
            insts_text(function.dfg, block.instructions@, k as int, output@) == insts_text(
                function.dfg,
                block.instructions@,
                0,
                mid,
            ),
        decreases n - k,
    {
        display_instruction(function, block.instructions[k], output);
        k = k + 1;
    }
    display_terminator(function, &block.terminator, output);
}

/// Setting one unvisited entry visited lowers the unvisited count by
/// exactly one (which is therefore at least one to begin with).
proof fn lemma_count_update(s: Seq<bool>, i: int)
    requires
        0 <= i < s.len(),
        !s[i],
    ensures
        count_unvisited(s) >= 1,
        count_unvisited(s.update(i, true)) == count_unvisited(s) - 1,
    decreases s.len(),
{
    let t = s.update(i, true);
    if i == s.len() - 1 {
        assert(t.drop_last() =~= s.drop_last());
    } else {
        lemma_count_update(s.drop_last(), i);
        assert(t.drop_last() =~= s.drop_last().update(i, true));
    }
}

/// Growing the visited table pointwise cannot increase the unvisited
/// count.
proof fn lemma_count_pointwise(s1: Seq<bool>, s2: Seq<bool>)
    requires
        s1.len() == s2.len(),
        forall|x: int| 0 <= x < s1.len() ==> (s1[x] ==> s2[x]),
    ensures
        count_unvisited(s2) <= count_unvisited(s1),
    decreases s1.len(),
{
    if s1.len() > 0 {
        lemma_count_pointwise(s1.drop_last(), s2.drop_last());
    }
}

/// Termination and single-visit of the cycle-safe walk, at one block:
/// the walk emits each block at most once (its own block first), emits
/// only blocks that were unvisited, and the final visited table holds
/// exactly the blocks visited before plus those emitted.
pub proof fn lemma_walk_block_visits_once(
    f: Function,
    b: u32,
    visited: Seq<bool>,
    fuel: nat,
    acc: Seq<char>,
)
    requires
        (b as int) < visited.len(),
        !visited[b as int],
        fuel >= count_unvisited(visited),
    ensures
        ({
            let w = walk_block(f, b, visited, fuel, acc);
            &&& w.1.len() == visited.len()
            &&& w.2.len() >= 1 && w.2[0] == b
            &&& forall|k: int|
                0 <= k < w.2.len() ==> ((#[trigger] w.2[k]) as int) < visited.len()
                    && !visited[w.2[k] as int]
            &&& forall|k1: int, k2: int|
                0 <= k1 < k2 < w.2.len() ==> (#[trigger] w.2[k1]) != (#[trigger] w.2[k2])
            &&& forall|x: int|
                0 <= x < visited.len() ==> (#[trigger] w.1[x] <==> (visited[x] || exists|k: int|
                    0 <= k < w.2.len() && ((#[trigger] w.2[k]) as int) == x))
        }),
    decreases fuel, 0int,
{
    lemma_count_update(visited, b as int);
    let vis1 = visited.update(b as int, true);
    let acc1 = block_text(f, b, acc);
    lemma_walk_succs_visits_once(f, successors_of(f, b), 0, vis1, (fuel - 1) as nat, acc1);
    let w2 = walk_succs(f, successors_of(f, b), 0, vis1, (fuel - 1) as nat, acc1);
    let w = walk_block(f, b, visited, fuel, acc);
    assert(w.2 == seq![b] + w2.2);
    assert forall|k: int|
        0 <= k < w.2.len() implies ((#[trigger] w.2[k]) as int) < visited.len() && !visited[w.2[k]
        as int] by {
        if k > 0 {
            assert(w.2[k] == w2.2[k - 1]);
            assert(!vis1[w2.2[k - 1] as int]);
        }
    }
    assert forall|k1: int, k2: int| 0 <= k1 < k2 < w.2.len() implies (#[trigger] w.2[k1]) != (
    #[trigger] w.2[k2]) by {
        assert(w.2[k2] == w2.2[k2 - 1]);
        assert(!vis1[w2.2[k2 - 1] as int]);
        if k1 > 0 {
            assert(w.2[k1] == w2.2[k1 - 1]);
        }
    }
    assert forall|x: int|
        0 <= x < visited.len() implies (#[trigger] w.1[x] <==> (visited[x] || exists|k: int|
            0 <= k < w.2.len() && ((#[trigger] w.2[k]) as int) == x)) by {
        if w.1[x] {
            if vis1[x] {
                if x == b as int {
                    assert(((w.2[0]) as int) == x);
                }
            } else {
                let k = choose|k: int| 0 <= k < w2.2.len() && ((#[trigger] w2.2[k]) as int) == x;
                assert(((w.2[k + 1]) as int) == x);
            }
        } else {
            assert(!vis1[x]);
            if exists|k: int| 0 <= k < w.2.len() && ((#[trigger] w.2[k]) as int) == x {
                let k = choose|k: int| 0 <= k < w.2.len() && ((#[trigger] w.2[k]) as int) == x;
                if k == 0 {
                    assert(x == b as int);
                    assert(vis1[x]);
                } else {
                    assert(((w2.2[k - 1]) as int) == x);
                    assert(w2.1[x]);
                }
                assert(false);
            }
        }
    }
}

/// The successor-list part of `lemma_walk_block_visits_once`.
pub proof fn lemma_walk_succs_visits_once(
    f: Function,
    succs: Seq<u32>,
    i: int,
    visited: Seq<bool>,
    fuel: nat,
    acc: Seq<char>,
)
    requires
        fuel >= count_unvisited(visited),
    ensures
        ({
            let w = walk_succs(f, succs, i, visited, fuel, acc);
            &&& w.1.len() == visited.len()
            &&& forall|k: int|
                0 <= k < w.2.len() ==> ((#[trigger] w.2[k]) as int) < visited.len()
                    && !visited[w.2[k] as int]
            &&& forall|k1: int, k2: int|
                0 <= k1 < k2 < w.2.len() ==> (#[trigger] w.2[k1]) != (#[trigger] w.2[k2])
            &&& forall|x: int|
                0 <= x < visited.len() ==> (#[trigger] w.1[x] <==> (visited[x] || exists|k: int|
                    0 <= k < w.2.len() && ((#[trigger] w.2[k]) as int) == x))
        }),
    decreases fuel, succs.len() - i + 1,
{
    if i < 0 || i >= succs.len() {
    } else {
        let s = succs[i];
        if (s as int) < visited.len() && !visited[s as int] {
            lemma_walk_block_visits_once(f, s, visited, fuel, acc);
            let w1 = walk_block(f, s, visited, fuel, acc);
            assert forall|x: int| 0 <= x < visited.len() && visited[x] implies w1.1[x] by {}
            lemma_count_pointwise(visited, w1.1);
            lemma_walk_succs_visits_once(f, succs, i + 1, w1.1, fuel, w1.0);
            let rest = walk_succs(f, succs, i + 1, w1.1, fuel, w1.0);
            let w = walk_succs(f, succs, i, visited, fuel, acc);
            assert(w.2 == w1.2 + rest.2);
            assert(w.1 == rest.1);
            let n1 = w1.2.len() as int;
            assert forall|k: int|
                0 <= k < w.2.len() implies ((#[trigger] w.2[k]) as int) < visited.len()
                    && !visited[w.2[k] as int] by {
                if k < n1 {
                    assert(w.2[k] == w1.2[k]);
                } else {
                    assert(w.2[k] == rest.2[k - n1]);
                    assert(!w1.1[rest.2[k - n1] as int]);
                }
            }
            assert forall|k1: int, k2: int| 0 <= k1 < k2 < w.2.len() implies (#[trigger] w.2[k1])
                != (#[trigger] w.2[k2]) by {
                if k1 < n1 && k2 < n1 {
                    assert(w.2[k1] == w1.2[k1] && w.2[k2] == w1.2[k2]);
                } else if k1 >= n1 && k2 >= n1 {
                    assert(w.2[k1] == rest.2[k1 - n1] && w.2[k2] == rest.2[k2 - n1]);
                } else {
                    assert(w.2[k1] == w1.2[k1]);
                    assert(w.2[k2] == rest.2[k2 - n1]);
                    assert(w1.1[w1.2[k1] as int]);
                    assert(!w1.1[rest.2[k2 - n1] as int]);
                }
            }
            assert forall|x: int|
                0 <= x < visited.len() implies (#[trigger] w.1[x] <==> (visited[x] || exists|
                k: int,
            | 0 <= k < w.2.len() && ((#[trigger] w.2[k]) as int) == x)) by {
                if w.1[x] {
                    if w1.1[x] {
                        if !visited[x] {
                            let k = choose|k: int|
                                0 <= k < w1.2.len() && ((#[trigger] w1.2[k]) as int) == x;
                            assert(((w.2[k]) as int) == x);
                        }
                    } else {
                        let k = choose|k: int|
                            0 <= k < rest.2.len() && ((#[trigger] rest.2[k]) as int) == x;
                        assert(((w.2[k + n1]) as int) == x);
                    }
                } else {
                    assert(!w1.1[x]);
                    assert(!visited[x]);
                    if exists|k: int| 0 <= k < w.2.len() && ((#[trigger] w.2[k]) as int) == x {
                        let k = choose|k: int|
                            0 <= k < w.2.len() && ((#[trigger] w.2[k]) as int) == x;
                        if k < n1 {
                            assert(((w1.2[k]) as int) == x);
                            assert(w1.1[x]);
                        } else {
                            assert(((rest.2[k - n1]) as int) == x);
                            assert(rest.1[x]);
                        }
                        assert(false);
                    }
                }
            }
        } else {
            lemma_walk_succs_visits_once(f, succs, i + 1, visited, fuel, acc);
        }
    }
}

/// The walk leaves no successor of an emitted block unvisited: at one
/// block, every successor of every block the walk emits is in the final
/// visited table.
#[verifier::rlimit(60)]
pub proof fn lemma_walk_block_closed(
    f: Function,
    b: u32,
    visited: Seq<bool>,
    fuel: nat,
    acc: Seq<char>,
)
    requires
        f.dfg.wf(),
        visited.len() == f.dfg.blocks@.len(),
        (b as int) < visited.len(),
        !visited[b as int],
        fuel >= count_unvisited(visited),
    ensures
        ({
            let w = walk_block(f, b, visited, fuel, acc);
            forall|k: int, t: int|
                0 <= k < w.2.len() && 0 <= t < successors_of(f, #[trigger] w.2[k]).len()
                    ==> w.1[#[trigger] successors_of(f, w.2[k])[t] as int]
        }),
    decreases fuel, 0int,
{
    lemma_count_update(visited, b as int);
    let vis1 = visited.update(b as int, true);
    let acc1 = block_text(f, b, acc);
    let succs = successors_of(f, b);
    proof_successors_in_range(f, b);
    lemma_walk_succs_visits_once(f, succs, 0, vis1, (fuel - 1) as nat, acc1);
    lemma_walk_succs_closed(f, succs, 0, vis1, (fuel - 1) as nat, acc1);
    let w2 = walk_succs(f, succs, 0, vis1, (fuel - 1) as nat, acc1);
    let w = walk_block(f, b, visited, fuel, acc);
    assert(w.2 == seq![b] + w2.2);
    assert forall|k: int, t: int|
        0 <= k < w.2.len() && 0 <= t < successors_of(f, #[trigger] w.2[k]).len() implies w.1[
    #[trigger] successors_of(f, w.2[k])[t] as int] by {
        if k == 0 {
            assert(w.2[0] == b);
            assert((successors_of(f, b)[t] as int) < vis1.len());
        } else {
            assert(w.2[k] == w2.2[k - 1]);
        }
    }
}

/// Every successor of a block is itself an existing block.
proof fn proof_successors_in_range(f: Function, b: u32)
    requires
        f.dfg.wf(),
        (b as int) < f.dfg.blocks@.len(),
    ensures
        forall|t: int|
            0 <= t < successors_of(f, b).len() ==> ((#[trigger] successors_of(f, b)[t]) as int)
                < f.dfg.blocks@.len(),
{
    assert(block_ok(f.dfg, f.dfg.blocks@[b as int]));
}

/// The successor-list part of `lemma_walk_block_closed`: every block the
/// list names ends up visited, and so does every successor of every
/// block the list walk emits.
#[verifier::rlimit(60)]
pub proof fn lemma_walk_succs_closed(
    f: Function,
    succs: Seq<u32>,
    i: int,
    visited: Seq<bool>,
    fuel: nat,
    acc: Seq<char>,
)
    requires
        f.dfg.wf(),
        visited.len() == f.dfg.blocks@.len(),
        fuel >= count_unvisited(visited),
        0 <= i,
    ensures
        ({
            let w = walk_succs(f, succs, i, visited, fuel, acc);
            &&& forall|j: int|
                i <= j < succs.len() && ((#[trigger] succs[j]) as int) < visited.len() ==> w.1[
                    succs[j] as int]
            &&& forall|k: int, t: int|
                0 <= k < w.2.len() && 0 <= t < successors_of(f, #[trigger] w.2[k]).len()
                    ==> w.1[#[trigger] successors_of(f, w.2[k])[t] as int]
        }),
    decreases fuel, succs.len() - i + 1,
{
    if i >= succs.len() {
    } else {
        let s = succs[i];
        lemma_walk_succs_visits_once(f, succs, i, visited, fuel, acc);
        let w = walk_succs(f, succs, i, visited, fuel, acc);
        if (s as int) < visited.len() && !visited[s as int] {
            lemma_walk_block_visits_once(f, s, visited, fuel, acc);
            lemma_walk_block_closed(f, s, visited, fuel, acc);
            let w1 = walk_block(f, s, visited, fuel, acc);
            assert forall|x: int| 0 <= x < visited.len() && visited[x] implies w1.1[x] by {}
            lemma_count_pointwise(visited, w1.1);
            lemma_walk_succs_visits_once(f, succs, i + 1, w1.1, fuel, w1.0);
            lemma_walk_succs_closed(f, succs, i + 1, w1.1, fuel, w1.0);
            let rest = walk_succs(f, succs, i + 1, w1.1, fuel, w1.0);
            assert(w.1 == rest.1);
            assert(w.2 == w1.2 + rest.2);
            assert(w1.1[s as int]) by {
                assert(w1.2[0] == s);
            }
            assert forall|x: int| 0 <= x < visited.len() && w1.1[x] implies rest.1[x] by {}
            assert forall|j: int|
                i <= j < succs.len() && ((#[trigger] succs[j]) as int) < visited.len() implies w.1[
                succs[j] as int] by {
                if j == i {
                    assert(rest.1[s as int]);
                }
            }
            let n1 = w1.2.len() as int;
            assert forall|k: int, t: int|
                0 <= k < w.2.len() && 0 <= t < successors_of(f, #[trigger] w.2[k]).len() implies w.1[
            #[trigger] successors_of(f, w.2[k])[t] as int] by {
                if k < n1 {
                    assert(w.2[k] == w1.2[k]);
                    assert(w1.1[successors_of(f, w1.2[k])[t] as int]);
                    assert((successors_of(f, w1.2[k])[t] as int) < visited.len()) by {
                        assert((w1.2[k] as int) < visited.len());
                        proof_successors_in_range(f, w1.2[k]);
                    }
                } else {
                    assert(w.2[k] == rest.2[k - n1]);
                }
            }
        } else {
            lemma_walk_succs_visits_once(f, succs, i + 1, visited, fuel, acc);
            lemma_walk_succs_closed(f, succs, i + 1, visited, fuel, acc);
            let rest = walk_succs(f, succs, i + 1, visited, fuel, acc);
            assert(w == rest);
            assert forall|j: int|
                i <= j < succs.len() && ((#[trigger] succs[j]) as int) < visited.len() implies w.1[
                succs[j] as int] by {
                if j == i {
                    assert(visited[s as int]);
                }
            }
        }
    }
}

/// A path through the block graph: begins at the entry block and steps
/// only along terminator successors.
pub open spec fn is_path(f: Function, p: Seq<u32>) -> bool {
    &&& p.len() >= 1
    &&& p[0] == f.entry_block.0
    &&& forall|k: int|
        0 <= k < p.len() - 1 ==> successors_of(f, #[trigger] p[k]).contains(p[k + 1])
}

/// A block is reachable when some path from the entry block ends at it.
pub open spec fn reachable(f: Function, b: u32) -> bool {
    exists|p: Seq<u32>| is_path(f, p) && p.last() == b
}

/// Path induction: a visited table that holds the entry block and is
/// closed under successors holds every block of every path.
proof fn lemma_path_covered(f: Function, p: Seq<u32>, k: int, w1: Seq<bool>)
    requires
        f.dfg.wf(),
        w1.len() == f.dfg.blocks@.len(),
        is_path(f, p),
        0 <= k < p.len(),
        (f.entry_block.0 as int) < w1.len(),
        w1[f.entry_block.0 as int],
        forall|x: int, t: int|
            0 <= x < w1.len() && w1[x] && 0 <= t < successors_of(f, x as u32).len() ==> ((
            #[trigger] successors_of(f, x as u32)[t]) as int) < w1.len() && w1[successors_of(
                f,
                x as u32,
            )[t] as int],
    ensures
        (p[k] as int) < w1.len(),
        w1[p[k] as int],
    decreases k,
{
    if k == 0 {
    } else {
        lemma_path_covered(f, p, k - 1, w1);
        let x = p[k - 1];
        assert(successors_of(f, x).contains(p[k]));
        let t = choose|t: int| 0 <= t < successors_of(f, x).len() && successors_of(f, x)[t] == p[k];
        assert(w1[successors_of(f, x as u32)[t] as int]);
    }
}

/// Coverage of cyclic traversal: the rendering walk of a whole function
/// emits every reachable block (and, with
/// `lemma_render_visits_each_block_once`, emits it exactly once).
pub proof fn lemma_render_reaches_every_reachable_block(f: Function, acc: Seq<char>)
    requires
        f.wf(),
    ensures
        ({
            let n = f.dfg.blocks@.len() as int;
            let w = walk_block(
                f,
                f.entry_block.0,
                all_false(n),
                count_unvisited(all_false(n)),
                acc,
            );
            forall|b: u32|
                #![trigger reachable(f, b)]
                reachable(f, b) ==> (b as int) < n && exists|k: int|
                    0 <= k < w.2.len() && w.2[k] == b
        }),
{
    let n = f.dfg.blocks@.len() as int;
    let v0 = all_false(n);
    let fuel = count_unvisited(v0);
    lemma_walk_block_visits_once(f, f.entry_block.0, v0, fuel, acc);
    lemma_walk_block_closed(f, f.entry_block.0, v0, fuel, acc);
    let w = walk_block(f, f.entry_block.0, v0, fuel, acc);
    assert(w.1[f.entry_block.0 as int]) by {
        assert(w.2[0] == f.entry_block.0);
    }
    assert forall|x: int, t: int|
        0 <= x < w.1.len() && w.1[x] && 0 <= t < successors_of(f, x as u32).len() implies ((
    #[trigger] successors_of(f, x as u32)[t]) as int) < w.1.len() && w.1[successors_of(
        f,
        x as u32,
    )[t] as int] by {
        let k = choose|k: int| 0 <= k < w.2.len() && ((#[trigger] w.2[k]) as int) == x;
        assert((w.2[k] as int) < n);
        proof_successors_in_range(f, w.2[k]);
        assert(w.1[successors_of(f, w.2[k])[t] as int]);
    }
    assert forall|b: u32| #![trigger reachable(f, b)] reachable(f, b) implies (b as int) < n
        && exists|k: int| 0 <= k < w.2.len() && w.2[k] == b by {
        let p = choose|p: Seq<u32>| is_path(f, p) && p.last() == b;
        lemma_path_covered(f, p, p.len() - 1, w.1);
        assert(w.1[b as int]);
        let k = choose|k: int| 0 <= k < w.2.len() && ((#[trigger] w.2[k]) as int) == b as int;
        assert(w.2[k] == b);
    }
}

/// Termination of cyclic traversal: rendering a whole function is a
/// total walk that emits each block at most once, beginning at the entry
/// block, even when the successor graph has cycles; the blocks it emits
/// are exactly those its visited table ends up holding.
pub proof fn lemma_render_visits_each_block_once(f: Function, acc: Seq<char>)
    requires
        f.wf(),
    ensures
        ({
            let n = f.dfg.blocks@.len() as int;
            let w = walk_block(
                f,
                f.entry_block.0,
                all_false(n),
                count_unvisited(all_false(n)),
                acc,
            );
            &&& w.2.len() >= 1 && w.2[0] == f.entry_block.0
            &&& forall|k: int| 0 <= k < w.2.len() ==> ((#[trigger] w.2[k]) as int) < n
            &&& forall|k1: int, k2: int|
                0 <= k1 < k2 < w.2.len() ==> (#[trigger] w.2[k1]) != (#[trigger] w.2[k2])
            &&& forall|x: int|
                0 <= x < n ==> (#[trigger] w.1[x] <==> exists|k: int|
                    0 <= k < w.2.len() && ((#[trigger] w.2[k]) as int) == x)
        }),
{
    let n = f.dfg.blocks@.len() as int;
    lemma_walk_block_visits_once(
        f,
        f.entry_block.0,
        all_false(n),
        count_unvisited(all_false(n)),
        acc,
    );
}

/// Displays a block followed by all of its not-yet-visited successors,
/// depth first. The visited table keeps the traversal from rendering any
/// block twice, and so from diverging on a cyclic block graph.
#[verifier::loop_isolation(false)]
pub fn display_block_with_successors(
    function: &Function,
    block_id: BasicBlockId,
    visited: &mut Vec<bool>,
    output: &mut String,
    fuel: Ghost<nat>,
)
    requires
        function.dfg.wf(),
        (block_id.0 as int) < function.dfg.blocks@.len(),
        old(visited)@.len() == function.dfg.blocks@.len(),
        !old(visited)@[block_id.0 as int],
        fuel@ >= count_unvisited(old(visited)@),
    ensures
        final(output)@ == walk_block(*function, block_id.0, old(visited)@, fuel@, old(output)@).0,
        final(visited)@ == walk_block(*function, block_id.0, old(visited)@, fuel@, old(output)@).1,
        final(visited)@.len() == old(visited)@.len(),
        count_unvisited(final(visited)@) < count_unvisited(old(visited)@),
    decreases fuel@,
{
    proof {
        lemma_count_update(old(visited)@, block_id.0 as int);
    }
    let ghost total = walk_block(*function, block_id.0, old(visited)@, fuel@, old(output)@);
    display_block(function, block_id, output);
    let bi = block_id.0 as usize;
    let slot = &mut visited[bi];
    *slot = true;
    let succs = function.dfg.blocks[bi].successors();
    proof {
        assert(block_ok(function.dfg, function.dfg.blocks@[bi as int]));
        assert(succs@ == successors_of(*function, block_id.0));
    }
    let n = succs.len();
    let mut i: usize = 0;
    while i < n
        invariant
            i <= n,
            visited@.len() == function.dfg.blocks@.len(),
            fuel@ >= 1 + count_unvisited(visited@),
            count_unvisited(visited@) < count_unvisited(old(visited)@),
            walk_succs(*function, succs@, i as int, visited@, (fuel@ - 1) as nat, output@).0
                == total.0,
            walk_succs(*function, succs@, i as int, visited@, (fuel@ - 1) as nat, output@).1
                == total.1,
        decreases n - i,
    {
        let s = succs[i];
        proof {
            assert(successors_of(*function, block_id.0)[i as int] == s);
            assert((s as int) < function.dfg.blocks@.len());
        }
        if !visited[s as usize] {
            display_block_with_successors(
                function,
                BasicBlockId(s),
                visited,
                output,
                Ghost((fuel@ - 1) as nat),
            );
        }
        i = i + 1;
    }
}

/// Renders a whole function: the header line with runtime tag, name and
/// identifier, then every block reachable from the entry block exactly
/// once, then the closing brace.
#[verifier::loop_isolation(false)]
pub fn display_function(function: &Function) -> (r: String)
    requires
        function.wf(),
    ensures
        r@ == func_text(*function),
{
    let mut out = String::from_str(runtime_str(function.runtime));
    out.append(" fn ");
    out.append(function.name.as_str());
    out.append(" f");
    let num = u32_str(function.id.0);
    out.append(num.as_str());
    out.append(" {\n");
    let n = function.dfg.blocks.len();
    let mut visited: Vec<bool> = Vec::new();
    while visited.len() < n
        invariant
            visited@.len() <= n,
            forall|k: int| 0 <= k < visited@.len() ==> !visited@[k],
        decreases n - visited.len(),
    {
        visited.push(false);
    }
    proof {
        assert(visited@ =~= all_false(n as int));
    }
    display_block_with_successors(
        function,
        function.entry_block,
        &mut visited,
        &mut out,
        Ghost(count_unvisited(all_false(n as int))),
    );
    out.append("}");
    out
}

} // verus!
