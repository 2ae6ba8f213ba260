//! The program container: owns all functions in ascending-identifier
//! order, allocates fresh function identifiers, tracks the designated
//! main function, and computes the entry-point index in a one-shot
//! finalize step.

use crate::function::Function;
use crate::printer::{display_function, func_text};
use crate::typ::Type;
use crate::value::FunctionId;
use vstd::prelude::*;
use vstd::multiset::Multiset;
use vstd::seq_lib::group_to_multiset_ensures;

verus! {

broadcast use group_to_multiset_ensures;

/// Program-wide allocator of fresh function identifiers. Each call hands
/// out the current value and moves past it, so every identifier returned
/// is strictly greater than every identifier returned before and than
/// every identifier the counter was seeded after.
#[derive(Debug)]
pub struct AtomicCounter {
    /// The identifier the next allocation returns.
    pub next: u32,
}

impl AtomicCounter {
    /// A counter whose first allocation returns `id + 1`.
    pub fn starting_after(id: u32) -> (r: AtomicCounter)
        requires
            id < u32::MAX,
        ensures
            r.next == id + 1,
    {
        AtomicCounter { next: id + 1 }
    }

    /// Hands out the next identifier: the result is the old counter
    /// value, and the counter moves strictly past it.
    pub fn next(&mut self) -> (r: u32)
        requires
            old(self).next < u32::MAX,
        ensures
            r == old(self).next,
            final(self).next == old(self).next + 1,
    {
        let r = self.next;
        self.next = self.next + 1;
        r
    }
}

/// Whether a function is entry-capable within a program whose main
/// function is `main`: the designated main function, or any function
/// whose runtime marks it as a program entry.
pub open spec fn fn_is_entry(f: Function, main: FunctionId) -> bool {
    f.id == main || f.runtime.spec_is_entry_point()
}

/// The dense entry-point index over the functions from position `i` on,
/// with `c` indices already assigned before `i`.
pub open spec fn entry_rec(functions: Seq<Function>, main: FunctionId, i: int, c: int) -> Seq<
    (u32, u32),
>
    decreases functions.len() - i,
{
    if i < 0 || i >= functions.len() {
        Seq::empty()
    } else if fn_is_entry(functions[i], main) {
        seq![(functions[i].id.0, c as u32)] + entry_rec(functions, main, i + 1, c + 1)
    } else {
        entry_rec(functions, main, i + 1, c)
    }
}

/// The entry-point index of a program: each entry-capable function, in
/// ascending identifier order, paired with a dense zero-based index.
pub open spec fn spec_entry_index(functions: Seq<Function>, main: FunctionId) -> Seq<(u32, u32)> {
    entry_rec(functions, main, 0, 0)
}

/// The first value a key maps to in an association list.
pub open spec fn spec_lookup(m: Seq<(u32, u32)>, k: u32) -> Option<u32>
    decreases m.len(),
{
    if m.len() == 0 {
        None
    } else if m[0].0 == k {
        Some(m[0].1)
    } else {
        spec_lookup(m.drop_first(), k)
    }
}

/// A key that no entry of an association list carries looks up to
/// `None`: a function outside the generated index is answered "absent",
/// never with a default index.
pub proof fn lemma_lookup_absent(m: Seq<(u32, u32)>, k: u32)
    requires
        forall|i: int| 0 <= i < m.len() ==> (#[trigger] m[i]).0 != k,
    ensures
        spec_lookup(m, k) is None,
    decreases m.len(),
{
    if m.len() > 0 {
        assert forall|i: int| 0 <= i < m.drop_first().len() implies (#[trigger] m.drop_first()[
        i]).0 != k by {
            assert(m.drop_first()[i] == m[i + 1]);
        }
        lemma_lookup_absent(m.drop_first(), k);
    }
}

/// The entire SSA representation of a program.
#[derive(Debug)]
pub struct Ssa {
    /// All functions, in strictly ascending identifier order.
    pub functions: Vec<Function>,
    /// For each function, the global values it references; populated by
    /// an external pass, not by construction.
    pub used_globals: Vec<(u32, Vec<u32>)>,
    /// The designated entry function of the program.
    pub main_id: FunctionId,
    /// The program-wide identifier allocator.
    pub next_id: AtomicCounter,
    /// The lazily-computed map from entry-capable function identifier to
    /// dense generated index; absent until `generate_entry_point_index`.
    /// Read it through `get_entry_point_index`, which demands it exists.
    pub entry_point_to_generated_index: Option<Vec<(u32, u32)>>,
    /// Maps error selectors to their declared payload shape; carried for
    /// diagnostics, not persisted.
    pub error_selector_to_type: Vec<(u64, Type)>,
}

impl Ssa {
    /// Well-formedness: functions strictly ascending by identifier, each
    /// well-formed, every identifier below the allocator, and the main
    /// function present.
    pub open spec fn wf(self) -> bool {
        &&& forall|i: int, j: int|
            0 <= i < j < self.functions@.len() ==> (#[trigger] self.functions@[i]).id.0 < (
            #[trigger] self.functions@[j]).id.0
        &&& forall|i: int| 0 <= i < self.functions@.len() ==> (#[trigger] self.functions@[i]).wf()
        &&& forall|i: int|
            0 <= i < self.functions@.len() ==> (#[trigger] self.functions@[i]).id.0
                < self.next_id.next
        &&& exists|i: int|
            0 <= i < self.functions@.len() && (#[trigger] self.functions@[i]).id == self.main_id
    }

    /// Whether the entry-point index has been computed.
    pub open spec fn is_finalized(self) -> bool {
        self.entry_point_to_generated_index is Some
    }

    /// The computed entry-point index (empty before finalization).
    pub open spec fn entry_index_view(self) -> Seq<(u32, u32)> {
        match self.entry_point_to_generated_index {
            Some(v) => v@,
            None => Seq::empty(),
        }
    }

    /// Creates a program from the given functions. The first function is
    /// the main function; identifiers must be distinct. The functions are
    /// kept in ascending identifier order, and the identifier allocator
    /// is seeded one past the maximum identifier present.
    pub fn new(functions: Vec<Function>, error_types: Vec<(u64, Type)>) -> (r: Ssa)
        requires
            functions@.len() > 0,
            forall|i: int, j: int|
                0 <= i < functions@.len() && 0 <= j < functions@.len() && i != j ==> (
                #[trigger] functions@[i]).id.0 != (#[trigger] functions@[j]).id.0,
            forall|i: int| 0 <= i < functions@.len() ==> (#[trigger] functions@[i]).wf(),
            forall|i: int| 0 <= i < functions@.len() ==> (#[trigger] functions@[i]).id.0 < u32::MAX,
        ensures
            r.wf(),
            r.main_id == functions@[0].id,
            r.functions@.len() == functions@.len(),
            r.functions@.to_multiset() == functions@.to_multiset(),
            forall|i: int|
                0 <= i < functions@.len() ==> (#[trigger] functions@[i]).id.0 < r.next_id.next,
            exists|i: int|
                0 <= i < functions@.len() && (#[trigger] functions@[i]).id.0 + 1 == r.next_id.next,
            !r.is_finalized(),
            r.used_globals@.len() == 0,
            r.error_selector_to_type == error_types,
    {
        let main_id = functions[0].id;
        let n = functions.len();
        let mut max_id: u32 = functions[0].id.0;
        let mut i: usize = 1;
        while i < n
            invariant
                1 <= i <= n,
                n == functions@.len(),
                exists|k: int| 0 <= k < i as int && (#[trigger] functions@[k]).id.0 == max_id,
                forall|k: int| 0 <= k < i as int ==> (#[trigger] functions@[k]).id.0 <= max_id,
            decreases n - i,
        {
            if functions[i].id.0 > max_id {
                max_id = functions[i].id.0;
            }
            i = i + 1;
        }
        let ghost orig = functions@;
        let mut rest = functions;
        let mut sorted: Vec<Function> = Vec::new();
        while rest.len() > 0
            invariant
                sorted@.to_multiset().add(rest@.to_multiset()) == orig.to_multiset(),
                sorted@.len() + rest@.len() == orig.len(),
                forall|a: int, b: int|
                    0 <= a < b < sorted@.len() ==> (#[trigger] sorted@[a]).id.0 < (
                    #[trigger] sorted@[b]).id.0,
                forall|a: int, b: int|
                    0 <= a < sorted@.len() && 0 <= b < rest@.len() ==> (#[trigger] sorted@[a]).id.0
                        < (#[trigger] rest@[b]).id.0,
                forall|a: int, b: int|
                    0 <= a < rest@.len() && 0 <= b < rest@.len() && a != b ==> (
                    #[trigger] rest@[a]).id.0 != (#[trigger] rest@[b]).id.0,
                forall|a: int| 0 <= a < rest@.len() ==> (#[trigger] rest@[a]).wf(),
                forall|a: int| 0 <= a < sorted@.len() ==> (#[trigger] sorted@[a]).wf(),
                forall|a: int| 0 <= a < rest@.len() ==> (#[trigger] rest@[a]).id.0 <= max_id,
                forall|a: int| 0 <= a < sorted@.len() ==> (#[trigger] sorted@[a]).id.0 <= max_id,
                max_id < u32::MAX,
            decreases rest@.len(),
        {
            let m = rest.len();
            let mut min_i: usize = 0;
            let mut k: usize = 1;
            while k < m
                invariant
                    m == rest@.len(),
                    0 < m,
                    0 <= min_i < m,
                    k <= m,
                    forall|j: int|
                        0 <= j < k as int ==> (#[trigger] rest@[j]).id.0 >= rest@[min_i as int].id.0,
                decreases m - k,
            {
                if rest[k].id.0 < rest[min_i].id.0 {
                    min_i = k;
                }
                k = k + 1;
            }
            let ghost old_rest = rest@;
            let ghost old_sorted = sorted@;
            let f = rest.remove(min_i);
            sorted.push(f);
            proof {
                assert(old_rest.contains(f)) by {
                    assert(old_rest[min_i as int] == f);
                }
                assert(rest@ == old_rest.remove(min_i as int));
                assert(rest@.to_multiset() =~= old_rest.to_multiset().remove(f));
                assert(sorted@.to_multiset() =~= old_sorted.to_multiset().insert(f));
                assert(sorted@.to_multiset().add(rest@.to_multiset()) =~= old_sorted.to_multiset()
                    .add(old_rest.to_multiset()));
                assert forall|a: int, b: int|
                    0 <= a < sorted@.len() && 0 <= b < rest@.len() implies (
                #[trigger] sorted@[a]).id.0 < (#[trigger] rest@[b]).id.0 by {
                    let bb = if b < min_i as int {
                        b
                    } else {
                        b + 1
                    };
                    assert(rest@[b] == old_rest[bb]);
                    if a < old_sorted.len() {
                        assert(old_sorted[a].id.0 < old_rest[bb].id.0);
                    } else {
                        assert(sorted@[a] == f);
                        assert(old_rest[bb].id.0 >= f.id.0);
                        assert(old_rest[bb].id.0 != f.id.0);
                    }
                }
                assert forall|a: int, b: int|
                    0 <= a < rest@.len() && 0 <= b < rest@.len() && a != b implies (
                #[trigger] rest@[a]).id.0 != (#[trigger] rest@[b]).id.0 by {
                    let aa = if a < min_i as int {
                        a
                    } else {
                        a + 1
                    };
                    let bb = if b < min_i as int {
                        b
                    } else {
                        b + 1
                    };
                    assert(rest@[a] == old_rest[aa]);
                    assert(rest@[b] == old_rest[bb]);
                }
                assert forall|a: int| 0 <= a < rest@.len() implies (#[trigger] rest@[a]).wf()
                    && rest@[a].id.0 <= max_id by {
                    let aa = if a < min_i as int {
                        a
                    } else {
                        a + 1
                    };
                    assert(rest@[a] == old_rest[aa]);
                }
            }
        }
        proof {
            assert(rest@.to_multiset() =~= Multiset::<Function>::empty());
            assert(sorted@.to_multiset() =~= orig.to_multiset());
            assert(sorted@.to_multiset().len() == orig.to_multiset().len());
            assert(orig.contains(orig[0]));
            assert(orig.to_multiset().count(orig[0]) > 0);
            assert(sorted@.to_multiset().count(orig[0]) > 0);
            assert(sorted@.contains(orig[0]));
        }
        Ssa {
            functions: sorted,
            used_globals: Vec::new(),
            main_id,
            next_id: AtomicCounter::starting_after(max_id),
            entry_point_to_generated_index: None,
            error_selector_to_type: error_types,
        }
    }

    /// The designated entry-point function of the program.
    pub fn main(&self) -> (r: &Function)
        requires
            self.wf(),
        ensures
            r.id == self.main_id,
            r.wf(),
            exists|i: int| 0 <= i < self.functions@.len() && *r == self.functions@[i],
    {
        let i = self.main_index();
        &self.functions[i]
    }

    /// The position of the main function in the function table.
    fn main_index(&self) -> (r: usize)
        requires
            self.wf(),
        ensures
            r < self.functions@.len(),
            self.functions@[r as int].id == self.main_id,
    {
        let n = self.functions.len();
        let mut i: usize = 0;
        while i < n
            invariant
                i <= n,
                n == self.functions@.len(),
                self.wf(),
                forall|j: int| 0 <= j < i as int ==> (#[trigger] self.functions@[j]).id
                    != self.main_id,
            decreases n - i,
        {
            if self.functions[i].id.0 == self.main_id.0 {
                return i;
            }
            i = i + 1;
        }
        proof {
            assert(false);
        }
        0
    }

    /// Whether `function` is an entry point of the program: the main
    /// function, or one whose runtime marks it as directly callable. The
    /// function must exist in the program.
    pub fn is_entry_point(&self, function: FunctionId) -> (r: bool)
        requires
            self.wf(),
            function == self.main_id || exists|i: int|
                0 <= i < self.functions@.len() && (#[trigger] self.functions@[i]).id == function,
        ensures
            r == (function == self.main_id || exists|i: int|
                0 <= i < self.functions@.len() && (#[trigger] self.functions@[i]).id == function
                    && self.functions@[i].runtime.spec_is_entry_point()),
    {
        if function.0 == self.main_id.0 {
            return true;
        }
        let n = self.functions.len();
        let mut i: usize = 0;
        while i < n
            invariant
                i <= n,
                n == self.functions@.len(),
                self.wf(),
                function != self.main_id,
                forall|j: int| 0 <= j < i as int ==> (#[trigger] self.functions@[j]).id != function,
            decreases n - i,
        {
            if self.functions[i].id.0 == function.0 {
                let r = self.functions[i].runtime.is_entry_point();
                proof {
                    assert forall|j: int|
                        0 <= j < self.functions@.len() && (#[trigger] self.functions@[j]).id
                            == function implies j == i as int by {
                        if j != i as int {
                            assert(self.functions@[j].id.0 != self.functions@[i as int].id.0);
                        }
                    }
                }
                return r;
            }
            i = i + 1;
        }
        false
    }

    /// Adds a new function, built by the given constructor from a freshly
    /// allocated identifier, which is strictly greater than every
    /// identifier already present.
    pub fn add_fn<F: FnOnce(FunctionId) -> Function>(&mut self, build_with_id: F) -> (r: FunctionId)
        requires
            old(self).wf(),
            old(self).next_id.next < u32::MAX,
            forall|id: FunctionId| #[trigger] call_requires(build_with_id, (id,)),
            forall|id: FunctionId, f: Function|
                #[trigger] call_ensures(build_with_id, (id,), f) ==> f.id == id && f.wf(),
        ensures
            final(self).wf(),
            r.0 == old(self).next_id.next,
            final(self).next_id.next == old(self).next_id.next + 1,
            final(self).functions@.len() == old(self).functions@.len() + 1,
            forall|i: int|
                0 <= i < old(self).functions@.len() ==> final(self).functions@[i] == old(
                    self,
                ).functions@[i],
            final(self).functions@.last().id == r,
            call_ensures(build_with_id, (r,), final(self).functions@.last()),
            forall|i: int|
                0 <= i < old(self).functions@.len() ==> (#[trigger] old(
                    self,
                ).functions@[i]).id.0 < r.0,
            final(self).main_id == old(self).main_id,
            final(self).used_globals == old(self).used_globals,
            final(self).entry_point_to_generated_index == old(self).entry_point_to_generated_index,
            final(self).error_selector_to_type == old(self).error_selector_to_type,
    {
        let new_id = FunctionId(self.next_id.next());
        let function = build_with_id(new_id);
        self.functions.push(function);
        proof {
            let wi = choose|i: int|
                0 <= i < old(self).functions@.len() && (#[trigger] old(self).functions@[i]).id
                    == old(self).main_id;
            assert(self.functions@[wi].id == self.main_id);
        }
        new_id
    }

    /// One-shot finalize step: enumerates functions in ascending
    /// identifier order, filters to the entry-capable ones, and assigns
    /// each a dense zero-based index in that order. The result is cached;
    /// nothing else about the program changes, so finalizing the same
    /// program twice assigns the same index.
    pub fn generate_entry_point_index(self) -> (r: Ssa)
        requires
            self.wf(),
        ensures
            r.wf(),
            r.is_finalized(),
            r.entry_index_view() == spec_entry_index(self.functions@, self.main_id),
            r.functions == self.functions,
            r.main_id == self.main_id,
            r.next_id == self.next_id,
            r.used_globals == self.used_globals,
            r.error_selector_to_type == self.error_selector_to_type,
    {
        let n = self.functions.len();
        let mut idx: Vec<(u32, u32)> = Vec::new();
        let mut c: usize = 0;
        let mut i: usize = 0;
        while i < n
            invariant
                i <= n,
                n == self.functions@.len(),
                self.wf(),
                c as int == idx@.len(),
                c <= i,
                idx@ + entry_rec(self.functions@, self.main_id, i as int, c as int)
                    == spec_entry_index(self.functions@, self.main_id),
            decreases n - i,
        {
            let f = &self.functions[i];
            let entry = f.id.0 == self.main_id.0 || f.runtime.is_entry_point();
            proof {
                assert(entry == fn_is_entry(self.functions@[i as int], self.main_id));
            }
            if entry {
                let ghost old_idx = idx@;
                idx.push((f.id.0, c as u32));
                c = c + 1;
                proof {
                    assert(idx@ + entry_rec(self.functions@, self.main_id, i as int + 1, c as int)
                        =~= old_idx + (seq![(f.id.0, (c - 1) as u32)] + entry_rec(
                        self.functions@,
                        self.main_id,
                        i as int + 1,
                        c as int,
                    )));
                }
            }
            i = i + 1;
        }
        let Ssa {
            functions,
            used_globals,
            main_id,
            next_id,
            entry_point_to_generated_index: _,
            error_selector_to_type,
        } = self;
        Ssa {
            functions,
            used_globals,
            main_id,
            next_id,
            entry_point_to_generated_index: Some(idx),
            error_selector_to_type,
        }
    }

    /// Queries the finalized entry-point index. The index must have been
    /// generated first: reading it earlier is a caller-side defect, ruled
    /// out for verified callers and answered with a panic for others.
    /// Returns `None` for a function that is not an entry point.
    pub fn get_entry_point_index(&self, func_id: &FunctionId) -> (r: Option<u32>)
        requires
            self.is_finalized(),
        ensures
            r == spec_lookup(self.entry_index_view(), func_id.0),
    {
        let m = self.entry_point_to_generated_index.as_ref().unwrap();
        let n = m.len();
        proof {
            assert(m@.subrange(0, n as int) =~= m@);
        }
        let mut i: usize = 0;
        while i < n
            invariant
                i <= n,
                n == m@.len(),
                m@ == self.entry_index_view(),
                spec_lookup(m@.subrange(i as int, n as int), func_id.0) == spec_lookup(
                    m@,
                    func_id.0,
                ),
            decreases n - i,
        {
            let pair = m[i];
            proof {
                assert(m@.subrange(i as int, n as int)[0] == m@[i as int]);
                assert(m@.subrange(i as int, n as int).drop_first() =~= m@.subrange(
                    i as int + 1,
                    n as int,
                ));
            }
            if pair.0 == func_id.0 {
                return Some(pair.1);
            }
            i = i + 1;
        }
        proof {
            assert(m@.subrange(n as int, n as int).len() == 0);
        }
        None
    }

    /// Takes the program apart into its persisted form: the functions,
    /// the per-function global-reference map, and the main identifier.
    /// The entry-point index, the error-selector map and the allocator
    /// are not part of it.
    pub fn into_parts(self) -> (r: (Vec<Function>, Vec<(u32, Vec<u32>)>, u32))
        ensures
            r.0 == self.functions,
            r.1 == self.used_globals,
            r.2 == self.main_id.0,
    {
        let Ssa { functions, used_globals, main_id, .. } = self;
        (functions, used_globals, main_id.0)
    }

    /// Rebuilds a program from its persisted form. The entry-point index
    /// is absent again (it must be re-finalized before use), the
    /// error-selector map must be re-supplied, and the identifier
    /// allocator is re-seeded one past the maximum identifier present.
    #[verifier::loop_isolation(false)]
    pub fn from_parts(
        functions: Vec<Function>,
        used_globals: Vec<(u32, Vec<u32>)>,
        main_id: u32,
    ) -> (r: Ssa)
        requires
            functions@.len() > 0,
            forall|i: int, j: int|
                0 <= i < j < functions@.len() ==> (#[trigger] functions@[i]).id.0 < (
                #[trigger] functions@[j]).id.0,
            forall|i: int| 0 <= i < functions@.len() ==> (#[trigger] functions@[i]).wf(),
            forall|i: int| 0 <= i < functions@.len() ==> (#[trigger] functions@[i]).id.0 < u32::MAX,
            exists|i: int|
                0 <= i < functions@.len() && (#[trigger] functions@[i]).id.0 == main_id,
        ensures
            r.wf(),
            r.functions == functions,
            r.used_globals == used_globals,
            r.main_id.0 == main_id,
            !r.is_finalized(),
            r.error_selector_to_type@.len() == 0,
    {
        let n = functions.len();
        let mut max_id: u32 = functions[0].id.0;
        let mut i: usize = 1;
        while i < n
            invariant
                1 <= i <= n,
                n == functions@.len(),
                forall|k: int| 0 <= k < i as int ==> (#[trigger] functions@[k]).id.0 <= max_id,
                max_id < u32::MAX,
                exists|k: int| 0 <= k < i as int && (#[trigger] functions@[k]).id.0 == max_id,
            decreases n - i,
        {
            if functions[i].id.0 > max_id {
                max_id = functions[i].id.0;
            }
            i = i + 1;
        }
        Ssa {
            functions,
            used_globals,
            main_id: FunctionId(main_id),
            next_id: AtomicCounter::starting_after(max_id),
            entry_point_to_generated_index: None,
            error_selector_to_type: Vec::new(),
        }
    }

    /// The canonical text of the whole program: each function's text in
    /// ascending identifier order, one per line group.
    pub open spec fn spec_print(self) -> Seq<char> {
        print_rec(self.functions@, 0, Seq::empty())
    }

    /// Renders the whole program.
    #[verifier::loop_isolation(false)]
    pub fn print(&self) -> (r: String)
        requires
            self.wf(),
        ensures
            r@ == self.spec_print(),
    {
        let mut out = String::new();
        let n = self.functions.len();
        let mut i: usize = 0;
        while i < n
            invariant
                i <= n,
                print_rec(self.functions@, i as int, out@) == self.spec_print(),
            decreases n - i,
        {
            let text = display_function(&self.functions[i]);
            out.append(text.as_str());
            out.append("\n");
            i = i + 1;
        }
        out
    }
}

/// Induction step for `lemma_entry_index_dense`.
#[verifier::rlimit(60)]
proof fn lemma_entry_rec_order(functions: Seq<Function>, main: FunctionId, i: int, c: int)
    requires
        forall|a: int, b: int|
            0 <= a < b < functions.len() ==> (#[trigger] functions[a]).id.0 < (
            #[trigger] functions[b]).id.0,
        0 <= c,
        c + (functions.len() - i) <= 0x1_0000_0000,
    ensures
        ({
            let m = entry_rec(functions, main, i, c);
            &&& i <= functions.len() ==> m.len() <= functions.len() - i
            &&& forall|k: int| 0 <= k < m.len() ==> (#[trigger] m[k]).1 == c + k
            &&& forall|k: int|
                0 <= k < m.len() && 0 <= i < functions.len() ==> functions[i].id.0 <= (
                #[trigger] m[k]).0
            &&& forall|k1: int, k2: int|
                0 <= k1 < k2 < m.len() ==> (#[trigger] m[k1]).0 < (#[trigger] m[k2]).0
        }),
    decreases functions.len() - i,
{
    if i < 0 || i >= functions.len() {
    } else if fn_is_entry(functions[i], main) {
        lemma_entry_rec_order(functions, main, i + 1, c + 1);
        let m = entry_rec(functions, main, i, c);
        let m2 = entry_rec(functions, main, i + 1, c + 1);
        assert(m == seq![(functions[i].id.0, c as u32)] + m2);
        assert forall|k: int| 0 <= k < m.len() implies (#[trigger] m[k]).1 == c + k by {
            if k > 0 {
                assert(m[k] == m2[k - 1]);
            }
        }
        assert forall|k: int|
            0 <= k < m.len() && 0 <= i < functions.len() implies functions[i].id.0 <= (
        #[trigger] m[k]).0 by {
            if k > 0 {
                assert(m[k] == m2[k - 1]);
                if i + 1 < functions.len() {
                    assert(functions[i + 1].id.0 <= m2[k - 1].0);
                    assert(functions[i].id.0 < functions[i + 1].id.0);
                } else {
                    assert(m2.len() == 0);
                }
            }
        }
        assert forall|k1: int, k2: int| 0 <= k1 < k2 < m.len() implies (#[trigger] m[k1]).0 < (
        #[trigger] m[k2]).0 by {
            assert(m[k2] == m2[k2 - 1]);
            if k1 > 0 {
                assert(m[k1] == m2[k1 - 1]);
            } else {
                assert(i + 1 < functions.len());
                assert(functions[i + 1].id.0 <= m2[k2 - 1].0);
                assert(functions[i].id.0 < functions[i + 1].id.0);
            }
        }
    } else {
        lemma_entry_rec_order(functions, main, i + 1, c);
        let m = entry_rec(functions, main, i, c);
        let m2 = entry_rec(functions, main, i + 1, c);
        assert(m == m2);
        assert forall|k: int| 0 <= k < m.len() implies (#[trigger] m[k]).1 == c + k by {
            assert(m[k] == m2[k]);
        }
        assert forall|k: int|
            0 <= k < m.len() && 0 <= i < functions.len() implies functions[i].id.0 <= (
        #[trigger] m[k]).0 by {
            assert(m[k] == m2[k]);
            if i + 1 < functions.len() {
                assert(functions[i + 1].id.0 <= m2[k].0);
                assert(functions[i].id.0 < functions[i + 1].id.0);
            } else {
                assert(m2.len() == 0);
            }
        }
        assert forall|k1: int, k2: int| 0 <= k1 < k2 < m.len() implies (#[trigger] m[k1]).0 < (
        #[trigger] m[k2]).0 by {
            assert(m[k1] == m2[k1]);
            assert(m[k2] == m2[k2]);
        }
    }
}

/// The entry-point index ranges over nothing but the entry-capable
/// functions: every identifier indexed from position `i` on belongs to
/// an entry-capable function at or after `i` (at `i == 0`: the whole
/// table).
#[verifier::rlimit(60)]
pub proof fn lemma_entry_index_sound(functions: Seq<Function>, main: FunctionId, i: int, c: int)
    requires
        0 <= i,
    ensures
        forall|k: int|
            #![trigger entry_rec(functions, main, i, c)[k]]
            0 <= k < entry_rec(functions, main, i, c).len() ==> exists|j: int|
                i <= j < functions.len() && (#[trigger] functions[j]).id.0 == entry_rec(
                    functions,
                    main,
                    i,
                    c,
                )[k].0 && fn_is_entry(functions[j], main),
    decreases functions.len() - i,
{
    if i < 0 || i >= functions.len() {
    } else {
        let m = entry_rec(functions, main, i, c);
        if fn_is_entry(functions[i], main) {
            lemma_entry_index_sound(functions, main, i + 1, c + 1);
            let m2 = entry_rec(functions, main, i + 1, c + 1);
            assert(m == seq![(functions[i].id.0, c as u32)] + m2);
            assert forall|k: int| #![trigger m[k]] 0 <= k < m.len() implies exists|j: int|
                i <= j < functions.len() && (#[trigger] functions[j]).id.0 == m[k].0
                    && fn_is_entry(functions[j], main) by {
                if k == 0 {
                    assert(functions[i].id.0 == m[0].0 && fn_is_entry(functions[i], main));
                } else {
                    assert(m[k] == m2[k - 1]);
                    let j2 = choose|j: int|
                        i + 1 <= j < functions.len() && (#[trigger] functions[j]).id.0 == m2[k
                            - 1].0 && fn_is_entry(functions[j], main);
                    assert(functions[j2].id.0 == m[k].0 && fn_is_entry(functions[j2], main));
                }
            }
        } else {
            lemma_entry_index_sound(functions, main, i + 1, c);
            let m2 = entry_rec(functions, main, i + 1, c);
            assert(m == m2);
            assert forall|k: int| #![trigger m[k]] 0 <= k < m.len() implies exists|j: int|
                i <= j < functions.len() && (#[trigger] functions[j]).id.0 == m[k].0
                    && fn_is_entry(functions[j], main) by {
                assert(m[k] == m2[k]);
                let j2 = choose|j: int|
                    i + 1 <= j < functions.len() && (#[trigger] functions[j]).id.0 == m2[k].0
                        && fn_is_entry(functions[j], main);
                assert(functions[j2].id.0 == m[k].0 && fn_is_entry(functions[j2], main));
            }
        }
    }
}

/// The entry-point index ranges over all the entry-capable functions:
/// every entry-capable function at or after `i` has its identifier
/// indexed (at `i == 0`: the whole table).
#[verifier::rlimit(60)]
pub proof fn lemma_entry_index_complete(functions: Seq<Function>, main: FunctionId, i: int, c: int)
    requires
        0 <= i,
    ensures
        forall|j: int|
            #![trigger functions[j]]
            i <= j < functions.len() && fn_is_entry(functions[j], main) ==> exists|k: int|
                0 <= k < entry_rec(functions, main, i, c).len() && (#[trigger] entry_rec(
                    functions,
                    main,
                    i,
                    c,
                )[k]).0 == functions[j].id.0,
    decreases functions.len() - i,
{
    if i < 0 || i >= functions.len() {
    } else {
        let m = entry_rec(functions, main, i, c);
        if fn_is_entry(functions[i], main) {
            lemma_entry_index_complete(functions, main, i + 1, c + 1);
            let m2 = entry_rec(functions, main, i + 1, c + 1);
            assert(m == seq![(functions[i].id.0, c as u32)] + m2);
            assert forall|j: int|
                #![trigger functions[j]]
                i <= j < functions.len() && fn_is_entry(functions[j], main) implies exists|k: int|
                0 <= k < m.len() && (#[trigger] m[k]).0 == functions[j].id.0 by {
                if j == i {
                    assert(m[0].0 == functions[i].id.0);
                } else {
                    let k2 = choose|k: int|
                        0 <= k < m2.len() && (#[trigger] m2[k]).0 == functions[j].id.0;
                    assert(m[k2 + 1] == m2[k2]);
                    assert(m[k2 + 1].0 == functions[j].id.0);
                }
            }
        } else {
            lemma_entry_index_complete(functions, main, i + 1, c);
            let m2 = entry_rec(functions, main, i + 1, c);
            assert(m == m2);
            assert forall|j: int|
                #![trigger functions[j]]
                i <= j < functions.len() && fn_is_entry(functions[j], main) implies exists|k: int|
                0 <= k < m.len() && (#[trigger] m[k]).0 == functions[j].id.0 by {
                let k2 = choose|k: int|
                    0 <= k < m2.len() && (#[trigger] m2[k]).0 == functions[j].id.0;
                assert(m[k2].0 == functions[j].id.0);
            }
        }
    }
}

/// Every position in a strictly ascending function table is at most its
/// function's identifier.
proof fn lemma_sorted_index_le(functions: Seq<Function>, i: int)
    requires
        forall|a: int, b: int|
            0 <= a < b < functions.len() ==> (#[trigger] functions[a]).id.0 < (
            #[trigger] functions[b]).id.0,
        0 <= i < functions.len(),
    ensures
        i <= functions[i].id.0,
    decreases i,
{
    if i > 0 {
        lemma_sorted_index_le(functions, i - 1);
        assert(functions[i - 1].id.0 < functions[i].id.0);
    }
}

/// Entry-point finalize determinism and density: the generated index is
/// a function of the function table and the main identifier alone, and it
/// assigns the dense indices `0..N-1` in ascending identifier order (that
/// it ranges over exactly the entry-capable functions is how `entry_rec`
/// is defined).
pub proof fn lemma_entry_index_dense(functions: Seq<Function>, main: FunctionId)
    requires
        forall|a: int, b: int|
            0 <= a < b < functions.len() ==> (#[trigger] functions[a]).id.0 < (
            #[trigger] functions[b]).id.0,
    ensures
        ({
            let m = spec_entry_index(functions, main);
            &&& m.len() <= functions.len()
            &&& forall|k: int| 0 <= k < m.len() ==> (#[trigger] m[k]).1 == k
            &&& forall|k1: int, k2: int|
                0 <= k1 < k2 < m.len() ==> (#[trigger] m[k1]).0 < (#[trigger] m[k2]).0
        }),
{
    if functions.len() > 0 {
        lemma_sorted_index_le(functions, functions.len() - 1);
    }
    lemma_entry_rec_order(functions, main, 0, 0);
}

/// The program text from function `i` on, appended to `acc`.
pub open spec fn print_rec(functions: Seq<Function>, i: int, acc: Seq<char>) -> Seq<char>
    decreases functions.len() - i,
{
    if i < 0 || i >= functions.len() {
        acc
    } else {
        print_rec(functions, i + 1, acc + func_text(functions[i]) + "\n"@)
    }
}

} // verus!
