//! The check that the kernel's stack suffices.
//!
//! From a listing of frame sizes, a disassembly and the annotations it finds functions
//! with frames that are too large, unguarded recursion, and the worst-case depth of the
//! entry points together with a nested exception.

use crate::annotations::{Annotations, Indirect, IndirectAnnotation, Noted};
use crate::call_graph::{
    callees, calls, disassembled, extract_call_graph, is_node, lemma_node_from, node_at, with_call,
    CallGraph, Nodes, Scan,
};
use crate::recursion::{cycles_of, detect_cycles, lemma_found_iff_recursive};
use crate::sorting::{add_sorted, ascending};
use crate::stack_depth::{
    depth_from, frame, instance_of, is_instance, lemma_depth_is_deepest, lookup_stack_size,
    parse_stack_sizes, sizes_of, weight, worst_case_depth,
};
use crate::table::{has_key, lemma_mapped, mapped, put, Entries, Table};
use crate::text::{begins, chars_of, copy_of, ends_with, finishes, has_name, same_text, starts_with};
use crate::walks::{collect_reachable, is_walk, no_recursion, no_recursion_from, reachable};
use vstd::prelude::*;

verus! {

/// The largest frame that one function may have, in bytes.
pub const PER_FUNCTION_CAP: u64 = 1600;

/// The stack that the deepest normal path and the deepest exception may take together.
pub const TOTAL_BUDGET: u64 = 8192;

pub const NORMAL_ENTRY: &'static str = "_start";

pub const SECONDARY_ENTRY: &'static str = "_secondary_start";

pub const SYNC_EXCEPTION_ENTRY: &'static str = "__vec_sync_lower";

pub const IRQ_EXCEPTION_ENTRY: &'static str = "__vec_irq";

/// Why the check cannot be carried out.
pub enum StackFault {
    /// A function noted as assembly is not in the disassembly.
    KnownAssemblyMissing { symbol: String },
    /// Functions call through registers, and nothing is noted of them.
    Unannotated { functions: Vec<String> },
    /// A noted target of a call through a register is not in the disassembly.
    TargetUnresolved { function: String, target: String },
    /// Functions that can be reached have no frame size.
    NoSize { functions: Vec<String> },
    /// An entry point is not in the disassembly.
    EntryMissing { entry: String },
}

/// What the check found.
pub struct StackReport {
    /// The calls that the annotations add to those of the disassembly.
    pub resolved: u128,
    /// The function with the largest frame, and that frame's size.
    pub largest: (String, u64),
    /// The functions whose frame exceeds the cap, the largest first.
    pub over_cap: Vec<(String, u64)>,
    /// The cycles of calls in which no function is allowed to recur.
    pub cycles: Vec<Vec<String>>,
    /// The depth of the primary boot path.
    pub normal: u128,
    /// The depth of the secondary boot path.
    pub secondary: u128,
    /// The depth of a synchronous exception.
    pub sync: u128,
    /// The depth of an interrupt.
    pub irq: u128,
}

// ---------------------------------------------------------------------------
// Functions noted as assembly
// ---------------------------------------------------------------------------

/// Whether a function comes from outside the kernel, so that it may be optimized away.
pub open spec fn is_external(sym: Seq<char>) -> bool {
    ||| starts_with(sym, "core::"@)
    ||| starts_with(sym, "compiler_builtins::"@)
    ||| starts_with(sym, "OUTLINED_FUNCTION"@)
    ||| sym == "memcpy"@
    ||| sym == "memset"@
    ||| sym == "memcmp"@
    ||| sym == "memmove"@
}

/// Whether the graph has an instance of the generic function `sym`.
pub open spec fn has_instance(g: Nodes, sym: Seq<char>) -> bool {
    exists|i: int| 0 <= i < g.len() && is_instance((#[trigger] g[i]).0, sym)
}

/// Whether a noted function need not be looked for, or is there.
pub open spec fn symbol_ok(g: Nodes, sym: Seq<char>) -> bool {
    is_node(g, sym) || ends_with(sym, "*"@) || has_instance(g, sym) || is_external(sym)
}

/// The first noted function, from `i` on, that is not there.
pub open spec fn missing_symbol(g: Nodes, noted: Entries<u64>, i: int) -> Option<Seq<char>>
    decreases noted.len() - i,
{
    if i < 0 || i >= noted.len() {
        None
    } else if !symbol_ok(g, noted[i].0) {
        Some(noted[i].0)
    } else {
        missing_symbol(g, noted, i + 1)
    }
}

fn external(sym: &Vec<char>, name: &str) -> (r: bool)
    requires
        sym@ == name@,
    ensures
        r == is_external(sym@),
{
    begins(sym, "core::") || begins(sym, "compiler_builtins::") || begins(sym, "OUTLINED_FUNCTION")
        || same_text(name, "memcpy") || same_text(name, "memset") || same_text(name, "memcmp")
        || same_text(name, "memmove")
}

fn instance_in(g: &CallGraph, sym: &Vec<char>) -> (r: bool)
    ensures
        r == has_instance(g@, sym@),
{
    let mut i: usize = 0;
    while i < g.nodes.len()
        invariant
            i <= g.nodes@.len(),
            forall|k: int| 0 <= k < i ==> !is_instance((#[trigger] g@[k]).0, sym@),
        decreases g.nodes@.len() - i,
    {
        let name = chars_of(g.nodes[i].name.as_str());
        assert(g@[i as int].0 == name@);
        if instance_of(&name, sym) {
            return true;
        }
        i += 1;
    }
    false
}

fn find_missing_symbol(g: &CallGraph, noted: &Table<u64>) -> (r: Option<String>)
    ensures
        match r {
            Some(s) => missing_symbol(g@, noted@, 0) == Some(s@),
            None => missing_symbol(g@, noted@, 0) is None,
        },
{
    let mut i: usize = 0;
    while i < noted.entries.len()
        invariant
            i <= noted.entries@.len(),
            missing_symbol(g@, noted@, 0) == missing_symbol(g@, noted@, i as int),
        decreases noted.entries@.len() - i,
    {
        let name = noted.entries[i].0.as_str();
        assert(noted@[i as int].0 == name@);
        let sym = chars_of(name);
        if !(g.contains(name) || finishes(&sym, "*") || instance_in(g, &sym) || external(
            &sym,
            name,
        )) {
            return Some(copy_of(name));
        }
        i += 1;
    }
    None
}

/// The sizes with the first `n` noted ones in place.
pub open spec fn merged(sizes: Entries<u64>, noted: Entries<u64>, n: nat) -> Entries<u64>
    decreases n,
{
    if n == 0 {
        sizes
    } else {
        put(merged(sizes, noted, (n - 1) as nat), noted[n - 1].0, noted[n - 1].1)
    }
}

fn merge(sizes: &mut Table<u64>, noted: &Table<u64>)
    ensures
        final(sizes)@ == merged(old(sizes)@, noted@, noted@.len()),
{
    let ghost start = sizes@;
    let mut i: usize = 0;
    while i < noted.entries.len()
        invariant
            i <= noted.entries@.len(),
            sizes@ == merged(start, noted@, i as nat),
        decreases noted.entries@.len() - i,
    {
        assert(noted@[i as int] == (noted.entries@[i as int].0@, noted.entries@[i as int].1));
        let name = copy_of(noted.entries[i].0.as_str());
        sizes.put(name, noted.entries[i].1);
        i += 1;
    }
}

// ---------------------------------------------------------------------------
// Calls through registers
// ---------------------------------------------------------------------------

/// The functions among the first `n` of which nothing is noted.
pub open spec fn unannotated(noted: Entries<Indirect>, fns: Seq<Seq<char>>, n: nat) -> Seq<
    Seq<char>,
>
    decreases n,
{
    if n == 0 {
        Seq::empty()
    } else {
        let head = unannotated(noted, fns, (n - 1) as nat);
        if has_key(noted, fns[n - 1]) {
            head
        } else {
            head.push(fns[n - 1])
        }
    }
}

/// The functions among the first `n` whose name ends in `suffix`.
pub open spec fn with_suffix(g: Nodes, suffix: Seq<char>, n: nat) -> Seq<Seq<char>>
    decreases n,
{
    if n == 0 {
        Seq::empty()
    } else {
        let head = with_suffix(g, suffix, (n - 1) as nat);
        if ends_with(g[n - 1].0, suffix) {
            head.push(g[n - 1].0)
        } else {
            head
        }
    }
}

/// The function that a noted target stands for: the one of that name, or else the only
/// one whose path ends in it.
pub open spec fn resolved(g: Nodes, target: Seq<char>) -> Option<Seq<char>> {
    let candidates = with_suffix(g, "::"@ + target, g.len());
    if is_node(g, target) {
        Some(target)
    } else if candidates.len() == 1 {
        Some(candidates[0])
    } else {
        None
    }
}

/// The first target, from `k` on, that stands for no function.
pub open spec fn unresolved_target(g: Nodes, targets: Seq<Seq<char>>, k: int) -> Option<Seq<char>>
    decreases targets.len() - k,
{
    if k < 0 || k >= targets.len() {
        None
    } else if resolved(g, targets[k]) is None {
        Some(targets[k])
    } else {
        unresolved_target(g, targets, k + 1)
    }
}

/// The first function, from `i` on, with a target that stands for no function; functions
/// that the graph has not are passed over.
pub open spec fn unresolved(g: Nodes, noted: Entries<Indirect>, i: int) -> Option<
    (Seq<char>, Seq<char>),
>
    decreases noted.len() - i,
{
    if i < 0 || i >= noted.len() {
        None
    } else {
        let bad = match noted[i].1 {
            Indirect::FmtInternal => None,
            Indirect::Targets(targets) => unresolved_target(g, targets, 0),
        };
        if is_node(g, noted[i].0) && bad is Some {
            Some((noted[i].0, bad->0))
        } else {
            unresolved(g, noted, i + 1)
        }
    }
}

/// The graph `g`, in which `f` calls what the first `n` targets stand for in `names`.
pub open spec fn with_targets(
    g: Nodes,
    names: Nodes,
    f: Seq<char>,
    targets: Seq<Seq<char>>,
    n: nat,
) -> Nodes
    decreases n,
{
    if n == 0 {
        g
    } else {
        let g = with_targets(g, names, f, targets, (n - 1) as nat);
        match resolved(names, targets[n - 1]) {
            Some(t) => with_call(g, f, t),
            None => g,
        }
    }
}

/// The graph with the calls that the first `n` annotations note.
pub open spec fn with_indirect(g: Nodes, noted: Entries<Indirect>, n: nat) -> Nodes
    decreases n,
{
    if n == 0 {
        g
    } else {
        let h = with_indirect(g, noted, (n - 1) as nat);
        match noted[n - 1].1 {
            Indirect::FmtInternal => h,
            Indirect::Targets(targets) => if is_node(g, noted[n - 1].0) {
                with_targets(h, g, noted[n - 1].0, targets, targets.len())
            } else {
                h
            },
        }
    }
}

/// What is noted, as plain values.
pub open spec fn indirect_notes(t: Table<IndirectAnnotation>) -> Entries<Indirect> {
    mapped(t@, |a: IndirectAnnotation| a@)
}

fn list_unannotated(noted: &Table<IndirectAnnotation>, fns: &Vec<String>) -> (out: Vec<String>)
    ensures
        out.deep_view() == unannotated(indirect_notes(*noted), fns.deep_view(), fns@.len()),
{
    let mut out: Vec<String> = Vec::new();
    assert(out.deep_view() =~= Seq::<Seq<char>>::empty());
    let mut i: usize = 0;
    while i < fns.len()
        invariant
            i <= fns@.len(),
            out.deep_view() == unannotated(indirect_notes(*noted), fns.deep_view(), i as nat),
        decreases fns@.len() - i,
    {
        let name = fns[i].as_str();
        assert(fns.deep_view()[i as int] == name@);
        proof {
            lemma_mapped(
                noted@,
                |a: IndirectAnnotation| a@,
                name@,
                IndirectAnnotation::FmtInternal,
            );
        }
        if noted.find(name).is_none() {
            let ghost before = out.deep_view();
            out.push(copy_of(name));
            assert(out.deep_view() =~= before.push(name@));
        }
        i += 1;
    }
    out
}

/// The functions whose path ends in a noted target. Where there are several, the target is
/// ambiguous.
pub fn target_candidates(target: &str, g: &CallGraph) -> (found: Vec<String>)
    ensures
        found.deep_view() == with_suffix(g@, "::"@ + target@, g@.len()),
{
    let mut suffix = copy_of("::");
    suffix.append(target);
    let mut found: Vec<String> = Vec::new();
    assert(found.deep_view() =~= Seq::<Seq<char>>::empty());
    let mut i: usize = 0;
    while i < g.nodes.len()
        invariant
            i <= g.nodes@.len(),
            suffix@ == "::"@ + target@,
            found.deep_view() == with_suffix(g@, suffix@, i as nat),
        decreases g.nodes@.len() - i,
    {
        let name = g.nodes[i].name.as_str();
        assert(g@[i as int].0 == name@);
        let chars = chars_of(name);
        if finishes(&chars, suffix.as_str()) {
            let ghost before = found.deep_view();
            found.push(copy_of(name));
            assert(found.deep_view() =~= before.push(name@));
        }
        i += 1;
    }
    found
}

/// The function that a noted target stands for.
pub fn resolve_target_name(target: &str, g: &CallGraph) -> (r: Option<String>)
    ensures
        match r {
            Some(t) => resolved(g@, target@) == Some(t@),
            None => resolved(g@, target@) is None,
        },
{
    if g.contains(target) {
        return Some(copy_of(target));
    }
    let found = target_candidates(target, g);
    if found.len() == 1 {
        assert(found.deep_view()[0] == found@[0]@);
        Some(copy_of(found[0].as_str()))
    } else {
        None
    }
}

fn find_unresolved(g: &CallGraph, noted: &Table<IndirectAnnotation>) -> (r: Option<
    (String, String),
>)
    ensures
        match r {
            Some((f, t)) => unresolved(g@, indirect_notes(*noted), 0) == Some((f@, t@)),
            None => unresolved(g@, indirect_notes(*noted), 0) is None,
        },
{
    let ghost notes = indirect_notes(*noted);
    let mut i: usize = 0;
    while i < noted.entries.len()
        invariant
            notes == indirect_notes(*noted),
            i <= noted.entries@.len(),
            unresolved(g@, notes, 0) == unresolved(g@, notes, i as int),
        decreases noted.entries@.len() - i,
    {
        let name = noted.entries[i].0.as_str();
        assert(notes[i as int] == (name@, noted.entries@[i as int].1@));
        if g.contains(name) {
            match &noted.entries[i].1 {
                IndirectAnnotation::FmtInternal => {},
                IndirectAnnotation::Targets(targets) => {
                    let ghost list = targets.deep_view();
                    let mut k: usize = 0;
                    while k < targets.len()
                        invariant
                            list == targets.deep_view(),
                            notes[i as int] == (name@, Indirect::Targets(list)),
                            is_node(g@, name@),
                            0 <= i < notes.len(),
                            unresolved(g@, notes, 0) == unresolved(g@, notes, i as int),
                            notes == indirect_notes(*noted),
                            k <= targets@.len(),
                            unresolved_target(g@, list, 0) == unresolved_target(
                                g@,
                                list,
                                k as int,
                            ),
                        decreases targets@.len() - k,
                    {
                        assert(list[k as int] == targets@[k as int]@);
                        if resolve_target_name(targets[k].as_str(), g).is_none() {
                            return Some((copy_of(name), copy_of(targets[k].as_str())));
                        }
                        k += 1;
                    }
                },
            }
        }
        i += 1;
    }
    None
}

/// A copy of a call graph.
pub fn copy_graph(g: &CallGraph) -> (out: CallGraph)
    ensures
        out@ == g@,
{
    let mut out = CallGraph { nodes: Vec::new() };
    assert(out@ =~= Seq::<(Seq<char>, Seq<Seq<char>>)>::empty());
    let mut i: usize = 0;
    while i < g.nodes.len()
        invariant
            i <= g.nodes@.len(),
            out@ == g@.take(i as int),
        decreases g.nodes@.len() - i,
    {
        let node = &g.nodes[i];
        let mut list: Vec<String> = Vec::new();
        assert(list.deep_view() =~= Seq::<Seq<char>>::empty());
        let mut k: usize = 0;
        while k < node.callees.len()
            invariant
                k <= node.callees@.len(),
                list.deep_view() == node.callees.deep_view().take(k as int),
            decreases node.callees@.len() - k,
        {
            let ghost before = list.deep_view();
            list.push(copy_of(node.callees[k].as_str()));
            assert(list.deep_view() =~= before.push(node.callees.deep_view()[k as int]));
            k += 1;
        }
        assert(list.deep_view() =~= node.callees.deep_view());
        let ghost before = out@;
        let copy = crate::call_graph::CallNode { name: copy_of(node.name.as_str()), callees: list };
        out.nodes.push(copy);
        assert(out@ =~= before.push(copy@));
        assert(copy@ == g@[i as int]);
        i += 1;
    }
    assert(g@.take(i as int) =~= g@);
    out
}

/// The calls of the first `n` functions.
pub open spec fn calls_of(g: Nodes, n: nat) -> nat
    decreases n,
{
    if n == 0 {
        0
    } else {
        calls_of(g, (n - 1) as nat) + g[n - 1].1.len()
    }
}

/// The calls of a graph.
pub open spec fn call_count(g: Nodes) -> nat {
    calls_of(g, g.len())
}

proof fn lemma_calls_of_update(g: Nodes, i: int, node: (Seq<char>, Seq<Seq<char>>), n: nat)
    requires
        0 <= i < g.len(),
        n <= g.len(),
    ensures
        calls_of(g.update(i, node), n) == calls_of(g, n) + if i < n {
            node.1.len() - g[i].1.len()
        } else {
            0
        },
    decreases n,
{
    if n > 0 {
        lemma_calls_of_update(g, i, node, (n - 1) as nat);
    }
}

proof fn lemma_call_counted(g: Nodes, from: Seq<char>, to: Seq<char>)
    ensures
        call_count(with_call(g, from, to)) == call_count(g) + if is_node(g, from) && !calls(
            g,
            from,
            to,
        ) {
            1int
        } else {
            0
        },
{
    if is_node(g, from) && !calls(g, from, to) {
        lemma_node_from(g, from, 0);
        lemma_calls_of_update(g, node_at(g, from), (from, callees(g, from).push(to)), g.len());
    }
}

fn add_indirect(g: &mut CallGraph, noted: &Table<IndirectAnnotation>) -> (count: u128)
    ensures
        count == call_count(final(g)@) - call_count(old(g)@),
        final(g)@ == with_indirect(
            old(g)@,
            indirect_notes(*noted),
            indirect_notes(*noted).len(),
        ),
{
    let ghost notes = indirect_notes(*noted);
    let names = copy_graph(g);
    let ghost start = g@;
    let mut count: u128 = 0;
    let mut i: usize = 0;
    while i < noted.entries.len()
        invariant
            notes == indirect_notes(*noted),
            names@ == start,
            i <= noted.entries@.len(),
            g@ == with_indirect(start, notes, i as nat),
            count == call_count(g@) - call_count(start),
            count <= i * usize::MAX,
        decreases noted.entries@.len() - i,
    {
        let name = noted.entries[i].0.as_str();
        assert(notes[i as int] == (name@, noted.entries@[i as int].1@));
        match &noted.entries[i].1 {
            IndirectAnnotation::FmtInternal => {},
            IndirectAnnotation::Targets(targets) => {
                if names.contains(name) {
                    let ghost list = targets.deep_view();
                    let ghost h = g@;
                    assert(i * usize::MAX + usize::MAX <= usize::MAX * usize::MAX)
                        by (nonlinear_arith)
                        requires
                            i + 1 <= usize::MAX,
                    ;
                    assert(usize::MAX * usize::MAX <= u128::MAX) by (nonlinear_arith)
                        requires
                            usize::MAX <= 0xffff_ffff_ffff_ffff,
                    ;
                    let mut k: usize = 0;
                    while k < targets.len()
                        invariant
                            list == targets.deep_view(),
                            names@ == start,
                            k <= targets@.len(),
                            g@ == with_targets(h, start, name@, list, k as nat),
                            count == call_count(g@) - call_count(start),
                            count <= i * usize::MAX + k,
                            i * usize::MAX + usize::MAX <= u128::MAX,
                        decreases targets@.len() - k,
                    {
                        assert(list[k as int] == targets@[k as int]@);
                        match resolve_target_name(targets[k].as_str(), &names) {
                            Some(t) => {
                                proof {
                                    lemma_call_counted(g@, name@, t@);
                                }
                                if g.add_call(name, t.as_str()) {
                                    count += 1;
                                }
                            },
                            None => {},
                        }
                        k += 1;
                    }
                }
            },
        }
        assert((i + 1) * usize::MAX == i * usize::MAX + usize::MAX) by (nonlinear_arith);
        i += 1;
    }
    count
}

// ---------------------------------------------------------------------------
// Sizes
// ---------------------------------------------------------------------------

/// The entry points of the kernel.
pub open spec fn entry_names() -> Seq<Seq<char>> {
    seq![NORMAL_ENTRY@, SECONDARY_ENTRY@, SYNC_EXCEPTION_ENTRY@, IRQ_EXCEPTION_ENTRY@]
}

fn entry_points() -> (out: Vec<String>)
    ensures
        out.deep_view() == entry_names(),
{
    let mut out: Vec<String> = Vec::new();
    out.push(copy_of(NORMAL_ENTRY));
    out.push(copy_of(SECONDARY_ENTRY));
    out.push(copy_of(SYNC_EXCEPTION_ENTRY));
    out.push(copy_of(IRQ_EXCEPTION_ENTRY));
    assert(out.deep_view() =~= entry_names());
    out
}

/// Whether a function can be reached from the entry points and has no frame size.
pub open spec fn lacks_size(g: Nodes, sizes: Entries<u64>, x: Seq<char>) -> bool {
    reachable(g, entry_names(), x) && frame(sizes, x) is None
}

fn list_without_size(g: &CallGraph, sizes: &Table<u64>) -> (out: Vec<String>)
    ensures
        ascending(out.deep_view()),
        forall|x: Seq<char>|
            out.deep_view().contains(x) <==> #[trigger] lacks_size(g@, sizes@, x),
{
    let entries = entry_points();
    let names = collect_reachable(&entries, g);
    let ghost all = names.deep_view();
    let mut out: Vec<String> = Vec::new();
    assert(out.deep_view() =~= Seq::<Seq<char>>::empty());
    let mut i: usize = 0;
    while i < names.len()
        invariant
            all == names.deep_view(),
            i <= names@.len(),
            ascending(out.deep_view()),
            forall|x: Seq<char>|
                out.deep_view().contains(x) <==> all.take(i as int).contains(x) && frame(
                    sizes@,
                    x,
                ) is None,
        decreases names@.len() - i,
    {
        let ghost now = all.take(i as int);
        let ghost next = all.take(i + 1);
        proof {
            assert(next =~= now.push(all[i as int]));
            assert(all[i as int] == names@[i as int]@);
            assert forall|x: Seq<char>| next.contains(x) <==> now.contains(x) || x
                == all[i as int] by {
                if now.contains(x) {
                    let j = choose|j: int| 0 <= j < now.len() && now[j] == x;
                    assert(next[j] == x);
                }
                if next.contains(x) {
                    let j = choose|j: int| 0 <= j < next.len() && next[j] == x;
                    if j < now.len() {
                        assert(now[j] == x);
                    }
                }
                if x == all[i as int] {
                    assert(next[i as int] == x);
                }
            }
        }
        if lookup_stack_size(names[i].as_str(), sizes).is_none() {
            add_sorted(&mut out, copy_of(names[i].as_str()));
        }
        i += 1;
    }
    proof {
        assert(all.take(i as int) =~= all);
    }
    out
}

/// The entry with the largest size among the first `n`; the last of several.
pub open spec fn largest(sizes: Entries<u64>, n: nat) -> (Seq<char>, u64)
    decreases n,
{
    if n == 0 {
        (Seq::empty(), 0)
    } else {
        let head = largest(sizes, (n - 1) as nat);
        if sizes[n - 1].1 >= head.1 {
            sizes[n - 1]
        } else {
            head
        }
    }
}

fn find_largest(sizes: &Table<u64>) -> (r: (String, u64))
    ensures
        (r.0@, r.1) == largest(sizes@, sizes@.len()),
{
    let mut name = String::new();
    let mut size: u64 = 0;
    let mut i: usize = 0;
    while i < sizes.entries.len()
        invariant
            i <= sizes.entries@.len(),
            (name@, size) == largest(sizes@, i as nat),
        decreases sizes.entries@.len() - i,
    {
        assert(sizes@[i as int] == (sizes.entries@[i as int].0@, sizes.entries@[i as int].1));
        if sizes.entries[i].1 >= size {
            name = copy_of(sizes.entries[i].0.as_str());
            size = sizes.entries[i].1;
        }
        i += 1;
    }
    (name, size)
}

/// The entries among the first `n` that exceed the cap.
pub open spec fn too_large(sizes: Entries<u64>, n: nat) -> Entries<u64>
    decreases n,
{
    if n == 0 {
        Seq::empty()
    } else {
        let head = too_large(sizes, (n - 1) as nat);
        if sizes[n - 1].1 > PER_FUNCTION_CAP {
            head.push(sizes[n - 1])
        } else {
            head
        }
    }
}

/// Named sizes as plain values.
pub open spec fn entries_view(v: Seq<(String, u64)>) -> Entries<u64> {
    Seq::new(v.len(), |i: int| (v[i].0@, v[i].1))
}

/// Whether no size is followed by a larger one.
pub open spec fn descending(v: Entries<u64>) -> bool {
    forall|i: int, j: int| 0 <= i < j < v.len() ==> (#[trigger] v[i]).1 >= (#[trigger] v[j]).1
}

fn list_too_large(sizes: &Table<u64>) -> (out: Vec<(String, u64)>)
    ensures
        descending(entries_view(out@)),
        entries_view(out@).to_multiset() == too_large(sizes@, sizes@.len()).to_multiset(),
{
    let mut out: Vec<(String, u64)> = Vec::new();
    assert(entries_view(out@) =~= Seq::<(Seq<char>, u64)>::empty());
    let mut i: usize = 0;
    while i < sizes.entries.len()
        invariant
            i <= sizes.entries@.len(),
            descending(entries_view(out@)),
            entries_view(out@).to_multiset() == too_large(sizes@, i as nat).to_multiset(),
        decreases sizes.entries@.len() - i,
    {
        let size = sizes.entries[i].1;
        assert(sizes@[i as int] == (sizes.entries@[i as int].0@, size));
        if size > PER_FUNCTION_CAP {
            let mut p: usize = out.len();
            while p > 0 && out[p - 1].1 < size
                invariant
                    p <= out@.len(),
                    forall|k: int| p <= k < out@.len() ==> (#[trigger] out@[k]).1 < size,
                decreases p,
            {
                p -= 1;
            }
            let ghost before = entries_view(out@);
            let name = copy_of(sizes.entries[i].0.as_str());
            let ghost e = (name@, size);
            proof {
                assert forall|k: int| p <= k < before.len() implies (#[trigger] before[k]).1
                    < size by {
                    assert(out@[k].1 < size);
                }
                if p > 0 {
                    assert(before[p - 1].1 >= size);
                }
            }
            out.insert(p, (name, size));
            proof {
                let now = entries_view(out@);
                assert(now =~= before.insert(p as int, e));
                vstd::seq_lib::to_multiset_insert(before, p as int, e);
                let all = too_large(sizes@, i as nat);
                vstd::seq_lib::to_multiset_insert(all, all.len() as int, e);
                assert(all.insert(all.len() as int, e) =~= all.push(e));
                assert(too_large(sizes@, (i + 1) as nat) == all.push(e));
                assert forall|a: int, b: int| 0 <= a < b < now.len() implies (#[trigger] now[a]).1
                    >= (#[trigger] now[b]).1 by {
                    let x = if a < p {
                        a
                    } else {
                        a - 1
                    };
                    let y = if b < p {
                        b
                    } else {
                        b - 1
                    };
                    if b == p {
                        assert(now[a] == before[a]);
                        if a < p - 1 {
                            assert(before[a].1 >= before[p - 1].1);
                        }
                    } else if a == p {
                        assert(now[b] == before[y]);
                    } else {
                        assert(now[a] == before[x] && now[b] == before[y]);
                    }
                }
            }
        }
        i += 1;
    }
    out
}

// ---------------------------------------------------------------------------
// Cycles
// ---------------------------------------------------------------------------

/// Whether recursion is allowed through a function of the cycle.
pub open spec fn is_guarded(cycle: Seq<Seq<char>>, allowed: Seq<Seq<char>>) -> bool {
    exists|i: int| 0 <= i < cycle.len() && allowed.contains(#[trigger] cycle[i])
}

/// The cycles among the first `n` through which recursion is not allowed.
pub open spec fn unguarded(
    cycles: Seq<Seq<Seq<char>>>,
    allowed: Seq<Seq<char>>,
    n: nat,
) -> Seq<Seq<Seq<char>>>
    decreases n,
{
    if n == 0 {
        Seq::empty()
    } else {
        let head = unguarded(cycles, allowed, (n - 1) as nat);
        if is_guarded(cycles[n - 1], allowed) {
            head
        } else {
            head.push(cycles[n - 1])
        }
    }
}

fn guarded(cycle: &Vec<String>, allowed: &Vec<String>) -> (r: bool)
    ensures
        r == is_guarded(cycle.deep_view(), allowed.deep_view()),
{
    let mut i: usize = 0;
    while i < cycle.len()
        invariant
            i <= cycle@.len(),
            forall|k: int|
                0 <= k < i ==> !allowed.deep_view().contains(#[trigger] cycle.deep_view()[k]),
        decreases cycle@.len() - i,
    {
        if has_name(allowed, cycle[i].as_str()) {
            assert(allowed.deep_view().contains(cycle.deep_view()[i as int]));
            return true;
        }
        i += 1;
    }
    false
}

fn copy_names(v: &Vec<String>) -> (out: Vec<String>)
    ensures
        out.deep_view() == v.deep_view(),
{
    let mut out: Vec<String> = Vec::new();
    assert(out.deep_view() =~= Seq::<Seq<char>>::empty());
    let mut i: usize = 0;
    while i < v.len()
        invariant
            i <= v@.len(),
            out.deep_view() == v.deep_view().take(i as int),
        decreases v@.len() - i,
    {
        let ghost before = out.deep_view();
        out.push(copy_of(v[i].as_str()));
        assert(out.deep_view() =~= before.push(v.deep_view()[i as int]));
        i += 1;
    }
    assert(v.deep_view().take(i as int) =~= v.deep_view());
    out
}

fn list_unguarded(cycles: &Vec<Vec<String>>, allowed: &Vec<String>) -> (out: Vec<Vec<String>>)
    ensures
        out.deep_view() == unguarded(cycles.deep_view(), allowed.deep_view(), cycles@.len()),
{
    let mut out: Vec<Vec<String>> = Vec::new();
    assert(out.deep_view() =~= Seq::<Seq<Seq<char>>>::empty());
    let mut i: usize = 0;
    while i < cycles.len()
        invariant
            i <= cycles@.len(),
            out.deep_view() == unguarded(cycles.deep_view(), allowed.deep_view(), i as nat),
        decreases cycles@.len() - i,
    {
        assert(cycles.deep_view()[i as int] == cycles@[i as int].deep_view());
        if !guarded(&cycles[i], allowed) {
            let ghost before = out.deep_view();
            let copy = copy_names(&cycles[i]);
            let ghost c = copy.deep_view();
            out.push(copy);
            assert(out.deep_view() =~= before.push(c));
        }
        i += 1;
    }
    out
}

// ---------------------------------------------------------------------------
// The whole check
// ---------------------------------------------------------------------------

/// The frame sizes, those of functions noted as assembly included.
pub open spec fn all_sizes(notes: Noted, listing: Seq<char>) -> Entries<u64> {
    merged(sizes_of(listing), notes.assembly, notes.assembly.len())
}

/// The call graph, noted calls through registers included.
pub open spec fn full_graph(notes: Noted, scan: Scan) -> Nodes {
    with_indirect(scan.graph, notes.indirect, notes.indirect.len())
}

/// The first entry point that the graph has not.
pub open spec fn missing_entry(g: Nodes) -> Option<Seq<char>> {
    if !is_node(g, NORMAL_ENTRY@) {
        Some(NORMAL_ENTRY@)
    } else if !is_node(g, SECONDARY_ENTRY@) {
        Some(SECONDARY_ENTRY@)
    } else if !is_node(g, SYNC_EXCEPTION_ENTRY@) {
        Some(SYNC_EXCEPTION_ENTRY@)
    } else if !is_node(g, IRQ_EXCEPTION_ENTRY@) {
        Some(IRQ_EXCEPTION_ENTRY@)
    } else {
        None
    }
}

/// Whether every noted function is there, every call through a register is noted, and
/// every noted target stands for a function.
pub open spec fn notes_fit(notes: Noted, scan: Scan) -> bool {
    &&& missing_symbol(scan.graph, notes.assembly, 0) is None
    &&& unannotated(notes.indirect, scan.indirect, scan.indirect.len()).len() == 0
    &&& unresolved(scan.graph, notes.indirect, 0) is None
}

/// Whether every function that can be reached has a frame size.
pub open spec fn all_sized(g: Nodes, sizes: Entries<u64>) -> bool {
    forall|x: Seq<char>| !#[trigger] lacks_size(g, sizes, x)
}

impl StackReport {
    /// What the report says of a graph and frame sizes.
    pub open spec fn describes(self, g: Nodes, sizes: Entries<u64>, allowed: Seq<Seq<char>>) -> bool {
        &&& (self.largest.0@, self.largest.1) == largest(sizes, sizes.len())
        &&& descending(entries_view(self.over_cap@))
        &&& entries_view(self.over_cap@).to_multiset() == too_large(sizes, sizes.len()).to_multiset()
        &&& self.cycles.deep_view() == unguarded(cycles_of(g), allowed, cycles_of(g).len())
        &&& self.normal == depth_from(g, sizes, NORMAL_ENTRY@)
        &&& self.secondary == depth_from(g, sizes, SECONDARY_ENTRY@)
        &&& self.sync == depth_from(g, sizes, SYNC_EXCEPTION_ENTRY@)
        &&& self.irq == depth_from(g, sizes, IRQ_EXCEPTION_ENTRY@)
    }

    /// The stack that the deepest normal path and the deepest exception take together.
    pub open spec fn combined(self) -> int {
        (if self.normal < self.secondary {
            self.secondary as int
        } else {
            self.normal as int
        }) + (if self.sync < self.irq {
            self.irq as int
        } else {
            self.sync as int
        })
    }

    /// Whether no frame exceeds the cap, nothing recurs unguarded, and the budget suffices.
    pub open spec fn is_pass(self) -> bool {
        self.over_cap@.len() == 0 && self.cycles@.len() == 0 && self.combined() <= TOTAL_BUDGET
    }

    /// The stack that the deepest normal path and the deepest exception take together,
    /// where that can be written in 128 bits.
    pub fn combined_depth(&self) -> (r: Option<u128>)
        ensures
            match r {
                Some(n) => n == self.combined(),
                None => self.combined() > u128::MAX,
            },
    {
        let worst = if self.normal < self.secondary {
            self.secondary
        } else {
            self.normal
        };
        let exception = if self.sync < self.irq {
            self.irq
        } else {
            self.sync
        };
        worst.checked_add(exception)
    }

    /// Whether the budget suffices.
    pub fn fits_budget(&self) -> (r: bool)
        ensures
            r == (self.combined() <= TOTAL_BUDGET),
    {
        match self.combined_depth() {
            Some(n) => n <= TOTAL_BUDGET as u128,
            None => false,
        }
    }

    /// Whether the check passes.
    pub fn passed(&self) -> (r: bool)
        ensures
            r == self.is_pass(),
    {
        self.over_cap.len() == 0 && self.cycles.len() == 0 && self.fits_budget()
    }
}

fn require_depth(entry: &'static str, g: &CallGraph, sizes: &Table<u64>) -> (r: Result<
    u128,
    StackFault,
>)
    ensures
        match r {
            Ok(d) => is_node(g@, entry@) && d == depth_from(g@, sizes@, entry@),
            Err(StackFault::EntryMissing { entry: e }) => !is_node(g@, entry@) && e@ == entry@,
            Err(_) => false,
        },
{
    match worst_case_depth(entry, g, sizes) {
        Some(d) => Ok(d),
        None => Err(StackFault::EntryMissing { entry: copy_of(entry) }),
    }
}

fn measure(notes: &Annotations, g: &CallGraph, sizes: &Table<u64>, resolved: u128) -> (r: Result<
    StackReport,
    StackFault,
>)
    ensures
        match r {
            Ok(report) => report.resolved == resolved && missing_entry(g@) is None && report.describes(
                g@,
                sizes@,
                notes.allowed_cycles.deep_view(),
            ),
            Err(StackFault::EntryMissing { entry }) => missing_entry(g@) == Some(entry@),
            Err(_) => false,
        },
{
    let normal = match require_depth(NORMAL_ENTRY, g, sizes) {
        Ok(d) => d,
        Err(f) => {
            return Err(f);
        },
    };
    let secondary = match require_depth(SECONDARY_ENTRY, g, sizes) {
        Ok(d) => d,
        Err(f) => {
            return Err(f);
        },
    };
    let sync = match require_depth(SYNC_EXCEPTION_ENTRY, g, sizes) {
        Ok(d) => d,
        Err(f) => {
            return Err(f);
        },
    };
    let irq = match require_depth(IRQ_EXCEPTION_ENTRY, g, sizes) {
        Ok(d) => d,
        Err(f) => {
            return Err(f);
        },
    };
    let cycles = detect_cycles(g);
    Ok(
        StackReport {
            resolved,
            largest: find_largest(sizes),
            over_cap: list_too_large(sizes),
            cycles: list_unguarded(&cycles, &notes.allowed_cycles),
            normal,
            secondary,
            sync,
            irq,
        },
    )
}

/// Checks one build of the kernel: `listing` holds its frame sizes, `disassembly` its
/// code.
pub fn check_stack_for_profile(notes: &Annotations, listing: &str, disassembly: &str) -> (r: Result<
    StackReport,
    StackFault,
>)
    ensures
        ({
            let scan = disassembled(disassembly@);
            let g = full_graph(notes@, scan);
            let sizes = all_sizes(notes@, listing@);
            match r {
                Ok(report) => notes_fit(notes@, scan) && all_sized(g, sizes) && missing_entry(
                    g,
                ) is None && report.describes(g, sizes, notes@.cycles) && report.resolved
                    == call_count(g) - call_count(scan.graph),
                Err(StackFault::KnownAssemblyMissing { symbol }) => missing_symbol(
                    scan.graph,
                    notes@.assembly,
                    0,
                ) == Some(symbol@),
                Err(StackFault::Unannotated { functions }) => {
                    &&& missing_symbol(scan.graph, notes@.assembly, 0) is None
                    &&& functions.deep_view() == unannotated(
                        notes@.indirect,
                        scan.indirect,
                        scan.indirect.len(),
                    )
                    &&& functions@.len() > 0
                },
                Err(StackFault::TargetUnresolved { function, target }) => {
                    &&& missing_symbol(scan.graph, notes@.assembly, 0) is None
                    &&& unannotated(notes@.indirect, scan.indirect, scan.indirect.len()).len() == 0
                    &&& unresolved(scan.graph, notes@.indirect, 0) == Some((function@, target@))
                },
                Err(StackFault::NoSize { functions }) => {
                    &&& notes_fit(notes@, scan)
                    &&& functions@.len() > 0
                    &&& ascending(functions.deep_view())
                    &&& forall|x: Seq<char>|
                        functions.deep_view().contains(x) <==> #[trigger] lacks_size(g, sizes, x)
                },
                Err(StackFault::EntryMissing { entry }) => notes_fit(notes@, scan) && all_sized(
                    g,
                    sizes,
                ) && missing_entry(g) == Some(entry@),
            }
        }),
{
    let mut sizes = parse_stack_sizes(listing);
    let extracted = extract_call_graph(disassembly);
    let mut graph = extracted.graph;
    match find_missing_symbol(&graph, &notes.known_assembly) {
        Some(symbol) => {
            return Err(StackFault::KnownAssemblyMissing { symbol });
        },
        None => {},
    }
    merge(&mut sizes, &notes.known_assembly);
    let functions = list_unannotated(&notes.indirect_calls, &extracted.indirect);
    if functions.len() > 0 {
        return Err(StackFault::Unannotated { functions });
    }
    match find_unresolved(&graph, &notes.indirect_calls) {
        Some((function, target)) => {
            return Err(StackFault::TargetUnresolved { function, target });
        },
        None => {},
    }
    let resolved = add_indirect(&mut graph, &notes.indirect_calls);
    let missing = list_without_size(&graph, &sizes);
    if missing.len() > 0 {
        return Err(StackFault::NoSize { functions: missing });
    }
    proof {
        assert(missing.deep_view() =~= Seq::<Seq<char>>::empty());
        assert forall|x: Seq<char>| !#[trigger] lacks_size(graph@, sizes@, x) by {
            assert(!missing.deep_view().contains(x));
        }
    }
    measure(notes, &graph, &sizes, resolved)
}

/// Where the check passes, no chain of calls from a boot path together with one from an
/// exception takes more than the budget, unless one of the two can come to an excused cycle.
/// With no cycle excused there is none.
pub proof fn lemma_pass_bounds_chains(
    report: StackReport,
    g: Nodes,
    sizes: Entries<u64>,
    allowed: Seq<Seq<char>>,
    p: Seq<Seq<char>>,
    q: Seq<Seq<char>>,
)
    requires
        report.describes(g, sizes, allowed),
        report.is_pass(),
        is_walk(g, p),
        is_walk(g, q),
        p[0] == NORMAL_ENTRY@ || p[0] == SECONDARY_ENTRY@,
        q[0] == SYNC_EXCEPTION_ENTRY@ || q[0] == IRQ_EXCEPTION_ENTRY@,
    ensures
        allowed.len() == 0 ==> no_recursion(g),
        allowed.len() == 0 || (no_recursion_from(g, p[0]) && no_recursion_from(g, q[0])) ==> weight(
            sizes,
            p,
        ) + weight(sizes, q) <= TOTAL_BUDGET,
{
    if allowed.len() == 0 {
        assert(allowed =~= Seq::empty());
        lemma_unguarded_all(cycles_of(g), cycles_of(g).len());
        assert(report.cycles.deep_view().len() == 0);
        lemma_found_iff_recursive(g);
    }
    if no_recursion_from(g, p[0]) && no_recursion_from(g, q[0]) {
        lemma_depth_is_deepest(g, sizes, p[0]);
        lemma_depth_is_deepest(g, sizes, q[0]);
    }
}

proof fn lemma_unguarded_all(cycles: Seq<Seq<Seq<char>>>, n: nat)
    requires
        n <= cycles.len(),
    ensures
        unguarded(cycles, Seq::empty(), n) == cycles.take(n as int),
    decreases n,
{
    if n > 0 {
        lemma_unguarded_all(cycles, (n - 1) as nat);
        assert(cycles.take(n as int) =~= cycles.take(n - 1).push(cycles[n - 1]));
    } else {
        assert(cycles.take(0) =~= Seq::<Seq<Seq<char>>>::empty());
    }
}

// ---------------------------------------------------------------------------
// Laws of the parts
// ---------------------------------------------------------------------------

/// Every noted function is in order where none is reported; the one that is reported is noted,
/// is not in the graph, has no `*` at its end, no instance, and comes from the kernel itself.
pub proof fn lemma_missing_symbol(g: Nodes, noted: Entries<u64>, i: int)
    requires
        0 <= i <= noted.len(),
    ensures
        missing_symbol(g, noted, i) is None ==> forall|k: int|
            i <= k < noted.len() ==> is_node(g, (#[trigger] noted[k]).0) || ends_with(
                noted[k].0,
                "*"@,
            ) || is_external(noted[k].0) || exists|j: int|
                0 <= j < g.len() && is_instance((#[trigger] g[j]).0, noted[k].0),
        missing_symbol(g, noted, i) matches Some(s) ==> {
            &&& exists|k: int| i <= k < noted.len() && (#[trigger] noted[k]).0 == s
            &&& !is_node(g, s)
            &&& !ends_with(s, "*"@)
            &&& !starts_with(s, "core::"@)
            &&& !starts_with(s, "compiler_builtins::"@)
            &&& !starts_with(s, "OUTLINED_FUNCTION"@)
            &&& s != "memcpy"@ && s != "memset"@ && s != "memcmp"@ && s != "memmove"@
            &&& forall|j: int| 0 <= j < g.len() ==> !is_instance((#[trigger] g[j]).0, s)
        },
    decreases noted.len() - i,
{
    if i < noted.len() {
        lemma_missing_symbol(g, noted, i + 1);
        assert(noted[i].0 == noted[i].0);
    }
}

/// A noted frame size counts in place of what the listing says; what is not noted keeps the
/// listing's.
pub proof fn lemma_merged(sizes: Entries<u64>, noted: Entries<u64>, n: nat, name: Seq<char>)
    requires
        n <= noted.len(),
        crate::table::keys_differ(noted),
    ensures
        (forall|k: int| 0 <= k < n ==> (#[trigger] noted[k]).0 != name) ==> crate::table::get(
            merged(sizes, noted, n),
            name,
        ) == crate::table::get(sizes, name),
        forall|k: int|
            0 <= k < n && (#[trigger] noted[k]).0 == name ==> crate::table::get(
                merged(sizes, noted, n),
                name,
            ) == Some(noted[k].1),
    decreases n,
{
    if n > 0 {
        let m = (n - 1) as nat;
        lemma_merged(sizes, noted, m, name);
        crate::table::lemma_get_put(merged(sizes, noted, m), noted[n - 1].0, noted[n - 1].1, name);
        assert(noted[n - 1].0 == noted[n - 1].0);
    }
}

/// The functions that are reported as not annotated are those that call through a register and
/// have no annotation.
pub proof fn lemma_unannotated(noted: Entries<Indirect>, fns: Seq<Seq<char>>, n: nat, x: Seq<char>)
    requires
        n <= fns.len(),
    ensures
        unannotated(noted, fns, n).contains(x) <==> !has_key(noted, x) && exists|i: int|
            0 <= i < n && #[trigger] fns[i] == x,
    decreases n,
{
    if n > 0 {
        let m = (n - 1) as nat;
        lemma_unannotated(noted, fns, m, x);
        let head = unannotated(noted, fns, m);
        let all = unannotated(noted, fns, n);
        assert(fns[n - 1] == fns[n - 1]);
        if head.contains(x) {
            let i = choose|i: int| 0 <= i < head.len() && head[i] == x;
            assert(all[i] == x);
        }
        if all.contains(x) {
            let i = choose|i: int| 0 <= i < all.len() && all[i] == x;
            if i < head.len() {
                assert(head[i] == x);
            }
        }
        if !has_key(noted, fns[n - 1]) {
            assert(all[head.len() as int] == fns[n - 1]);
        }
    }
}

proof fn lemma_with_suffix(g: Nodes, suffix: Seq<char>, n: nat)
    requires
        n <= g.len(),
    ensures
        forall|k: int|
            0 <= k < n && ends_with((#[trigger] g[k]).0, suffix) ==> with_suffix(
                g,
                suffix,
                n,
            ).contains(g[k].0),
        forall|x: Seq<char>| #[trigger]
            with_suffix(g, suffix, n).contains(x) ==> ends_with(x, suffix) && exists|k: int|
                0 <= k < n && (#[trigger] g[k]).0 == x,
    decreases n,
{
    if n > 0 {
        let m = (n - 1) as nat;
        lemma_with_suffix(g, suffix, m);
        let head = with_suffix(g, suffix, m);
        let all = with_suffix(g, suffix, n);
        if ends_with(g[n - 1].0, suffix) {
            assert(all[head.len() as int] == g[n - 1].0);
        }
        assert forall|k: int| 0 <= k < n && ends_with((#[trigger] g[k]).0, suffix) implies
            all.contains(g[k].0) by {
            if k < m {
                let i = choose|i: int| 0 <= i < head.len() && head[i] == g[k].0;
                assert(all[i] == g[k].0);
            }
        }
        assert forall|x: Seq<char>| #[trigger] all.contains(x) implies ends_with(x, suffix)
            && exists|k: int| 0 <= k < n && (#[trigger] g[k]).0 == x by {
            let i = choose|i: int| 0 <= i < all.len() && all[i] == x;
            if i < head.len() {
                assert(head[i] == x);
                assert(head.contains(x));
            } else {
                assert(g[n - 1].0 == x);
            }
        }
    }
}

/// What a noted target stands for is a function of the graph: the one of that name or one whose
/// path ends in it. A target of which the graph has neither stands for nothing.
pub proof fn lemma_resolved(g: Nodes, target: Seq<char>)
    ensures
        is_node(g, target) ==> resolved(g, target) == Some(target),
        !is_node(g, target) ==> (resolved(g, target) matches Some(t) ==> ends_with(t, "::"@ + target)
            && forall|k: int|
            0 <= k < g.len() && ends_with((#[trigger] g[k]).0, "::"@ + target) ==> g[k].0 == t),
        !is_node(g, target) && (forall|k: int|
            0 <= k < g.len() ==> !ends_with((#[trigger] g[k]).0, "::"@ + target)) ==> resolved(
            g,
            target,
        ) is None,
        resolved(g, target) matches Some(t) ==> is_node(g, t),
{
    let s = "::"@ + target;
    lemma_with_suffix(g, s, g.len());
    let c = with_suffix(g, s, g.len());
    if !is_node(g, target) && c.len() == 1 {
        assert(c.contains(c[0]));
        let k = choose|k: int| 0 <= k < g.len() && (#[trigger] g[k]).0 == c[0];
        lemma_node_from(g, c[0], 0);
    }
    if c.len() > 0 {
        assert(c.contains(c[0]));
    }
}

/// A path that only one function has at its end is resolved to that function.
pub proof fn lemma_resolved_only(g: Nodes, target: Seq<char>, i: int)
    requires
        !is_node(g, target),
        0 <= i < g.len(),
        ends_with(g[i].0, "::"@ + target),
        forall|k: int| 0 <= k < g.len() && k != i ==> !ends_with((#[trigger] g[k]).0, "::"@ + target),
    ensures
        resolved(g, target) == Some(g[i].0),
{
    lemma_suffix_only(g, "::"@ + target, g.len(), i);
}

proof fn lemma_suffix_only(g: Nodes, suffix: Seq<char>, n: nat, i: int)
    requires
        n <= g.len(),
        0 <= i < g.len(),
        ends_with(g[i].0, suffix),
        forall|k: int| 0 <= k < g.len() && k != i ==> !ends_with((#[trigger] g[k]).0, suffix),
    ensures
        with_suffix(g, suffix, n) == if i < n {
            seq![g[i].0]
        } else {
            Seq::<Seq<char>>::empty()
        },
    decreases n,
{
    if n > 0 {
        lemma_suffix_only(g, suffix, (n - 1) as nat, i);
        if i == n - 1 {
            assert(Seq::<Seq<char>>::empty().push(g[i].0) =~= seq![g[i].0]);
        }
    }
}

/// Whether target `k` of annotation `i` makes `f` call `t`.
pub open spec fn notes_call(
    g: Nodes,
    noted: Entries<Indirect>,
    i: int,
    k: int,
    f: Seq<char>,
    t: Seq<char>,
) -> bool {
    &&& noted[i].0 == f
    &&& noted[i].1 is Targets
    &&& 0 <= k < noted[i].1->Targets_0.len()
    &&& resolved(g, noted[i].1->Targets_0[k]) == Some(t)
}

proof fn lemma_with_targets(
    g: Nodes,
    names: Nodes,
    from: Seq<char>,
    targets: Seq<Seq<char>>,
    n: nat,
    f: Seq<char>,
    t: Seq<char>,
)
    requires
        n <= targets.len(),
    ensures
        is_node(with_targets(g, names, from, targets, n), f) == is_node(g, f),
        calls(with_targets(g, names, from, targets, n), f, t) <==> calls(g, f, t) || is_node(
            g,
            from,
        ) && f == from && exists|k: int|
            0 <= k < n && #[trigger] resolved(names, targets[k]) == Some(t),
    decreases n,
{
    if n > 0 {
        let m = (n - 1) as nat;
        lemma_with_targets(g, names, from, targets, m, f, t);
        lemma_with_targets(g, names, from, targets, m, from, t);
        let h = with_targets(g, names, from, targets, m);
        match resolved(names, targets[n - 1]) {
            Some(to) => {
                crate::call_graph::lemma_with_call(h, from, to, f, t);
            },
            None => {},
        }
        assert(resolved(names, targets[n - 1]) == resolved(names, targets[n - 1]));
    }
}

/// The annotations add the calls that they note, from functions of the graph to what their
/// targets stand for, and take none away: the full graph has the calls of the disassembly and
/// the noted ones, and no others.
pub proof fn lemma_with_indirect(
    g: Nodes,
    noted: Entries<Indirect>,
    n: nat,
    f: Seq<char>,
    t: Seq<char>,
)
    requires
        n <= noted.len(),
    ensures
        is_node(with_indirect(g, noted, n), f) == is_node(g, f),
        calls(with_indirect(g, noted, n), f, t) <==> calls(g, f, t) || is_node(g, f) && exists|
            i: int,
            k: int,
        |
            0 <= i < n && #[trigger] notes_call(g, noted, i, k, f, t),
    decreases n,
{
    if n > 0 {
        let m = (n - 1) as nat;
        lemma_with_indirect(g, noted, m, f, t);
        lemma_with_indirect(g, noted, m, noted[n - 1].0, t);
        let h = with_indirect(g, noted, m);
        match noted[n - 1].1 {
            Indirect::FmtInternal => {
                assert forall|k: int| !#[trigger] notes_call(g, noted, n - 1, k, f, t) by {}
            },
            Indirect::Targets(targets) => {
                if is_node(g, noted[n - 1].0) {
                    lemma_with_targets(h, g, noted[n - 1].0, targets, targets.len(), f, t);
                    if f == noted[n - 1].0 && exists|k: int|
                        0 <= k < targets.len() && #[trigger] resolved(g, targets[k]) == Some(t) {
                        let k = choose|k: int|
                            0 <= k < targets.len() && #[trigger] resolved(g, targets[k]) == Some(t);
                        assert(notes_call(g, noted, n - 1, k, f, t));
                    }
                }
            },
        }
        if exists|i: int, k: int| 0 <= i < n && #[trigger] notes_call(g, noted, i, k, f, t) {
            let (i, k) = choose|i: int, k: int|
                0 <= i < n && #[trigger] notes_call(g, noted, i, k, f, t);
            if i == n - 1 {
                assert(resolved(g, noted[i].1->Targets_0[k]) == Some(t));
            }
        }
    }
}

/// The largest frame is the frame of one of the functions, and none is larger.
pub proof fn lemma_largest(sizes: Entries<u64>, n: nat)
    requires
        0 < n <= sizes.len(),
    ensures
        exists|i: int| 0 <= i < n && #[trigger] sizes[i] == largest(sizes, n),
        forall|i: int| 0 <= i < n ==> (#[trigger] sizes[i]).1 <= largest(sizes, n).1,
    decreases n,
{
    reveal_with_fuel(largest, 2);
    assert(sizes[n - 1] == sizes[n - 1]);
    if n > 1 {
        lemma_largest(sizes, (n - 1) as nat);
    }
}

/// The frames that are reported as too large are those of more than 1600 bytes.
pub proof fn lemma_too_large(sizes: Entries<u64>, n: nat, e: (Seq<char>, u64))
    requires
        n <= sizes.len(),
    ensures
        too_large(sizes, n).contains(e) <==> e.1 > 1600 && exists|i: int|
            0 <= i < n && #[trigger] sizes[i] == e,
    decreases n,
{
    if n > 0 {
        let m = (n - 1) as nat;
        lemma_too_large(sizes, m, e);
        let head = too_large(sizes, m);
        let all = too_large(sizes, n);
        assert(sizes[n - 1] == sizes[n - 1]);
        if head.contains(e) {
            let i = choose|i: int| 0 <= i < head.len() && head[i] == e;
            assert(all[i] == e);
        }
        if all.contains(e) {
            let i = choose|i: int| 0 <= i < all.len() && all[i] == e;
            if i < head.len() {
                assert(head[i] == e);
            }
        }
        if sizes[n - 1].1 > 1600 {
            assert(all[head.len() as int] == sizes[n - 1]);
        }
    }
}

/// The cycles that are reported are those that go through no function that may recur.
pub proof fn lemma_unguarded(
    cycles: Seq<Seq<Seq<char>>>,
    allowed: Seq<Seq<char>>,
    n: nat,
    c: Seq<Seq<char>>,
)
    requires
        n <= cycles.len(),
    ensures
        unguarded(cycles, allowed, n).contains(c) <==> (exists|i: int|
            0 <= i < n && #[trigger] cycles[i] == c) && forall|j: int|
            0 <= j < c.len() ==> !allowed.contains(#[trigger] c[j]),
    decreases n,
{
    if n > 0 {
        let m = (n - 1) as nat;
        lemma_unguarded(cycles, allowed, m, c);
        let head = unguarded(cycles, allowed, m);
        let all = unguarded(cycles, allowed, n);
        assert(cycles[n - 1] == cycles[n - 1]);
        if head.contains(c) {
            let i = choose|i: int| 0 <= i < head.len() && head[i] == c;
            assert(all[i] == c);
        }
        if all.contains(c) {
            let i = choose|i: int| 0 <= i < all.len() && all[i] == c;
            if i < head.len() {
                assert(head[i] == c);
            }
        }
        if !is_guarded(cycles[n - 1], allowed) {
            assert(all[head.len() as int] == cycles[n - 1]);
        }
    }
}

/// What the deepest paths take together is no less than any boot path with any exception, and
/// is what one of them takes; the check passes where it is at most 8192 bytes and nothing else
/// was found.
pub proof fn lemma_combined(r: StackReport)
    ensures
        r.combined() >= r.normal + r.sync,
        r.combined() >= r.normal + r.irq,
        r.combined() >= r.secondary + r.sync,
        r.combined() >= r.secondary + r.irq,
        r.combined() == r.normal + r.sync || r.combined() == r.normal + r.irq || r.combined()
            == r.secondary + r.sync || r.combined() == r.secondary + r.irq,
        r.is_pass() <==> r.over_cap@.len() == 0 && r.cycles@.len() == 0 && r.normal + r.sync <= 8192
            && r.normal + r.irq <= 8192 && r.secondary + r.sync <= 8192 && r.secondary + r.irq
            <= 8192,
{
}

/// Where all four entry points are in the graph none is reported; the one that is reported is
/// not in it.
pub proof fn lemma_missing_entry(g: Nodes)
    ensures
        missing_entry(g) is None <==> is_node(g, "_start"@) && is_node(g, "_secondary_start"@)
            && is_node(g, "__vec_sync_lower"@) && is_node(g, "__vec_irq"@),
        missing_entry(g) matches Some(e) ==> !is_node(g, e),
{
}

proof fn lemma_unresolved_target(g: Nodes, targets: Seq<Seq<char>>, k: int)
    requires
        0 <= k <= targets.len(),
    ensures
        unresolved_target(g, targets, k) is None <==> forall|j: int|
            k <= j < targets.len() ==> resolved(g, #[trigger] targets[j]) is Some,
        unresolved_target(g, targets, k) matches Some(t) ==> resolved(g, t) is None && exists|j: int|
            k <= j < targets.len() && #[trigger] targets[j] == t,
    decreases targets.len() - k,
{
    if k < targets.len() {
        lemma_unresolved_target(g, targets, k + 1);
    }
}

/// The notes on calls through pointers are complete if and only if every target of a function
/// that is there can be told; else a function and one of its targets that cannot are named.
pub proof fn lemma_unresolved(g: Nodes, noted: Entries<Indirect>, i: int)
    requires
        0 <= i <= noted.len(),
    ensures
        unresolved(g, noted, i) is None <==> forall|m: int, k: int|
            i <= m < noted.len() && is_node(g, (#[trigger] noted[m]).0) && noted[m].1 is Targets && 0
                <= k < noted[m].1->Targets_0.len() ==> resolved(
                g,
                #[trigger] noted[m].1->Targets_0[k],
            ) is Some,
        unresolved(g, noted, i) matches Some((f, t)) ==> is_node(g, f) && resolved(g, t) is None
            && exists|m: int|
            i <= m < noted.len() && (#[trigger] noted[m]).0 == f && noted[m].1 is Targets
                && noted[m].1->Targets_0.contains(t),
    decreases noted.len() - i,
{
    if i < noted.len() {
        lemma_unresolved(g, noted, i + 1);
        if let Indirect::Targets(targets) = noted[i].1 {
            lemma_unresolved_target(g, targets, 0);
        }
    }
}

/// Every function that one of the four entries can reach has a known frame, if and only if none
/// lacks one.
pub proof fn lemma_all_sized(g: Nodes, sizes: Entries<u64>, entries: Seq<Seq<char>>)
    requires
        entries == seq!["_start"@, "_secondary_start"@, "__vec_sync_lower"@, "__vec_irq"@],
    ensures
        all_sized(g, sizes) <==> forall|x: Seq<char>|
            #[trigger] reachable(g, entries, x) ==> frame(sizes, x) is Some,
{
    assert(entry_names() =~= entries);
    if all_sized(g, sizes) {
        assert forall|x: Seq<char>| #[trigger] reachable(g, entries, x) implies frame(sizes, x)
            is Some by {
            assert(!lacks_size(g, sizes, x));
        }
    }
}

/// The number of calls is what the callees of the single functions sum up to.
pub proof fn lemma_call_count(g: Nodes, node: (Seq<char>, Seq<Seq<char>>))
    ensures
        call_count(g.push(node)) == call_count(g) + node.1.len(),
        call_count(Seq::<(Seq<char>, Seq<Seq<char>>)>::empty()) == 0,
{
    lemma_calls_front(g, g.push(node), g.len());
}

proof fn lemma_calls_front(g: Nodes, h: Nodes, n: nat)
    requires
        n <= g.len() <= h.len(),
        forall|i: int| 0 <= i < n ==> #[trigger] g[i] == h[i],
    ensures
        calls_of(g, n) == calls_of(h, n),
    decreases n,
{
    if n > 0 {
        lemma_calls_front(g, h, (n - 1) as nat);
        assert(g[n - 1] == h[n - 1]);
    }
}

/// The graph that is checked has the calls of the disassembly and those that the notes add, for
/// every note, and no others.
pub proof fn lemma_full_graph(notes: Noted, scan: Scan, f: Seq<char>, t: Seq<char>)
    ensures
        is_node(full_graph(notes, scan), f) == is_node(scan.graph, f),
        calls(full_graph(notes, scan), f, t) <==> calls(scan.graph, f, t) || is_node(scan.graph, f)
            && exists|i: int, k: int|
            0 <= i < notes.indirect.len() && #[trigger] notes_call(
                scan.graph,
                notes.indirect,
                i,
                k,
                f,
                t,
            ),
{
    lemma_with_indirect(scan.graph, notes.indirect, notes.indirect.len(), f, t);
}

/// A function's size is the noted one where there is one, and else that of the listing.
pub proof fn lemma_all_sizes(notes: Noted, listing: Seq<char>, name: Seq<char>)
    requires
        crate::table::keys_differ(notes.assembly),
    ensures
        (forall|k: int| 0 <= k < notes.assembly.len() ==> (#[trigger] notes.assembly[k]).0 != name)
            ==> crate::table::get(all_sizes(notes, listing), name) == crate::table::get(
            sizes_of(listing),
            name,
        ),
        forall|k: int|
            0 <= k < notes.assembly.len() && (#[trigger] notes.assembly[k]).0 == name
                ==> crate::table::get(all_sizes(notes, listing), name) == Some(notes.assembly[k].1),
{
    lemma_merged(sizes_of(listing), notes.assembly, notes.assembly.len(), name);
}

} // verus!
