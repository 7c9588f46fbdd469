//! Functions that can come to be called by themselves.
//!
//! The graph is searched depth first. A call of a function on the current path closes a
//! cycle.

use crate::call_graph::{callees, calls, is_node, lemma_node_from, node_at, CallGraph, Nodes};
use crate::text::{copy_of, has_name, same_text};
use crate::walks::{
    is_cycle, is_walk, lemma_walk_one, lemma_walk_push, lemma_walk_skip, no_recursion,
};
use vstd::prelude::*;

verus! {

/// How far the search has come.
pub struct Search {
    /// The functions that have been searched, in the order in which that ended.
    pub finished: Seq<Seq<char>>,
    /// The cycles found, each with its first function again at the end.
    pub cycles: Seq<Seq<Seq<char>>>,
}

/// The first index of `x` in `s`, or the length of `s`.
pub open spec fn first_index(s: Seq<Seq<char>>, x: Seq<char>) -> int
    decreases s.len(),
{
    if s.len() == 0 || s[0] == x {
        0
    } else {
        1 + first_index(s.skip(1), x)
    }
}

/// The search from `node`, reached along `path`.
pub open spec fn searched(g: Nodes, node: Seq<char>, path: Seq<Seq<char>>, st: Search) -> Search
    decreases g.len() + 1 - path.len(), 0nat,
    when path.len() <= g.len()
{
    let list = callees(g, node);
    let st = searched_calls(g, path.push(node), list, list.len(), st);
    Search { finished: st.finished.push(node), ..st }
}

/// The search from the first `n` functions of `list`, called at the end of `path`.
pub open spec fn searched_calls(
    g: Nodes,
    path: Seq<Seq<char>>,
    list: Seq<Seq<char>>,
    n: nat,
    st: Search,
) -> Search
    decreases g.len() + 1 - path.len(), n,
    when path.len() <= g.len() + 1
{
    if n == 0 {
        st
    } else {
        let st = searched_calls(g, path, list, (n - 1) as nat, st);
        let next = list[n - 1];
        if path.contains(next) {
            Search { cycles: st.cycles.push(path.skip(first_index(path, next)).push(next)), ..st }
        } else if st.finished.contains(next) {
            st
        } else {
            searched(g, next, path, st)
        }
    }
}

/// The search from the first `n` functions of the graph.
pub open spec fn searched_nodes(g: Nodes, n: nat) -> Search
    decreases n,
{
    if n == 0 {
        Search { finished: Seq::empty(), cycles: Seq::empty() }
    } else {
        let st = searched_nodes(g, (n - 1) as nat);
        if st.finished.contains(g[n - 1].0) {
            st
        } else {
            searched(g, g[n - 1].0, Seq::empty(), st)
        }
    }
}

/// The cycles that the search finds.
pub open spec fn cycles_of(g: Nodes) -> Seq<Seq<Seq<char>>> {
    searched_nodes(g, g.len()).cycles
}

proof fn lemma_first_index(s: Seq<Seq<char>>, x: Seq<char>)
    requires
        s.contains(x),
    ensures
        0 <= first_index(s, x) < s.len(),
        s[first_index(s, x)] == x,
        forall|j: int| 0 <= j < first_index(s, x) ==> s[j] != x,
    decreases s.len(),
{
    if s[0] != x {
        let k = choose|k: int| 0 <= k < s.len() && s[k] == x;
        assert(s.skip(1)[k - 1] == x);
        lemma_first_index(s.skip(1), x);
        assert forall|j: int| 0 <= j < first_index(s, x) implies s[j] != x by {
            if j > 0 {
                assert(s.skip(1)[j - 1] == s[j]);
            }
        }
    }
}

/// A path of different functions of the graph is no longer than the graph.
pub proof fn lemma_path_fits(g: Nodes, path: Seq<Seq<char>>)
    requires
        path.no_duplicates(),
        forall|i: int| 0 <= i < path.len() ==> is_node(g, #[trigger] path[i]),
    ensures
        path.len() <= g.len(),
{
    let names = g.map_values(|e: (Seq<char>, Seq<Seq<char>>)| e.0);
    path.unique_seq_to_set();
    names.lemma_cardinality_of_set();
    assert(path.to_set().subset_of(names.to_set())) by {
        assert forall|x: Seq<char>| path.to_set().contains(x) implies names.to_set().contains(
            x,
        ) by {
            assert(path.contains(x));
            let i = choose|i: int| 0 <= i < path.len() && path[i] == x;
            assert(is_node(g, path[i]));
            lemma_node_from(g, x, 0);
            assert(names[node_at(g, x)] == x);
        }
    }
    vstd::set_lib::lemma_len_subset(path.to_set(), names.to_set());
}

// ---------------------------------------------------------------------------
// Searching
// ---------------------------------------------------------------------------

fn copy_from(path: &Vec<String>, from: usize) -> (out: Vec<String>)
    requires
        from <= path@.len(),
    ensures
        out.deep_view() == path.deep_view().skip(from as int),
{
    let mut out: Vec<String> = Vec::new();
    let mut i: usize = from;
    assert(out.deep_view() =~= Seq::<Seq<char>>::empty());
    while i < path.len()
        invariant
            from <= i <= path@.len(),
            out.deep_view() == path.deep_view().subrange(from as int, i as int),
        decreases path@.len() - i,
    {
        let ghost before = out.deep_view();
        out.push(copy_of(path[i].as_str()));
        assert(out.deep_view() =~= before.push(path.deep_view()[i as int]));
        i += 1;
    }
    assert(path.deep_view().subrange(from as int, i as int) =~= path.deep_view().skip(
        from as int,
    ));
    out
}

fn find_name(path: &Vec<String>, name: &str) -> (r: Option<usize>)
    ensures
        match r {
            Some(i) => i < path@.len() && path.deep_view().contains(name@) && i == first_index(
                path.deep_view(),
                name@,
            ),
            None => !path.deep_view().contains(name@),
        },
{
    let mut i: usize = 0;
    while i < path.len()
        invariant
            i <= path@.len(),
            forall|k: int| 0 <= k < i ==> path.deep_view()[k] != name@,
        decreases path@.len() - i,
    {
        if same_text(path[i].as_str(), name) {
            proof {
                assert(path.deep_view()[i as int] == name@);
                lemma_first_index(path.deep_view(), name@);
            }
            return Some(i);
        }
        i += 1;
    }
    None
}

/// The search as it stands.
pub open spec fn search_view(finished: Vec<String>, cycles: Vec<Vec<String>>) -> Search {
    Search { finished: finished.deep_view(), cycles: cycles.deep_view() }
}

fn dfs_cycles(
    node: &str,
    g: &CallGraph,
    path: &mut Vec<String>,
    finished: &mut Vec<String>,
    cycles: &mut Vec<Vec<String>>,
)
    requires
        old(path).deep_view().no_duplicates(),
        !old(path).deep_view().contains(node@),
        forall|i: int|
            0 <= i < old(path).deep_view().len() ==> is_node(
                g@,
                #[trigger] old(path).deep_view()[i],
            ),
    ensures
        final(path).deep_view() == old(path).deep_view(),
        search_view(*final(finished), *final(cycles)) == searched(
            g@,
            node@,
            old(path).deep_view(),
            search_view(*old(finished), *old(cycles)),
        ),
    decreases g@.len() + 1 - old(path)@.len(),
{
    let ghost p0 = path.deep_view();
    let ghost st0 = search_view(*finished, *cycles);
    proof {
        lemma_path_fits(g@, p0);
    }
    path.push(copy_of(node));
    let ghost p = path.deep_view();
    proof {
        assert(p =~= p0.push(node@));
    }
    let ghost called = callees(g@, node@);
    match g.find(node) {
        Some(at) => {
            let list = &g.nodes[at].callees;
            proof {
                assert(p.no_duplicates()) by {
                    assert forall|i: int, j: int|
                        0 <= i < p.len() && 0 <= j < p.len() && i != j implies p[i] != p[j] by {
                        if i == p0.len() {
                            assert(p0.contains(p0[j]));
                        } else if j == p0.len() {
                            assert(p0.contains(p0[i]));
                        }
                    }
                }
                assert forall|i: int| 0 <= i < p.len() implies is_node(g@, #[trigger] p[i]) by {
                    if i < p0.len() {
                        assert(is_node(g@, p0[i]));
                    }
                }
                lemma_path_fits(g@, p);
            }
            let mut k: usize = 0;
            while k < list.len()
                invariant
                    k <= list@.len(),
                    list.deep_view() == called,
                    p == p0.push(node@),
                    p.len() <= g@.len(),
                    p.no_duplicates(),
                    forall|i: int| 0 <= i < p.len() ==> is_node(g@, #[trigger] p[i]),
                    path.deep_view() == p,
                    p0.len() == old(path)@.len(),
                    search_view(*finished, *cycles) == searched_calls(
                        g@,
                        p,
                        called,
                        k as nat,
                        st0,
                    ),
                decreases list@.len() - k,
            {
                let next = list[k].as_str();
                assert(next@ == called[k as int]);
                match find_name(path, next) {
                    Some(start) => {
                        let ghost before = cycles.deep_view();
                        let mut cycle = copy_from(path, start);
                        let ghost part = cycle.deep_view();
                        cycle.push(copy_of(next));
                        assert(cycle.deep_view() =~= part.push(next@));
                        let ghost found = cycle.deep_view();
                        cycles.push(cycle);
                        assert(cycles.deep_view() =~= before.push(found));
                    },
                    None => {
                        if !has_name(finished, next) {
                            dfs_cycles(next, g, path, finished, cycles);
                        }
                    },
                }
                k += 1;
            }
        },
        None => {},
    }
    let ghost done = finished.deep_view();
    finished.push(copy_of(node));
    proof {
        assert(finished.deep_view() =~= done.push(node@));
    }
    assert(path.deep_view() == p && path@.len() == p.len());
    let ghost full = path@;
    let _last = path.pop();
    proof {
        assert forall|i: int| 0 <= i < p0.len() implies #[trigger] path.deep_view()[i] == p0[i] by {
            assert(path@[i] == full[i]);
            assert(p[i] == full[i]@);
        }
        assert(path.deep_view() =~= p0);
    }
}

/// Whether `p` is a cycle whose functions, up to the last that is the first again, all differ.
pub open spec fn is_simple_cycle(g: Nodes, p: Seq<Seq<char>>) -> bool {
    is_cycle(g, p) && p.drop_last().no_duplicates()
}

/// The cycles of the call graph that the search finds. The functions of each all differ, but
/// for the last, which is the first again.
pub fn detect_cycles(g: &CallGraph) -> (cycles: Vec<Vec<String>>)
    ensures
        cycles.deep_view() == cycles_of(g@),
        cycles@.len() == 0 <==> no_recursion(g@),
        forall|i: int|
            0 <= i < cycles@.len() ==> is_simple_cycle(g@, #[trigger] cycles.deep_view()[i]),
{
    let mut finished: Vec<String> = Vec::new();
    let mut cycles: Vec<Vec<String>> = Vec::new();
    assert(finished.deep_view() =~= Seq::<Seq<char>>::empty());
    assert(cycles.deep_view() =~= Seq::<Seq<Seq<char>>>::empty());
    let mut i: usize = 0;
    while i < g.nodes.len()
        invariant
            i <= g.nodes@.len(),
            search_view(finished, cycles) == searched_nodes(g@, i as nat),
        decreases g.nodes@.len() - i,
    {
        let name = g.nodes[i].name.as_str();
        assert(g@[i as int].0 == name@);
        if !has_name(&finished, name) {
            let mut path: Vec<String> = Vec::new();
            assert(path.deep_view() =~= Seq::<Seq<char>>::empty());
            dfs_cycles(name, g, &mut path, &mut finished, &mut cycles);
        }
        i += 1;
    }
    proof {
        lemma_cycles_are_cycles(g@);
        lemma_found_iff_recursive(g@);
    }
    cycles
}

// ---------------------------------------------------------------------------
// What the search finds
// ---------------------------------------------------------------------------

spec fn all_cycles(g: Nodes, cycles: Seq<Seq<Seq<char>>>) -> bool {
    forall|i: int| 0 <= i < cycles.len() ==> is_simple_cycle(g, #[trigger] cycles[i])
}

spec fn path_ok(g: Nodes, path: Seq<Seq<char>>) -> bool {
    &&& path.no_duplicates()
    &&& forall|i: int| 0 <= i < path.len() ==> is_node(g, #[trigger] path[i])
    &&& path.len() > 0 ==> is_walk(g, path)
}

/// Where `path` is a walk of different functions and leads to `node`, so is the path with
/// `node`, as far as `node` calls anything.
proof fn lemma_path_push(g: Nodes, path: Seq<Seq<char>>, node: Seq<char>)
    requires
        path_ok(g, path),
        !path.contains(node),
        path.len() > 0 ==> calls(g, path.last(), node),
    ensures
        path.len() <= g.len(),
        is_walk(g, path.push(node)),
        callees(g, node).len() > 0 ==> path_ok(g, path.push(node)) && path.len() < g.len(),
{
    lemma_path_fits(g, path);
    let p = path.push(node);
    if path.len() > 0 {
        lemma_walk_push(g, path, node);
    } else {
        lemma_walk_one(g, node);
        assert(p =~= seq![node]);
    }
    if callees(g, node).len() > 0 {
        assert forall|i: int, j: int|
            0 <= i < p.len() && 0 <= j < p.len() && i != j implies p[i] != p[j] by {
            if i == path.len() {
                assert(path.contains(path[j]));
            } else if j == path.len() {
                assert(path.contains(path[i]));
            }
        }
        assert forall|i: int| 0 <= i < p.len() implies is_node(g, #[trigger] p[i]) by {
            if i < path.len() {
                assert(is_node(g, path[i]));
            }
        }
        lemma_path_fits(g, p);
    }
}

proof fn lemma_searched_sound(g: Nodes, node: Seq<char>, path: Seq<Seq<char>>, st: Search)
    requires
        path_ok(g, path),
        !path.contains(node),
        path.len() > 0 ==> calls(g, path.last(), node),
        all_cycles(g, st.cycles),
    ensures
        all_cycles(g, searched(g, node, path, st).cycles),
    decreases g.len() + 1 - path.len(), 0nat,
{
    lemma_path_push(g, path, node);
    let list = callees(g, node);
    if list.len() > 0 {
        lemma_searched_calls_sound(g, path.push(node), list, list.len(), st);
    }
}

proof fn lemma_searched_calls_sound(
    g: Nodes,
    path: Seq<Seq<char>>,
    list: Seq<Seq<char>>,
    n: nat,
    st: Search,
)
    requires
        path.len() > 0,
        path_ok(g, path),
        path.len() <= g.len(),
        list == callees(g, path.last()),
        n <= list.len(),
        all_cycles(g, st.cycles),
    ensures
        all_cycles(g, searched_calls(g, path, list, n, st).cycles),
    decreases g.len() + 1 - path.len(), n,
{
    if n > 0 {
        lemma_searched_calls_sound(g, path, list, (n - 1) as nat, st);
        let mid = searched_calls(g, path, list, (n - 1) as nat, st);
        let next = list[n - 1];
        assert(calls(g, path.last(), next));
        if path.contains(next) {
            lemma_first_index(path, next);
            let k = first_index(path, next);
            lemma_walk_skip(g, path, k);
            lemma_walk_push(g, path.skip(k), next);
            let p = path.skip(k).push(next);
            assert(p.drop_last() =~= path.skip(k));
            assert(is_simple_cycle(g, p));
        } else if !mid.finished.contains(next) {
            lemma_searched_sound(g, next, path, mid);
        }
    }
}

proof fn lemma_searched_nodes_sound(g: Nodes, n: nat)
    requires
        n <= g.len(),
    ensures
        all_cycles(g, searched_nodes(g, n).cycles),
    decreases n,
{
    if n > 0 {
        lemma_searched_nodes_sound(g, (n - 1) as nat);
        let st = searched_nodes(g, (n - 1) as nat);
        if !st.finished.contains(g[n - 1].0) {
            lemma_searched_sound(g, g[n - 1].0, Seq::empty(), st);
        }
    }
}

/// Every cycle that the search finds is one: each function in it calls the next, the last is
/// the first, and no other function comes twice.
pub proof fn lemma_cycles_are_cycles(g: Nodes)
    ensures
        forall|i: int|
            0 <= i < cycles_of(g).len() ==> is_simple_cycle(g, #[trigger] cycles_of(g)[i]),
{
    lemma_searched_nodes_sound(g, g.len());
}

/// Whether every function in `done` calls only functions that ended before it.
spec fn settled(g: Nodes, done: Seq<Seq<char>>) -> bool {
    forall|i: int, b: Seq<char>|
        0 <= i < done.len() && #[trigger] calls(g, done[i], b) ==> done.take(i).contains(b)
}

spec fn extends(a: Seq<Seq<char>>, b: Seq<Seq<char>>) -> bool {
    a.len() <= b.len() && b.take(a.len() as int) == a
}

proof fn lemma_extends_contains(a: Seq<Seq<char>>, b: Seq<Seq<char>>)
    requires
        extends(a, b),
    ensures
        forall|x: Seq<char>| a.contains(x) ==> b.contains(x),
{
    assert forall|x: Seq<char>| a.contains(x) implies b.contains(x) by {
        let i = choose|i: int| 0 <= i < a.len() && a[i] == x;
        assert(b.take(a.len() as int)[i] == b[i]);
    }
}

proof fn lemma_extends_transitive(a: Seq<Seq<char>>, b: Seq<Seq<char>>, c: Seq<Seq<char>>)
    requires
        extends(a, b),
        extends(b, c),
    ensures
        extends(a, c),
{
    assert(c.take(a.len() as int) =~= c.take(b.len() as int).take(a.len() as int));
}

proof fn lemma_searched_complete(g: Nodes, node: Seq<char>, path: Seq<Seq<char>>, st: Search)
    requires
        path_ok(g, path),
        !path.contains(node),
        path.len() > 0 ==> calls(g, path.last(), node),
        settled(g, st.finished),
    ensures
        searched(g, node, path, st).cycles.len() >= st.cycles.len(),
        extends(st.finished, searched(g, node, path, st).finished),
        searched(g, node, path, st).finished.contains(node),
        searched(g, node, path, st).cycles.len() == 0 ==> settled(
            g,
            searched(g, node, path, st).finished,
        ),
    decreases g.len() + 1 - path.len(), 0nat,
{
    lemma_path_push(g, path, node);
    let list = callees(g, node);
    let mid = searched_calls(g, path.push(node), list, list.len(), st);
    if list.len() > 0 {
        lemma_searched_calls_complete(g, path.push(node), list, list.len(), st);
    } else {
        assert(st.finished.take(st.finished.len() as int) =~= st.finished);
    }
    let end = searched(g, node, path, st);
    assert(end.finished == mid.finished.push(node));
    assert(end.finished.take(mid.finished.len() as int) =~= mid.finished);
    lemma_extends_transitive(st.finished, mid.finished, end.finished);
    assert(end.finished[mid.finished.len() as int] == node);
    if end.cycles.len() == 0 {
        assert forall|i: int, b: Seq<char>|
            0 <= i < end.finished.len() && #[trigger] calls(
                g,
                end.finished[i],
                b,
            ) implies end.finished.take(i).contains(b) by {
            if i < mid.finished.len() {
                assert(calls(g, mid.finished[i], b));
                assert(end.finished.take(i) =~= mid.finished.take(i));
            } else {
                assert(end.finished.take(i) =~= mid.finished);
                let k = choose|k: int| 0 <= k < list.len() && list[k] == b;
                assert(mid.finished.contains(list[k]));
            }
        }
    }
}

proof fn lemma_searched_calls_complete(
    g: Nodes,
    path: Seq<Seq<char>>,
    list: Seq<Seq<char>>,
    n: nat,
    st: Search,
)
    requires
        path.len() > 0,
        path_ok(g, path),
        path.len() <= g.len(),
        list == callees(g, path.last()),
        n <= list.len(),
        settled(g, st.finished),
    ensures
        searched_calls(g, path, list, n, st).cycles.len() >= st.cycles.len(),
        extends(st.finished, searched_calls(g, path, list, n, st).finished),
        searched_calls(g, path, list, n, st).cycles.len() == 0 ==> settled(
            g,
            searched_calls(g, path, list, n, st).finished,
        ) && forall|k: int|
            0 <= k < n ==> searched_calls(g, path, list, n, st).finished.contains(
                #[trigger] list[k],
            ),
    decreases g.len() + 1 - path.len(), n,
{
    if n == 0 {
        assert(st.finished.take(st.finished.len() as int) =~= st.finished);
    } else {
        lemma_searched_calls_complete(g, path, list, (n - 1) as nat, st);
        let mid = searched_calls(g, path, list, (n - 1) as nat, st);
        let end = searched_calls(g, path, list, n, st);
        let next = list[n - 1];
        assert(calls(g, path.last(), next));
        if path.contains(next) {
        } else if !mid.finished.contains(next) {
            if mid.cycles.len() == 0 {
                lemma_searched_complete(g, next, path, mid);
            } else {
                lemma_searched_grows(g, next, path, mid);
            }
            lemma_extends_transitive(st.finished, mid.finished, end.finished);
            lemma_extends_contains(mid.finished, end.finished);
        }
    }
}

proof fn lemma_searched_grows(g: Nodes, node: Seq<char>, path: Seq<Seq<char>>, st: Search)
    requires
        path_ok(g, path),
        !path.contains(node),
        path.len() > 0 ==> calls(g, path.last(), node),
    ensures
        searched(g, node, path, st).cycles.len() >= st.cycles.len(),
        extends(st.finished, searched(g, node, path, st).finished),
        searched(g, node, path, st).finished.contains(node),
    decreases g.len() + 1 - path.len(), 0nat,
{
    lemma_path_push(g, path, node);
    let list = callees(g, node);
    let mid = searched_calls(g, path.push(node), list, list.len(), st);
    if list.len() > 0 {
        lemma_searched_calls_grow(g, path.push(node), list, list.len(), st);
    } else {
        assert(st.finished.take(st.finished.len() as int) =~= st.finished);
    }
    let end = searched(g, node, path, st);
    assert(end.finished.take(mid.finished.len() as int) =~= mid.finished);
    lemma_extends_transitive(st.finished, mid.finished, end.finished);
    assert(end.finished[mid.finished.len() as int] == node);
}

proof fn lemma_searched_calls_grow(
    g: Nodes,
    path: Seq<Seq<char>>,
    list: Seq<Seq<char>>,
    n: nat,
    st: Search,
)
    requires
        path.len() > 0,
        path_ok(g, path),
        path.len() <= g.len(),
        list == callees(g, path.last()),
        n <= list.len(),
    ensures
        searched_calls(g, path, list, n, st).cycles.len() >= st.cycles.len(),
        extends(st.finished, searched_calls(g, path, list, n, st).finished),
    decreases g.len() + 1 - path.len(), n,
{
    if n == 0 {
        assert(st.finished.take(st.finished.len() as int) =~= st.finished);
    } else {
        lemma_searched_calls_grow(g, path, list, (n - 1) as nat, st);
        let mid = searched_calls(g, path, list, (n - 1) as nat, st);
        let end = searched_calls(g, path, list, n, st);
        let next = list[n - 1];
        assert(calls(g, path.last(), next));
        if path.contains(next) {
        } else if !mid.finished.contains(next) {
            lemma_searched_grows(g, next, path, mid);
            lemma_extends_transitive(st.finished, mid.finished, end.finished);
        }
    }
}

proof fn lemma_searched_nodes_complete(g: Nodes, n: nat)
    requires
        n <= g.len(),
        searched_nodes(g, n).cycles.len() == 0,
    ensures
        settled(g, searched_nodes(g, n).finished),
        forall|i: int|
            0 <= i < n ==> searched_nodes(g, n).finished.contains((#[trigger] g[i]).0),
    decreases n,
{
    if n > 0 {
        let st = searched_nodes(g, (n - 1) as nat);
        let name = g[n - 1].0;
        if !st.finished.contains(name) {
            lemma_searched_grows(g, name, Seq::empty(), st);
        }
        lemma_searched_nodes_complete(g, (n - 1) as nat);
        if !st.finished.contains(name) {
            lemma_searched_complete(g, name, Seq::empty(), st);
            lemma_extends_contains(st.finished, searched_nodes(g, n).finished);
        }
    }
}

proof fn lemma_walk_descends(g: Nodes, done: Seq<Seq<char>>, p: Seq<Seq<char>>, i: int, k: int)
    requires
        settled(g, done),
        is_walk(g, p),
        0 <= i < done.len(),
        done[i] == p[0],
        1 <= k < p.len(),
    ensures
        done.take(i).contains(p[k]),
    decreases k,
{
    if k == 1 {
        assert(calls(g, p[0], p[1]));
        assert(calls(g, done[i], p[1]));
    } else {
        lemma_walk_descends(g, done, p, i, k - 1);
        let j = choose|j: int| 0 <= j < i && done.take(i)[j] == p[k - 1];
        assert(done[j] == p[k - 1]);
        assert(calls(g, p[k - 1], p[k]));
        assert(calls(g, done[j], p[k]));
        assert(done.take(j).contains(p[k]));
        let m = choose|m: int| 0 <= m < j && done.take(j)[m] == p[k];
        assert(done.take(i)[m] == p[k]);
    }
}

/// The search finds a cycle if and only if some function can come to be called by itself.
pub proof fn lemma_found_iff_recursive(g: Nodes)
    ensures
        cycles_of(g).len() == 0 <==> no_recursion(g),
{
    lemma_cycles_are_cycles(g);
    if cycles_of(g).len() > 0 {
        assert(is_cycle(g, cycles_of(g)[0]));
    } else {
        lemma_searched_nodes_complete(g, g.len());
        let done = searched_nodes(g, g.len()).finished;
        assert forall|p: Seq<Seq<char>>| !#[trigger] is_cycle(g, p) by {
            if is_cycle(g, p) {
                assert(calls(g, p[0], p[1]));
                lemma_node_from(g, p[0], 0);
                assert(done.contains(g[node_at(g, p[0])].0));
                lemma_first_index(done, p[0]);
                let i = first_index(done, p[0]);
                lemma_walk_descends(g, done, p, i, p.len() - 1);
                let j = choose|j: int| 0 <= j < i && done.take(i)[j] == p.last();
                assert(done[j] == p[0]);
            }
        }
    }
}

} // verus!
