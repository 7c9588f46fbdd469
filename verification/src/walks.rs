//! Walks through a call graph: what can be reached, and what calls itself.

use crate::call_graph::{callees, calls, is_node, lemma_node_from, node_at, CallGraph, Nodes};
use crate::text::{copy_of, has_name};
use vstd::prelude::*;

verus! {

/// Whether each name in `p` calls the next.
pub open spec fn is_walk(g: Nodes, p: Seq<Seq<char>>) -> bool {
    p.len() > 0 && forall|i: int|
        #![trigger p[i]]
        0 <= i < p.len() - 1 ==> calls(g, p[i], p[i + 1])
}

/// Whether a walk leads from `a` to `b`.
pub open spec fn reaches(g: Nodes, a: Seq<char>, b: Seq<char>) -> bool {
    exists|p: Seq<Seq<char>>| #[trigger] is_walk(g, p) && p[0] == a && p.last() == b
}

/// Whether `x` can be reached from one of the entry points that the graph has.
pub open spec fn reachable(g: Nodes, entries: Seq<Seq<char>>, x: Seq<char>) -> bool {
    exists|e: Seq<char>| entries.contains(e) && is_node(g, e) && #[trigger] reaches(g, e, x)
}

/// Whether `p` leads from a function back to itself.
pub open spec fn is_cycle(g: Nodes, p: Seq<Seq<char>>) -> bool {
    is_walk(g, p) && p.len() >= 2 && p[0] == p.last()
}

/// Whether no function can come to be called by itself.
pub open spec fn no_recursion(g: Nodes) -> bool {
    forall|p: Seq<Seq<char>>| !#[trigger] is_cycle(g, p)
}

/// Whether no function that can be reached from `x` can come to be called by itself.
pub open spec fn no_recursion_from(g: Nodes, x: Seq<char>) -> bool {
    forall|p: Seq<Seq<char>>| #[trigger] is_cycle(g, p) ==> !reaches(g, x, p[0])
}

pub proof fn lemma_walk_one(g: Nodes, a: Seq<char>)
    ensures
        is_walk(g, seq![a]),
        reaches(g, a, a),
{
    let p = seq![a];
    assert(is_walk(g, p) && p[0] == a && p.last() == a);
}

pub proof fn lemma_walk_push(g: Nodes, p: Seq<Seq<char>>, b: Seq<char>)
    requires
        is_walk(g, p),
        calls(g, p.last(), b),
    ensures
        is_walk(g, p.push(b)),
{
    let q = p.push(b);
    assert forall|i: int| #![trigger q[i]] 0 <= i < q.len() - 1 implies calls(
        g,
        q[i],
        q[i + 1],
    ) by {
        if i < p.len() - 1 {
            assert(calls(g, p[i], p[i + 1]));
        }
    }
}

pub proof fn lemma_walk_skip(g: Nodes, p: Seq<Seq<char>>, k: int)
    requires
        is_walk(g, p),
        0 <= k < p.len(),
    ensures
        is_walk(g, p.skip(k)),
        p.skip(k).last() == p.last(),
        p.skip(k)[0] == p[k],
{
    let q = p.skip(k);
    assert forall|i: int| #![trigger q[i]] 0 <= i < q.len() - 1 implies calls(
        g,
        q[i],
        q[i + 1],
    ) by {
        assert(calls(g, p[k + i], p[k + i + 1]));
    }
}

pub proof fn lemma_reaches_more(g: Nodes, a: Seq<char>, b: Seq<char>, c: Seq<char>)
    requires
        reaches(g, a, b),
        calls(g, b, c),
    ensures
        reaches(g, a, c),
{
    let p = choose|p: Seq<Seq<char>>| #[trigger] is_walk(g, p) && p[0] == a && p.last() == b;
    lemma_walk_push(g, p, c);
    let q = p.push(c);
    assert(is_walk(g, q) && q[0] == a && q.last() == c);
}

// ---------------------------------------------------------------------------
// Reachability
// ---------------------------------------------------------------------------

/// The names that the first `n` functions call.
pub open spec fn called_names(g: Nodes, n: nat) -> Set<Seq<char>>
    decreases n,
{
    if n == 0 {
        Set::empty()
    } else {
        called_names(g, (n - 1) as nat).union(g[n - 1].1.to_set())
    }
}

proof fn lemma_called_names(g: Nodes, n: nat)
    requires
        n <= g.len(),
    ensures
        called_names(g, n).finite(),
        forall|i: int, x: Seq<char>|
            0 <= i < n && (#[trigger] g[i]).1.contains(x) ==> #[trigger] called_names(
                g,
                n,
            ).contains(x),
    decreases n,
{
    if n > 0 {
        lemma_called_names(g, (n - 1) as nat);
        assert(g[n - 1].1.to_set().finite());
    }
}

proof fn lemma_called_name(g: Nodes, a: Seq<char>, b: Seq<char>)
    requires
        calls(g, a, b),
    ensures
        called_names(g, g.len()).contains(b),
{
    lemma_called_names(g, g.len());
    lemma_node_from(g, a, 0);
    assert(g[node_at(g, a)].1.contains(b));
}

/// Whether the names in `done` and `open` contain the entry points and, for every name in
/// `done`, what it calls.
spec fn closed(g: Nodes, entries: Seq<Seq<char>>, done: Seq<Seq<char>>, open: Seq<Seq<char>>) -> bool {
    &&& forall|e: Seq<char>|
        entries.contains(e) && #[trigger] is_node(g, e) ==> done.contains(e) || open.contains(e)
    &&& forall|a: Seq<char>, b: Seq<char>|
        done.contains(a) && #[trigger] calls(g, a, b) ==> done.contains(b) || open.contains(b)
}

proof fn lemma_walk_stays(
    g: Nodes,
    entries: Seq<Seq<char>>,
    done: Seq<Seq<char>>,
    p: Seq<Seq<char>>,
    k: int,
)
    requires
        closed(g, entries, done, Seq::empty()),
        is_walk(g, p),
        done.contains(p[0]),
        0 <= k < p.len(),
    ensures
        done.contains(p[k]),
    decreases k,
{
    if k > 0 {
        lemma_walk_stays(g, entries, done, p, k - 1);
        assert(calls(g, p[k - 1], p[k]));
        assert(!Seq::<Seq<char>>::empty().contains(p[k]));
    }
}

proof fn lemma_distinct_fits(s: Seq<Seq<char>>, u: Set<Seq<char>>)
    requires
        s.no_duplicates(),
        u.finite(),
        forall|x: Seq<char>| s.contains(x) ==> u.contains(x),
    ensures
        s.len() <= u.len(),
{
    s.unique_seq_to_set();
    assert(s.to_set().subset_of(u)) by {
        assert forall|x: Seq<char>| s.to_set().contains(x) implies u.contains(x) by {
            assert(s.contains(x));
        }
    }
    vstd::set_lib::lemma_len_subset(s.to_set(), u);
}

/// The functions that can be reached from the entry points that the graph has.
pub fn collect_reachable(entries: &Vec<String>, g: &CallGraph) -> (out: Vec<String>)
    ensures
        out.deep_view().no_duplicates(),
        forall|x: Seq<char>|
            out.deep_view().contains(x) <==> reachable(g@, entries.deep_view(), x),
{
    let ghost from = entries.deep_view();
    let mut open: Vec<String> = Vec::new();
    assert(open.deep_view() =~= Seq::<Seq<char>>::empty());
    let mut i: usize = 0;
    while i < entries.len()
        invariant
            i <= entries@.len(),
            from == entries.deep_view(),
            forall|x: Seq<char>|
                open.deep_view().contains(x) ==> #[trigger] from.contains(x) && is_node(g@, x),
            forall|k: int|
                0 <= k < i && is_node(g@, from[k]) ==> open.deep_view().contains(
                    #[trigger] from[k],
                ),
        decreases entries@.len() - i,
    {
        if g.contains(entries[i].as_str()) {
            let ghost before = open.deep_view();
            let e = copy_of(entries[i].as_str());
            open.push(e);
            proof {
                let now = open.deep_view();
                assert(now =~= before.push(from[i as int]));
                assert(now[now.len() - 1] == from[i as int]);
                assert forall|x: Seq<char>| now.contains(x) implies #[trigger] from.contains(x)
                    && is_node(g@, x) by {
                    let j = choose|j: int| 0 <= j < now.len() && now[j] == x;
                    if j < before.len() {
                        assert(before[j] == x);
                    }
                }
                assert forall|k: int| 0 <= k < i + 1 && is_node(g@, from[k]) implies now.contains(
                    #[trigger] from[k],
                ) by {
                    if k < i {
                        assert(before.contains(from[k]));
                        let j = choose|j: int| 0 <= j < before.len() && before[j] == from[k];
                        assert(now[j] == from[k]);
                    }
                }
            }
        }
        i += 1;
    }
    let mut out: Vec<String> = Vec::new();
    let ghost names = from.to_set().union(called_names(g@, g@.len()));
    proof {
        lemma_called_names(g@, g@.len());
        assert(out.deep_view() =~= Seq::<Seq<char>>::empty());
        assert forall|x: Seq<char>| open.deep_view().contains(x) implies names.contains(x)
            && #[trigger] reachable(g@, from, x) by {
            assert(from.contains(x));
            lemma_walk_one(g@, x);
        }
        assert forall|e: Seq<char>| from.contains(e) && #[trigger] is_node(g@, e) implies open
            .deep_view().contains(e) by {
            let k = choose|k: int| 0 <= k < from.len() && from[k] == e;
            assert(open.deep_view().contains(from[k]));
        }
    }
    while open.len() > 0
        invariant
            names.finite(),
            names == from.to_set().union(called_names(g@, g@.len())),
            out.deep_view().no_duplicates(),
            forall|x: Seq<char>| out.deep_view().contains(x) ==> names.contains(x),
            forall|x: Seq<char>| open.deep_view().contains(x) ==> names.contains(x),
            forall|x: Seq<char>|
                out.deep_view().contains(x) ==> #[trigger] reachable(g@, from, x),
            forall|x: Seq<char>|
                open.deep_view().contains(x) ==> #[trigger] reachable(g@, from, x),
            closed(g@, from, out.deep_view(), open.deep_view()),
        decreases names.len() - out@.len(), open@.len(),
    {
        let ghost open0 = open.deep_view();
        let ghost out0 = out.deep_view();
        let node = match open.pop() {
            Some(n) => n,
            None => {
                return out;
            },
        };
        proof {
            assert(open.deep_view() =~= open0.drop_last());
            assert(open0.last() == node@);
            assert(open0.contains(node@));
            assert forall|x: Seq<char>| open0.contains(x) implies open.deep_view().contains(x) || x
                == node@ by {
                let j = choose|j: int| 0 <= j < open0.len() && open0[j] == x;
                if j < open0.len() - 1 {
                    assert(open.deep_view()[j] == x);
                }
            }
            assert forall|x: Seq<char>| open.deep_view().contains(x) implies open0.contains(x) by {
                let j = choose|j: int|
                    0 <= j < open.deep_view().len() && open.deep_view()[j] == x;
                assert(open0[j] == x);
            }
        }
        if !has_name(&out, node.as_str()) {
            let ghost rest = open.deep_view();
            match g.find(node.as_str()) {
                Some(at) => {
                    let list = &g.nodes[at].callees;
                    let ghost called = list.deep_view();
                    let mut k: usize = 0;
                    assert forall|x: Seq<char>| rest.contains(x) implies open.deep_view().contains(
                        x,
                    ) by {}
                    while k < list.len()
                        invariant
                            k <= list@.len(),
                            called == list.deep_view(),
                            called == callees(g@, node@),
                            reachable(g@, from, node@),
                            out.deep_view() == out0,
                            names == from.to_set().union(called_names(g@, g@.len())),
                            forall|x: Seq<char>| rest.contains(x) ==> open.deep_view().contains(x),
                            forall|x: Seq<char>|
                                open.deep_view().contains(x) ==> names.contains(x),
                            forall|x: Seq<char>|
                                open.deep_view().contains(x) ==> #[trigger] reachable(g@, from, x),
                            forall|j: int|
                                0 <= j < k ==> open.deep_view().contains(#[trigger] called[j])
                                    || out0.contains(called[j]),
                        decreases list@.len() - k,
                    {
                        if !has_name(&out, list[k].as_str()) {
                            let ghost was = open.deep_view();
                            let c = copy_of(list[k].as_str());
                            open.push(c);
                            proof {
                                let now = open.deep_view();
                                assert(now =~= was.push(called[k as int]));
                                assert(now[now.len() - 1] == called[k as int]);
                                assert(calls(g@, node@, called[k as int]));
                                lemma_called_name(g@, node@, called[k as int]);
                                let e = choose|e: Seq<char>|
                                    from.contains(e) && is_node(g@, e) && #[trigger] reaches(
                                        g@,
                                        e,
                                        node@,
                                    );
                                lemma_reaches_more(g@, e, node@, called[k as int]);
                                assert(reachable(g@, from, called[k as int]));
                                assert forall|x: Seq<char>| was.contains(x) implies now.contains(
                                    x,
                                ) by {
                                    let j = choose|j: int| 0 <= j < was.len() && was[j] == x;
                                    assert(now[j] == x);
                                }
                                assert forall|x: Seq<char>| now.contains(x) implies was.contains(x)
                                    || x == called[k as int] by {
                                    let j = choose|j: int| 0 <= j < now.len() && now[j] == x;
                                    if j < was.len() {
                                        assert(was[j] == x);
                                    }
                                }
                            }
                        }
                        k += 1;
                    }
                },
                None => {},
            }
            out.push(node);
            proof {
                let now = out.deep_view();
                assert(now =~= out0.push(node@));
                assert(now[now.len() - 1] == node@);
                assert forall|x: Seq<char>| out0.contains(x) implies now.contains(x) by {
                    let j = choose|j: int| 0 <= j < out0.len() && out0[j] == x;
                    assert(now[j] == x);
                }
                assert forall|x: Seq<char>| now.contains(x) implies out0.contains(x) || x
                    == node@ by {
                    let j = choose|j: int| 0 <= j < now.len() && now[j] == x;
                    if j < out0.len() {
                        assert(out0[j] == x);
                    }
                }
                assert(now.no_duplicates()) by {
                    assert forall|i: int, j: int|
                        0 <= i < now.len() && 0 <= j < now.len() && i != j implies now[i]
                        != now[j] by {
                        if i == out0.len() {
                            assert(out0[j] == now[j]);
                            assert(out0.contains(out0[j]));
                        } else if j == out0.len() {
                            assert(out0[i] == now[i]);
                            assert(out0.contains(out0[i]));
                        } else {
                            assert(out0[i] == now[i] && out0[j] == now[j]);
                        }
                    }
                }
                assert forall|a: Seq<char>, b: Seq<char>|
                    now.contains(a) && #[trigger] calls(g@, a, b) implies now.contains(b)
                    || open.deep_view().contains(b) by {
                    if a == node@ && !out0.contains(a) {
                        let list = callees(g@, node@);
                        let j = choose|j: int| 0 <= j < list.len() && list[j] == b;
                        assert(open.deep_view().contains(list[j]) || out0.contains(list[j]));
                    }
                }
                lemma_distinct_fits(now, names);
            }
        }
    }
    proof {
        assert(open.deep_view() =~= Seq::<Seq<char>>::empty());
        assert forall|x: Seq<char>| reachable(g@, from, x) implies out.deep_view().contains(x) by {
            let e = choose|e: Seq<char>|
                from.contains(e) && is_node(g@, e) && #[trigger] reaches(g@, e, x);
            let p = choose|p: Seq<Seq<char>>|
                #[trigger] is_walk(g@, p) && p[0] == e && p.last() == x;
            lemma_walk_stays(g@, from, out.deep_view(), p, p.len() - 1);
        }
    }
    out
}

} // verus!
