//! How much stack a program needs: frame sizes, and the deepest chain of calls.

use crate::call_graph::{callees, calls, is_node, CallGraph, Nodes};
use crate::recursion::lemma_path_fits;
use crate::table::{
    get, has_key, lemma_get_put, lemma_mapped, lemma_position, mapped, put, Entries, Table,
};
use crate::text::{
    after_prefix, begins, chars_of, copy_of, cut, ends_with, find, find_from, finishes, has_name,
    hex_or_dec_of, lemma_find_from, lines, lines_of, parse_hex_or_dec, same, starts_with, string_of,
    texts, trim, trimmed,
};
use crate::walks::{
    is_cycle, is_walk, lemma_reaches_more, lemma_walk_one, lemma_walk_push, lemma_walk_skip,
    no_recursion_from, reaches,
};
use vstd::prelude::*;

verus! {

// ---------------------------------------------------------------------------
// Frame sizes
// ---------------------------------------------------------------------------

/// The name in `Functions: [name]`, after the opening bracket.
pub open spec fn listed_name(rest: Seq<char>) -> Seq<char> {
    if ends_with(rest, "]"@) {
        rest.drop_last()
    } else {
        rest
    }
}

/// The function that the next size belongs to, and the sizes so far.
pub open spec fn after_size_line(st: (Seq<char>, Entries<u64>), raw: Seq<char>) -> (
    Seq<char>,
    Entries<u64>,
) {
    let line = trimmed(raw);
    if starts_with(line, "Functions: ["@) {
        (listed_name(line.skip(12)), st.1)
    } else if starts_with(line, "Size: "@) {
        match hex_or_dec_of(line.skip(6)) {
            Some(n) => (st.0, put(st.1, st.0, n as u64)),
            None => st,
        }
    } else {
        st
    }
}

/// What the first `n` lines of a listing of frame sizes say.
pub open spec fn size_lines(lines: Seq<Seq<char>>, n: nat) -> (Seq<char>, Entries<u64>)
    decreases n,
{
    if n == 0 {
        (Seq::empty(), Seq::empty())
    } else {
        after_size_line(size_lines(lines, (n - 1) as nat), lines[n - 1])
    }
}

/// The frame sizes that a listing holds.
pub open spec fn sizes_of(listing: Seq<char>) -> Entries<u64> {
    size_lines(lines_of(listing), lines_of(listing).len()).1
}

/// Reads a listing of frame sizes.
pub fn parse_stack_sizes(listing: &str) -> (sizes: Table<u64>)
    ensures
        sizes@ == sizes_of(listing@),
{
    let text = chars_of(listing);
    let all = lines(&text);
    let mut current = String::new();
    let mut sizes: Table<u64> = Table::new();
    proof {
        reveal_strlit("Functions: [");
        reveal_strlit("Size: ");
        reveal_strlit("]");
    }
    let mut i: usize = 0;
    while i < all.len()
        invariant
            "Functions: ["@.len() == 12,
            "Size: "@.len() == 6,
            "]"@.len() == 1,
            i <= all@.len(),
            (current@, sizes@) == size_lines(texts(all@), i as nat),
        decreases all@.len() - i,
    {
        assert(texts(all@)[i as int] == all@[i as int]@);
        let line = trim(&all[i]);
        match after_prefix(&line, "Functions: [") {
            Some(rest) => {
                if finishes(&rest, "]") {
                    let name = cut(&rest, 0, rest.len() - 1);
                    assert(name@ =~= rest@.drop_last());
                    current = string_of(&name);
                } else {
                    current = string_of(&rest);
                }
            },
            None => match after_prefix(&line, "Size: ") {
                Some(rest) => match parse_hex_or_dec(&rest) {
                    Some(n) => {
                        let name = copy_of(current.as_str());
                        sizes.put(name, n);
                    },
                    None => {},
                },
                None => {},
            },
        }
        i += 1;
    }
    sizes
}

/// A name without the suffix ` (.llvm.NNN)` that marks a compiler-made copy.
pub open spec fn base_name(name: Seq<char>) -> Seq<char> {
    let k = find_from(name, " (.llvm."@, 0);
    if k >= 0 {
        name.take(k)
    } else {
        name
    }
}

/// A name without the suffix ` (.llvm.NNN)` that marks a compiler-made copy.
pub fn strip_llvm_suffix(name: &Vec<char>) -> (out: Vec<char>)
    ensures
        out@ == base_name(name@),
{
    proof {
        lemma_find_from(name@, " (.llvm."@, 0);
    }
    match find(name, " (.llvm.") {
        Some(k) => {
            assert(name@.subrange(0, k as int) =~= name@.take(k as int));
            cut(name, 0, k)
        },
        None => {
            assert(name@.subrange(0, name@.len() as int) =~= name@);
            cut(name, 0, name.len())
        },
    }
}

/// Whether `name` is an instance `key::<..>` of the generic function `key`.
pub open spec fn is_instance(name: Seq<char>, key: Seq<char>) -> bool {
    starts_with(name, key) && starts_with(name.skip(key.len() as int), "::<"@)
}

/// Whether `key` ends in `*` and `name` starts with what stands before it.
pub open spec fn matches_wildcard(name: Seq<char>, key: Seq<char>) -> bool {
    ends_with(key, "*"@) && starts_with(name, key.drop_last())
}

/// The size under the first key, from `i` on, of which `name` is an instance.
pub open spec fn instance_size(t: Entries<u64>, name: Seq<char>, i: int) -> Option<u64>
    decreases t.len() - i,
{
    if i < 0 || i >= t.len() {
        None
    } else if is_instance(name, t[i].0) {
        Some(t[i].1)
    } else {
        instance_size(t, name, i + 1)
    }
}

/// The size under the first key, from `i` on, whose `*` covers `name`.
pub open spec fn wildcard_size(t: Entries<u64>, name: Seq<char>, i: int) -> Option<u64>
    decreases t.len() - i,
{
    if i < 0 || i >= t.len() {
        None
    } else if matches_wildcard(name, t[i].0) {
        Some(t[i].1)
    } else {
        wildcard_size(t, name, i + 1)
    }
}

/// The frame size of a function: under its name, under its base name, under the generic
/// function that it is an instance of, or under a key with `*`.
pub open spec fn frame(t: Entries<u64>, name: Seq<char>) -> Option<u64> {
    if has_key(t, name) {
        get(t, name)
    } else if has_key(t, base_name(name)) {
        get(t, base_name(name))
    } else if instance_size(t, name, 0) is Some {
        instance_size(t, name, 0)
    } else {
        wildcard_size(t, name, 0)
    }
}

/// Whether `name` starts with `prefix`.
pub fn begins_with(name: &Vec<char>, prefix: &Vec<char>) -> (r: bool)
    ensures
        r == starts_with(name@, prefix@),
{
    if prefix.len() > name.len() {
        return false;
    }
    let head = cut(name, 0, prefix.len());
    assert(head@ =~= name@.take(prefix@.len() as int));
    same(&head, prefix)
}

/// Whether `name` is an instance `key::<..>` of the generic function `key`.
pub fn instance_of(name: &Vec<char>, key: &Vec<char>) -> (r: bool)
    ensures
        r == is_instance(name@, key@),
{
    if !begins_with(name, key) {
        return false;
    }
    let rest = cut(name, key.len(), name.len());
    assert(rest@ =~= name@.skip(key@.len() as int));
    begins(&rest, "::<")
}

/// Whether `key` ends in `*` and `name` starts with what stands before it.
pub fn covered_by(name: &Vec<char>, key: &Vec<char>) -> (r: bool)
    ensures
        r == matches_wildcard(name@, key@),
{
    if !finishes(key, "*") {
        return false;
    }
    proof {
        reveal_strlit("*");
        assert("*"@.len() == 1);
    }
    let prefix = cut(key, 0, key.len() - 1);
    assert(prefix@ =~= key@.drop_last());
    begins_with(name, &prefix)
}

/// The frame size of a function.
pub fn lookup_stack_size(name: &str, sizes: &Table<u64>) -> (r: Option<u64>)
    ensures
        r == frame(sizes@, name@),
{
    match sizes.find(name) {
        Some(i) => {
            return Some(sizes.entries[i].1);
        },
        None => {},
    }
    let chars = chars_of(name);
    let base = string_of(&strip_llvm_suffix(&chars));
    match sizes.find(base.as_str()) {
        Some(i) => {
            return Some(sizes.entries[i].1);
        },
        None => {},
    }
    let mut i: usize = 0;
    while i < sizes.entries.len()
        invariant
            chars@ == name@,
            i <= sizes.entries@.len(),
            !has_key(sizes@, name@),
            !has_key(sizes@, base_name(name@)),
            instance_size(sizes@, name@, 0) == instance_size(sizes@, name@, i as int),
        decreases sizes.entries@.len() - i,
    {
        let key = chars_of(sizes.entries[i].0.as_str());
        assert(sizes@[i as int] == (key@, sizes.entries@[i as int].1));
        if instance_of(&chars, &key) {
            return Some(sizes.entries[i].1);
        }
        i += 1;
    }
    let mut j: usize = 0;
    while j < sizes.entries.len()
        invariant
            chars@ == name@,
            j <= sizes.entries@.len(),
            !has_key(sizes@, name@),
            !has_key(sizes@, base_name(name@)),
            instance_size(sizes@, name@, 0) is None,
            wildcard_size(sizes@, name@, 0) == wildcard_size(sizes@, name@, j as int),
        decreases sizes.entries@.len() - j,
    {
        let key = chars_of(sizes.entries[j].0.as_str());
        assert(sizes@[j as int] == (key@, sizes.entries@[j as int].1));
        if covered_by(&chars, &key) {
            return Some(sizes.entries[j].1);
        }
        j += 1;
    }
    None
}

// ---------------------------------------------------------------------------
// The deepest chain of calls
// ---------------------------------------------------------------------------

/// The frame size of a function, or nothing where it is not known.
pub open spec fn frame_or_zero(t: Entries<u64>, name: Seq<char>) -> nat {
    match frame(t, name) {
        Some(n) => n as nat,
        None => 0,
    }
}

/// The depth of `name`, where the functions in `busy` are being computed and count as
/// nothing, together with the depths then known.
pub open spec fn depth(
    g: Nodes,
    t: Entries<u64>,
    name: Seq<char>,
    known: Entries<nat>,
    busy: Seq<Seq<char>>,
) -> (nat, Entries<nat>)
    decreases g.len() + 1 - busy.len(), 0nat,
    when busy.len() <= g.len()
{
    if has_key(known, name) {
        (get(known, name)->0, known)
    } else if busy.contains(name) {
        (0, known)
    } else {
        let list = callees(g, name);
        let (below, more) = deepest_of(g, t, list, list.len(), known, busy.push(name));
        let total = frame_or_zero(t, name) + below;
        (total, put(more, name, total))
    }
}

/// The greatest depth among the first `n` functions of `list`, together with the depths
/// then known.
pub open spec fn deepest_of(
    g: Nodes,
    t: Entries<u64>,
    list: Seq<Seq<char>>,
    n: nat,
    known: Entries<nat>,
    busy: Seq<Seq<char>>,
) -> (nat, Entries<nat>)
    decreases g.len() + 1 - busy.len(), n,
    when busy.len() <= g.len() + 1
{
    if n == 0 {
        (0, known)
    } else {
        let (head, known) = deepest_of(g, t, list, (n - 1) as nat, known, busy);
        let (last, known) = depth(g, t, list[n - 1], known, busy);
        (if head < last { last } else { head }, known)
    }
}

/// The depth of an entry point.
pub open spec fn depth_from(g: Nodes, t: Entries<u64>, entry: Seq<char>) -> nat {
    depth(g, t, entry, Seq::empty(), Seq::empty()).0
}

/// Depths as numbers without bound.
pub open spec fn known_depths(memo: Table<u128>) -> Entries<nat> {
    mapped(memo@, |d: u128| d as nat)
}

spec fn bounded(memo: Entries<u128>) -> bool {
    forall|i: int| 0 <= i < memo.len() ==> (#[trigger] memo[i]).1 <= (i + 1) * u64::MAX
}

spec fn unknown(memo: Entries<u128>, busy: Seq<Seq<char>>) -> bool {
    forall|x: Seq<char>| busy.contains(x) ==> !#[trigger] has_key(memo, x)
}

proof fn lemma_known_get(memo: Table<u128>, name: Seq<char>)
    ensures
        has_key(known_depths(memo), name) == has_key(memo@, name),
        has_key(memo@, name) ==> get(known_depths(memo), name) == Some(get(memo@, name)->0 as nat),
{
    lemma_mapped(memo@, |d: u128| d as nat, name, 0u128);
    lemma_position(memo@, name, 0);
}

fn compute_depth(
    node: &str,
    g: &CallGraph,
    sizes: &Table<u64>,
    memo: &mut Table<u128>,
    busy: &mut Vec<String>,
) -> (d: u128)
    requires
        old(busy).deep_view().no_duplicates(),
        forall|i: int|
            0 <= i < old(busy).deep_view().len() ==> is_node(
                g@,
                #[trigger] old(busy).deep_view()[i],
            ),
        bounded(old(memo)@),
        unknown(old(memo)@, old(busy).deep_view()),
    ensures
        final(busy).deep_view() == old(busy).deep_view(),
        (d as nat, known_depths(*final(memo))) == depth(
            g@,
            sizes@,
            node@,
            known_depths(*old(memo)),
            old(busy).deep_view(),
        ),
        bounded(final(memo)@),
        unknown(final(memo)@, old(busy).deep_view()),
        final(memo)@.len() >= old(memo)@.len(),
        d <= final(memo)@.len() * u64::MAX,
    decreases g@.len() + 1 - old(busy)@.len(),
{
    let ghost b0 = busy.deep_view();
    let ghost memo0 = memo@;
    proof {
        lemma_path_fits(g@, b0);
        lemma_known_get(*memo, node@);
    }
    match memo.find(node) {
        Some(i) => {
            proof {
                assert(memo@[i as int].1 <= (i + 1) * u64::MAX);
                assert((i + 1) * u64::MAX <= memo@.len() * u64::MAX) by (nonlinear_arith)
                    requires
                        i + 1 <= memo@.len(),
                ;
            }
            return memo.entries[i].1;
        },
        None => {},
    }
    if has_name(busy, node) {
        assert(0 <= memo@.len() * u64::MAX) by (nonlinear_arith);
        return 0;
    }
    let ghost called = callees(g@, node@);
    let mut below: u128 = 0;
    busy.push(copy_of(node));
    let ghost b = busy.deep_view();
    proof {
        assert(b =~= b0.push(node@));
        assert(0 <= memo@.len() * u64::MAX) by (nonlinear_arith);
        assert forall|x: Seq<char>| b.contains(x) implies !#[trigger] has_key(memo@, x) by {
            let j = choose|j: int| 0 <= j < b.len() && b[j] == x;
            if j < b0.len() {
                assert(b0[j] == x);
                assert(b0.contains(x));
            }
        }
    }
    match g.find(node) {
        Some(at) => {
            let list = &g.nodes[at].callees;
            proof {
                assert(b.no_duplicates()) by {
                    assert forall|i: int, j: int|
                        0 <= i < b.len() && 0 <= j < b.len() && i != j implies b[i] != b[j] by {
                        if i == b0.len() {
                            assert(b0.contains(b0[j]));
                        } else if j == b0.len() {
                            assert(b0.contains(b0[i]));
                        }
                    }
                }
                assert forall|i: int| 0 <= i < b.len() implies is_node(g@, #[trigger] b[i]) by {
                    if i < b0.len() {
                        assert(is_node(g@, b0[i]));
                    }
                }
                lemma_path_fits(g@, b);
            }
            let ghost start = known_depths(*memo);
            let mut k: usize = 0;
            while k < list.len()
                invariant
                    k <= list@.len(),
                    list.deep_view() == called,
                    b == b0.push(node@),
                    b0.len() == old(busy)@.len(),
                    b.len() <= g@.len(),
                    b.no_duplicates(),
                    forall|i: int| 0 <= i < b.len() ==> is_node(g@, #[trigger] b[i]),
                    busy.deep_view() == b,
                    bounded(memo@),
                    unknown(memo@, b),
                    memo@.len() >= memo0.len(),
                    below <= memo@.len() * u64::MAX,
                    (below as nat, known_depths(*memo)) == deepest_of(
                        g@,
                        sizes@,
                        called,
                        k as nat,
                        start,
                        b,
                    ),
                decreases list@.len() - k,
            {
                let ghost before = memo@.len();
                assert(list[k as int]@ == called[k as int]);
                let d = compute_depth(list[k].as_str(), g, sizes, memo, busy);
                proof {
                    assert(before * u64::MAX <= memo@.len() * u64::MAX) by (nonlinear_arith)
                        requires
                            before <= memo@.len(),
                    ;
                }
                if below < d {
                    below = d;
                }
                k += 1;
            }
        },
        None => {},
    }
    let own: u64 = match lookup_stack_size(node, sizes) {
        Some(n) => n,
        None => 0,
    };
    let ghost n = memo@.len();
    proof {
        assert(memo.entries.len() == n);
        assert(own + below <= (n + 1) * u64::MAX) by (nonlinear_arith)
            requires
                own <= u64::MAX,
                below <= n * u64::MAX,
        ;
        assert((n + 1) * u64::MAX <= u128::MAX) by (nonlinear_arith)
            requires
                n <= u64::MAX,
        ;
    }
    let total: u128 = own as u128 + below;
    proof {
        assert(b.contains(node@)) by {
            assert(b[b0.len() as int] == node@);
        }
        lemma_mapped(memo@, |d: u128| d as nat, node@, total);
    }
    let ghost memo1 = memo@;
    memo.put(copy_of(node), total);
    assert(busy.deep_view() == b && busy@.len() == b.len());
    let ghost full = busy@;
    let _last = busy.pop();
    proof {
        assert forall|i: int| 0 <= i < b0.len() implies #[trigger] busy.deep_view()[i] == b0[i] by {
            assert(busy@[i] == full[i]);
            assert(b[i] == full[i]@);
        }
        assert(busy.deep_view() =~= b0);
        assert(!has_key(memo1, node@));
        assert(memo@ == memo1.push((node@, total)));
        assert forall|x: Seq<char>| b0.contains(x) implies !#[trigger] has_key(memo@, x) by {
            let j = choose|j: int| 0 <= j < b0.len() && b0[j] == x;
            assert(b[j] == x);
            assert(b.contains(x));
            lemma_get_put(memo1, node@, total, x);
            lemma_position(memo1, x, 0);
            lemma_position(memo@, x, 0);
        }
    }
    total
}

/// The stack that the deepest chain of calls from `entry` takes, in bytes; nothing where
/// the graph has no function `entry`.
pub fn worst_case_depth(entry: &str, g: &CallGraph, sizes: &Table<u64>) -> (r: Option<u128>)
    ensures
        match r {
            Some(d) => is_node(g@, entry@) && d == depth_from(g@, sizes@, entry@),
            None => !is_node(g@, entry@),
        },
{
    if !g.contains(entry) {
        return None;
    }
    let mut memo: Table<u128> = Table::new();
    let mut busy: Vec<String> = Vec::new();
    proof {
        assert(busy.deep_view() =~= Seq::<Seq<char>>::empty());
        assert(known_depths(memo) =~= Seq::<(Seq<char>, nat)>::empty());
    }
    Some(compute_depth(entry, g, sizes, &mut memo, &mut busy))
}

// ---------------------------------------------------------------------------
// What the depth means
// ---------------------------------------------------------------------------

/// The stack that the functions of a chain of calls take together.
pub open spec fn weight(t: Entries<u64>, p: Seq<Seq<char>>) -> nat
    decreases p.len(),
{
    if p.len() == 0 {
        0
    } else {
        frame_or_zero(t, p[0]) + weight(t, p.skip(1))
    }
}

/// Whether `d` is the stack that the deepest chain of calls from `x` takes: some chain
/// takes that much, and none takes more.
pub open spec fn is_deepest(g: Nodes, t: Entries<u64>, x: Seq<char>, d: nat) -> bool {
    &&& exists|p: Seq<Seq<char>>| #[trigger] is_walk(g, p) && p[0] == x && weight(t, p) == d
    &&& forall|p: Seq<Seq<char>>| #[trigger] is_walk(g, p) && p[0] == x ==> weight(t, p) <= d
}

spec fn right(g: Nodes, t: Entries<u64>, known: Entries<nat>) -> bool {
    forall|x: Seq<char>|
        #[trigger] has_key(known, x) ==> is_deepest(g, t, x, get(known, x)->0)
}

spec fn chain(g: Nodes, busy: Seq<Seq<char>>, next: Seq<char>) -> bool {
    &&& busy.no_duplicates()
    &&& forall|i: int| 0 <= i < busy.len() ==> is_node(g, #[trigger] busy[i])
    &&& busy.len() > 0 ==> is_walk(g, busy) && calls(g, busy.last(), next)
}

proof fn lemma_depth_right(
    g: Nodes,
    t: Entries<u64>,
    entry: Seq<char>,
    name: Seq<char>,
    known: Entries<nat>,
    busy: Seq<Seq<char>>,
)
    requires
        no_recursion_from(g, entry),
        reaches(g, entry, name),
        right(g, t, known),
        chain(g, busy, name),
    ensures
        is_deepest(g, t, name, depth(g, t, name, known, busy).0),
        right(g, t, depth(g, t, name, known, busy).1),
    decreases g.len() + 1 - busy.len(), 0nat,
{
    lemma_path_fits(g, busy);
    if busy.contains(name) {
        let i = choose|i: int| 0 <= i < busy.len() && busy[i] == name;
        lemma_walk_skip(g, busy, i);
        lemma_walk_push(g, busy.skip(i), name);
        assert(is_cycle(g, busy.skip(i).push(name)));
    }
    if !has_key(known, name) {
        let list = callees(g, name);
        let b = busy.push(name);
        let (below, more) = deepest_of(g, t, list, list.len(), known, b);
        if list.len() > 0 {
            assert(is_node(g, name));
            assert forall|i: int, j: int|
                0 <= i < b.len() && 0 <= j < b.len() && i != j implies b[i] != b[j] by {
                if i == busy.len() {
                    assert(busy.contains(busy[j]));
                } else if j == busy.len() {
                    assert(busy.contains(busy[i]));
                }
            }
            assert forall|i: int| 0 <= i < b.len() implies is_node(g, #[trigger] b[i]) by {
                if i < busy.len() {
                    assert(is_node(g, busy[i]));
                }
            }
            lemma_path_fits(g, b);
            if busy.len() > 0 {
                lemma_walk_push(g, busy, name);
            } else {
                lemma_walk_one(g, name);
                assert(b =~= seq![name]);
            }
            lemma_deepest_right(g, t, entry, list, list.len(), known, b);
        }
        let own = frame_or_zero(t, name);
        assert forall|p: Seq<Seq<char>>| #[trigger] is_walk(g, p) && p[0] == name implies weight(
            t,
            p,
        ) <= own + below by {
            if p.len() == 1 {
                assert(p.skip(1) =~= Seq::<Seq<char>>::empty());
                assert(weight(t, p.skip(1)) == 0);
            } else {
                assert(calls(g, p[0], p[1]));
                lemma_walk_skip(g, p, 1);
                let k = choose|k: int| 0 <= k < list.len() && list[k] == p[1];
                assert(no_more(g, t, list[k], below));
                assert(is_walk(g, p.skip(1)) && p.skip(1)[0] == list[k]);
                assert(weight(t, p.skip(1)) <= below);
            }
        }
        if list.len() == 0 {
            lemma_walk_one(g, name);
            assert(seq![name].skip(1) =~= Seq::<Seq<char>>::empty());
            assert(weight(t, seq![name].skip(1)) == 0);
            assert(weight(t, seq![name]) == own);
            let p = seq![name];
            assert(is_walk(g, p) && p[0] == name && weight(t, p) == own + below);
        } else {
            let k = choose|k: int| 0 <= k < list.len() && as_much(g, t, #[trigger] list[k], below);
            let q = choose|q: Seq<Seq<char>>|
                #[trigger] is_walk(g, q) && q[0] == list[k] && weight(t, q) == below;
            let p = seq![name] + q;
            assert(calls(g, name, list[k]));
            assert forall|i: int| #![trigger p[i]] 0 <= i < p.len() - 1 implies calls(
                g,
                p[i],
                p[i + 1],
            ) by {
                if i > 0 {
                    assert(p[i] == q[i - 1] && p[i + 1] == q[i]);
                    assert(calls(g, q[i - 1], q[i]));
                } else {
                    assert(p[1] == q[0]);
                }
            }
            assert(p.skip(1) =~= q);
            assert(is_walk(g, p) && p[0] == name && weight(t, p) == own + below);
        }
        let total = own + below;
        assert forall|x: Seq<char>| #[trigger] has_key(put(more, name, total), x) implies is_deepest(
            g,
            t,
            x,
            get(put(more, name, total), x)->0,
        ) by {
            lemma_get_put(more, name, total, x);
            if x != name {
                assert(has_key(more, x)) by {
                    lemma_position(more, x, 0);
                    lemma_position(put(more, name, total), x, 0);
                    assert(get(put(more, name, total), x) is Some);
                }
            }
        }
    }
}

spec fn no_more(g: Nodes, t: Entries<u64>, x: Seq<char>, d: nat) -> bool {
    forall|p: Seq<Seq<char>>| #[trigger] is_walk(g, p) && p[0] == x ==> weight(t, p) <= d
}

spec fn as_much(g: Nodes, t: Entries<u64>, x: Seq<char>, d: nat) -> bool {
    exists|p: Seq<Seq<char>>| #[trigger] is_walk(g, p) && p[0] == x && weight(t, p) == d
}

proof fn lemma_deepest_right(
    g: Nodes,
    t: Entries<u64>,
    entry: Seq<char>,
    list: Seq<Seq<char>>,
    n: nat,
    known: Entries<nat>,
    busy: Seq<Seq<char>>,
)
    requires
        no_recursion_from(g, entry),
        right(g, t, known),
        busy.len() > 0,
        reaches(g, entry, busy.last()),
        busy.len() <= g.len(),
        list == callees(g, busy.last()),
        n <= list.len(),
        is_walk(g, busy),
        busy.no_duplicates(),
        forall|i: int| 0 <= i < busy.len() ==> is_node(g, #[trigger] busy[i]),
    ensures
        right(g, t, deepest_of(g, t, list, n, known, busy).1),
        forall|k: int|
            0 <= k < n ==> no_more(
                g,
                t,
                #[trigger] list[k],
                deepest_of(g, t, list, n, known, busy).0,
            ),
        n > 0 ==> exists|k: int|
            0 <= k < n && as_much(
                g,
                t,
                #[trigger] list[k],
                deepest_of(g, t, list, n, known, busy).0,
            ),
    decreases g.len() + 1 - busy.len(), n,
{
    if n > 0 {
        let m = (n - 1) as nat;
        lemma_deepest_right(g, t, entry, list, m, known, busy);
        let (head, mid) = deepest_of(g, t, list, m, known, busy);
        let next = list[n - 1];
        assert(calls(g, busy.last(), next));
        lemma_reaches_more(g, entry, busy.last(), next);
        lemma_depth_right(g, t, entry, next, mid, busy);
        let (last, end) = depth(g, t, next, mid, busy);
        let d = deepest_of(g, t, list, n, known, busy).0;
        assert(no_more(g, t, next, last) && as_much(g, t, next, last));
        assert forall|k: int| 0 <= k < n implies no_more(g, t, #[trigger] list[k], d) by {
            if k < m {
                assert(no_more(g, t, list[k], head));
            }
        }
        if head < last {
            assert(as_much(g, t, list[n - 1], d));
        } else if m > 0 {
            let k = choose|k: int| 0 <= k < m && as_much(g, t, #[trigger] list[k], head);
            assert(as_much(g, t, list[k], d));
        } else {
            assert(as_much(g, t, list[n - 1], d));
        }
    }
}

/// Where no function that can be reached from an entry point can come to be called by itself,
/// the depth of the entry point is the stack that its deepest chain of calls takes.
pub proof fn lemma_depth_is_deepest(g: Nodes, t: Entries<u64>, entry: Seq<char>)
    requires
        no_recursion_from(g, entry),
    ensures
        is_deepest(g, t, entry, depth_from(g, t, entry)),
{
    lemma_walk_one(g, entry);
    lemma_depth_right(g, t, entry, entry, Seq::empty(), Seq::empty());
}

// ---------------------------------------------------------------------------
// Laws of frame sizes
// ---------------------------------------------------------------------------

/// In a listing the line `Functions: [name]` and the line `Size: n` that follows it say that the
/// function has that frame size; other functions keep theirs.
pub proof fn lemma_size_entry(
    st: (Seq<char>, Entries<u64>),
    first: Seq<char>,
    second: Seq<char>,
    name: Seq<char>,
    n: u64,
    other: Seq<char>,
)
    requires
        trimmed(first) == "Functions: ["@ + name + "]"@,
        trimmed(second) == "Size: "@ + crate::numerals::decimal(n as nat) || trimmed(second)
            == "Size: 0x"@ + crate::numerals::hex(n as nat),
    ensures
        ({
            let sizes = after_size_line(after_size_line(st, first), second).1;
            &&& get(sizes, name) == Some(n)
            &&& other != name ==> get(sizes, other) == get(st.1, other)
        }),
{
    reveal_strlit("Functions: [");
    reveal_strlit("Size: ");
    reveal_strlit("Size: 0x");
    reveal_strlit("0x");
    reveal_strlit("]");
    let a = trimmed(first);
    assert(a.take(12) =~= "Functions: ["@);
    let rest = a.skip(12);
    assert(rest =~= name + "]"@);
    assert(rest.skip(rest.len() - 1) =~= "]"@);
    assert(rest.drop_last() =~= name);
    let b = trimmed(second);
    assert(b.take(6) =~= "Size: "@);
    assert(b[0] == 'S');
    if starts_with(b, "Functions: ["@) {
        assert(b.take(12)[0] == 'F');
    }
    crate::text::lemma_hex_or_dec(n);
    if b == "Size: "@ + crate::numerals::decimal(n as nat) {
        assert(b.skip(6) =~= crate::numerals::decimal(n as nat));
    } else {
        assert(b.skip(6) =~= "0x"@ + crate::numerals::hex(n as nat));
    }
    lemma_get_put(st.1, name, n, other);
}

/// A line that says neither changes nothing.
pub proof fn lemma_other_size_line(st: (Seq<char>, Entries<u64>), raw: Seq<char>)
    requires
        !starts_with(trimmed(raw), "Functions: ["@),
        !starts_with(trimmed(raw), "Size: "@),
    ensures
        after_size_line(st, raw) == st,
{
}

/// The size under a function's own name counts before every other.
pub proof fn lemma_frame_own(t: Entries<u64>, name: Seq<char>)
    requires
        has_key(t, name),
    ensures
        frame(t, name) == get(t, name),
{
}

/// A copy that the compiler made of a function has the function's frame size, where it has none
/// of its own.
pub proof fn lemma_frame_of_copy(t: Entries<u64>, base: Seq<char>, rest: Seq<char>)
    requires
        !crate::text::contains(base, " (.llvm."@),
        !has_key(t, base + " (.llvm."@ + rest),
        has_key(t, base),
    ensures
        frame(t, base + " (.llvm."@ + rest) == get(t, base),
{
    reveal_strlit(" (.llvm.");
    let p = " (.llvm."@;
    let name = base + p + rest;
    let at = base.len() as int;
    lemma_find_from(name, p, 0);
    assert(name.subrange(at, at + 8) =~= p);
    assert(crate::text::occurs_at(name, p, at));
    let k = find_from(name, p, 0);
    assert(k != -1);
    assert(name.subrange(k, k + 8)[0] == p[0]);
    if k < at {
        if k + 8 <= at {
            assert(base.subrange(k, k + 8) =~= name.subrange(k, k + 8));
            assert(crate::text::occurs_at(base, p, k));
        } else {
            let d = at - k;
            assert(name.subrange(k, k + 8)[d] == p[d]);
            assert(name[at] == p[0]);
            assert(p[d] != ' ');
        }
    }
    assert(k == at);
    assert(name.take(at) =~= base);
}

/// Where neither the name nor its base has a size, the first key that the function is an
/// instance of gives it.
pub proof fn lemma_frame_of_instance(t: Entries<u64>, name: Seq<char>, i: int)
    requires
        !has_key(t, name),
        !has_key(t, base_name(name)),
        0 <= i < t.len(),
        starts_with(name, t[i].0 + "::<"@),
        forall|j: int| 0 <= j < i ==> !starts_with(name, (#[trigger] t[j]).0 + "::<"@),
    ensures
        frame(t, name) == Some(t[i].1),
{
    assert forall|j: int| 0 <= j < t.len() implies is_instance(name, (#[trigger] t[j]).0)
        == starts_with(name, t[j].0 + "::<"@) by {
        lemma_instance(name, t[j].0);
    }
    lemma_instance_from(t, name, 0, i);
}

proof fn lemma_instance(name: Seq<char>, key: Seq<char>)
    ensures
        is_instance(name, key) == starts_with(name, key + "::<"@),
{
    reveal_strlit("::<");
    let k = key.len() as int;
    if is_instance(name, key) {
        let rest = name.skip(k);
        assert(rest.take(3) == "::<"@);
        assert(name.take(k + 3) =~= name.take(k) + rest.take(3));
    }
    if starts_with(name, key + "::<"@) {
        let whole = name.take(k + 3);
        assert(whole == key + "::<"@);
        assert(name.take(k) =~= whole.take(k));
        assert(whole.take(k) =~= key);
        assert(name.skip(k).take(3) =~= whole.skip(k));
        assert(whole.skip(k) =~= "::<"@);
    }
}

proof fn lemma_instance_from(t: Entries<u64>, name: Seq<char>, i: int, k: int)
    requires
        0 <= i <= k <= t.len(),
        k < t.len() ==> is_instance(name, t[k].0),
        forall|j: int| i <= j < k ==> !is_instance(name, (#[trigger] t[j]).0),
    ensures
        instance_size(t, name, i) == if k < t.len() {
            Some(t[k].1)
        } else {
            None
        },
    decreases k - i,
{
    if i < k {
        lemma_instance_from(t, name, i + 1, k);
    }
}

proof fn lemma_wildcard_from(t: Entries<u64>, name: Seq<char>, i: int, k: int)
    requires
        0 <= i <= k <= t.len(),
        k < t.len() ==> matches_wildcard(name, t[k].0),
        forall|j: int| i <= j < k ==> !matches_wildcard(name, (#[trigger] t[j]).0),
    ensures
        wildcard_size(t, name, i) == if k < t.len() {
            Some(t[k].1)
        } else {
            None
        },
    decreases k - i,
{
    if i < k {
        lemma_wildcard_from(t, name, i + 1, k);
    }
}

/// Whether `key` is a beginning of `name` with `*` behind it.
pub open spec fn is_cover(name: Seq<char>, key: Seq<char>) -> bool {
    exists|p: Seq<char>| #[trigger] starts_with(name, p) && key == p.push('*')
}

/// Where nothing else gives a size, the first key with a `*` behind a beginning of the name
/// does; where there is none, the size is not known.
pub proof fn lemma_frame_of_cover(t: Entries<u64>, name: Seq<char>, k: int)
    requires
        !has_key(t, name),
        !has_key(t, base_name(name)),
        forall|j: int| 0 <= j < t.len() ==> !starts_with(name, (#[trigger] t[j]).0 + "::<"@),
        0 <= k <= t.len(),
        k < t.len() ==> is_cover(name, t[k].0),
        forall|j: int| 0 <= j < k ==> !is_cover(name, (#[trigger] t[j]).0),
    ensures
        frame(t, name) == if k < t.len() {
            Some(t[k].1)
        } else {
            None
        },
{
    assert forall|j: int| 0 <= j < t.len() implies !is_instance(name, (#[trigger] t[j]).0) by {
        lemma_instance(name, t[j].0);
    }
    lemma_instance_from(t, name, 0, t.len() as int);
    assert forall|j: int| 0 <= j < t.len() implies matches_wildcard(name, (#[trigger] t[j]).0)
        == is_cover(name, t[j].0) by {
        reveal_strlit("*");
        let key = t[j].0;
        if matches_wildcard(name, key) {
            assert(key.skip(key.len() - 1)[0] == '*');
            assert(key =~= key.drop_last().push('*'));
        }
        if is_cover(name, key) {
            let p = choose|p: Seq<char>| #[trigger] starts_with(name, p) && key == p.push('*');
            assert(key.drop_last() =~= p);
            assert(key.skip(key.len() - 1) =~= "*"@);
        }
    }
    lemma_wildcard_from(t, name, 0, k);
}

/// Whether a function's name was read last among the first `n` lines.
pub open spec fn names_last(lines: Seq<Seq<char>>, n: int, name: Seq<char>) -> bool {
    exists|h: int|
        0 <= h < n && starts_with(trimmed(#[trigger] lines[h]), "Functions: ["@) && listed_name(
            trimmed(lines[h]).skip(12),
        ) == name && forall|i: int|
            h < i < n ==> !starts_with(trimmed(#[trigger] lines[i]), "Functions: ["@)
}

/// Whether line `i` gives a function a size.
pub open spec fn gives_size(lines: Seq<Seq<char>>, i: int, name: Seq<char>, v: int) -> bool {
    &&& !starts_with(trimmed(lines[i]), "Functions: ["@)
    &&& starts_with(trimmed(lines[i]), "Size: "@)
    &&& hex_or_dec_of(trimmed(lines[i]).skip(6)) == Some(v)
    &&& names_last(lines, i, name)
}

proof fn lemma_names_last(lines: Seq<Seq<char>>, n: nat, name: Seq<char>)
    requires
        n <= lines.len(),
    ensures
        names_last(lines, n as int, name) ==> size_lines(lines, n).0 == name,
        name.len() > 0 && size_lines(lines, n).0 == name ==> names_last(lines, n as int, name),
    decreases n,
{
    if n > 0 {
        let m = (n - 1) as nat;
        lemma_names_last(lines, m, name);
        let line = trimmed(lines[m as int]);
        if starts_with(line, "Functions: ["@) {
            if names_last(lines, n as int, name) {
                let h = choose|h: int|
                    0 <= h < n && starts_with(trimmed(#[trigger] lines[h]), "Functions: ["@)
                        && listed_name(trimmed(lines[h]).skip(12)) == name && forall|i: int|
                        h < i < n ==> !starts_with(trimmed(#[trigger] lines[i]), "Functions: ["@);
                assert(h == m);
            }
            if listed_name(line.skip(12)) == name {
                assert(starts_with(trimmed(lines[m as int]), "Functions: ["@));
                assert(names_last(lines, n as int, name));
            }
        } else {
            if names_last(lines, n as int, name) {
                let h = choose|h: int|
                    0 <= h < n && starts_with(trimmed(#[trigger] lines[h]), "Functions: ["@)
                        && listed_name(trimmed(lines[h]).skip(12)) == name && forall|i: int|
                        h < i < n ==> !starts_with(trimmed(#[trigger] lines[i]), "Functions: ["@);
                assert(h < m);
                assert(starts_with(trimmed(lines[h]), "Functions: ["@));
                assert(names_last(lines, m as int, name));
            }
            if names_last(lines, m as int, name) {
                let h = choose|h: int|
                    0 <= h < m && starts_with(trimmed(#[trigger] lines[h]), "Functions: ["@)
                        && listed_name(trimmed(lines[h]).skip(12)) == name && forall|i: int|
                        h < i < m ==> !starts_with(trimmed(#[trigger] lines[i]), "Functions: ["@);
                assert(starts_with(trimmed(lines[h]), "Functions: ["@));
                assert(names_last(lines, n as int, name));
            }
        }
    }
}

proof fn lemma_size_at(lines: Seq<Seq<char>>, n: nat, name: Seq<char>, i: int, v: int)
    requires
        0 <= i < n <= lines.len(),
        name.len() > 0,
        gives_size(lines, i, name, v),
        forall|j: int, x: int| i < j < n ==> !#[trigger] gives_size(lines, j, name, x),
    ensures
        get(size_lines(lines, n).1, name) == Some(v as u64),
    decreases n,
{
    let m = (n - 1) as nat;
    let st = size_lines(lines, m);
    let line = trimmed(lines[m as int]);
    lemma_names_last(lines, m, name);
    if i == m {
        lemma_get_put(st.1, name, v as u64, name);
    } else {
        lemma_size_at(lines, m, name, i, v);
        if !starts_with(line, "Functions: ["@) && starts_with(line, "Size: "@) && hex_or_dec_of(
            line.skip(6),
        ) is Some {
            let x = hex_or_dec_of(line.skip(6))->0;
            assert(!gives_size(lines, m as int, name, x));
            lemma_get_put(st.1, st.0, x as u64, name);
        }
    }
}

/// A function's size is the one that the last size line under its name gives, wherever in the
/// listing that stands.
pub proof fn lemma_sizes_of(listing: Seq<char>, name: Seq<char>, i: int, v: u64)
    requires
        0 <= i < lines_of(listing).len(),
        name.len() > 0,
        gives_size(lines_of(listing), i, name, v as int),
        forall|j: int, x: int|
            i < j < lines_of(listing).len() ==> !#[trigger] gives_size(
                lines_of(listing),
                j,
                name,
                x,
            ),
    ensures
        get(sizes_of(listing), name) == Some(v),
{
    lemma_size_at(lines_of(listing), lines_of(listing).len(), name, i, v as int);
}

proof fn lemma_size_missing(lines: Seq<Seq<char>>, n: nat, name: Seq<char>)
    requires
        n <= lines.len(),
        name.len() > 0,
        forall|j: int, x: int| 0 <= j < n ==> !#[trigger] gives_size(lines, j, name, x),
    ensures
        get(size_lines(lines, n).1, name) is None,
    decreases n,
{
    if n > 0 {
        let m = (n - 1) as nat;
        lemma_size_missing(lines, m, name);
        lemma_names_last(lines, m, name);
        let st = size_lines(lines, m);
        let line = trimmed(lines[m as int]);
        if !starts_with(line, "Functions: ["@) && starts_with(line, "Size: "@) && hex_or_dec_of(
            line.skip(6),
        ) is Some {
            let x = hex_or_dec_of(line.skip(6))->0;
            assert(!gives_size(lines, m as int, name, x));
            lemma_get_put(st.1, st.0, x as u64, name);
        }
    }
}

/// A function that no size line gives a size has none.
pub proof fn lemma_no_size(listing: Seq<char>, name: Seq<char>)
    requires
        name.len() > 0,
        forall|j: int, x: int|
            0 <= j < lines_of(listing).len() ==> !#[trigger] gives_size(
                lines_of(listing),
                j,
                name,
                x,
            ),
    ensures
        get(sizes_of(listing), name) is None,
{
    lemma_size_missing(lines_of(listing), lines_of(listing).len(), name);
}

} // verus!
