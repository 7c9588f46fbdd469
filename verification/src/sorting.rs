//! Lists of names in alphabetical order.

use crate::text::chars_of;
use vstd::prelude::*;

verus! {

/// Whether `a` stands before `b` in the order of their characters.
pub open spec fn precedes(a: Seq<char>, b: Seq<char>) -> bool
    decreases a.len(),
{
    if b.len() == 0 {
        false
    } else if a.len() == 0 {
        true
    } else if a[0] != b[0] {
        (a[0] as int) < (b[0] as int)
    } else {
        precedes(a.skip(1), b.skip(1))
    }
}

/// Whether every name precedes the names behind it.
pub open spec fn ascending(s: Seq<Seq<char>>) -> bool {
    forall|i: int, j: int| 0 <= i < j < s.len() ==> precedes(#[trigger] s[i], #[trigger] s[j])
}

pub proof fn lemma_precedes_transitive(a: Seq<char>, b: Seq<char>, c: Seq<char>)
    requires
        precedes(a, b),
        precedes(b, c),
    ensures
        precedes(a, c),
    decreases a.len(),
{
    if a.len() > 0 && a[0] == b[0] && b[0] == c[0] {
        lemma_precedes_transitive(a.skip(1), b.skip(1), c.skip(1));
    }
}

pub proof fn lemma_precedes_total(a: Seq<char>, b: Seq<char>)
    ensures
        !precedes(a, a),
        a != b ==> precedes(a, b) || precedes(b, a),
        !(precedes(a, b) && precedes(b, a)),
    decreases a.len(),
{
    if a.len() > 0 {
        lemma_precedes_total(a.skip(1), b.skip(1));
        lemma_precedes_total(a.skip(1), a.skip(1));
        if b.len() > 0 && a[0] == b[0] && a.skip(1) == b.skip(1) {
            assert(a =~= seq![a[0]] + a.skip(1));
            assert(b =~= seq![b[0]] + b.skip(1));
        }
    } else if b.len() == 0 {
        assert(a =~= b);
    }
}

fn char_before(c: char, d: char) -> (r: bool)
    ensures
        r == ((c as int) < (d as int)),
{
    (c as u32) < (d as u32)
}

/// Whether `a` stands before `b`.
pub fn before(a: &str, b: &str) -> (r: bool)
    ensures
        r == precedes(a@, b@),
{
    let x = chars_of(a);
    let y = chars_of(b);
    let mut i: usize = 0;
    proof {
        assert(x@.skip(0) =~= x@);
        assert(y@.skip(0) =~= y@);
    }
    while i < x.len() && i < y.len()
        invariant
            x@ == a@,
            y@ == b@,
            i <= x@.len(),
            i <= y@.len(),
            precedes(x@, y@) == precedes(x@.skip(i as int), y@.skip(i as int)),
        decreases x@.len() - i,
    {
        let c = x[i];
        let d = y[i];
        if c != d {
            return char_before(c, d);
        }
        assert(x@.skip(i as int).skip(1) =~= x@.skip(i + 1));
        assert(y@.skip(i as int).skip(1) =~= y@.skip(i + 1));
        i += 1;
    }
    i < y.len()
}

/// Adds a name to an ascending list, unless it is there.
pub fn add_sorted(v: &mut Vec<String>, name: String)
    requires
        ascending(old(v).deep_view()),
    ensures
        ascending(final(v).deep_view()),
        forall|x: Seq<char>|
            final(v).deep_view().contains(x) <==> old(v).deep_view().contains(x) || x == name@,
{
    let ghost list = v.deep_view();
    let mut p: usize = v.len();
    while p > 0 && before(name.as_str(), v[p - 1].as_str())
        invariant
            p <= v@.len(),
            list == v.deep_view(),
            ascending(list),
            forall|k: int| p <= k < list.len() ==> precedes(name@, #[trigger] list[k]),
        decreases p,
    {
        p -= 1;
    }
    if p > 0 && !before(v[p - 1].as_str(), name.as_str()) {
        proof {
            lemma_precedes_total(v@[p - 1]@, name@);
            assert(list[p - 1] == name@);
        }
        return;
    }
    v.insert(p, name);
    proof {
        let out = v.deep_view();
        assert(out =~= list.insert(p as int, name@));
        assert forall|i: int, j: int| 0 <= i < j < out.len() implies precedes(
            #[trigger] out[i],
            #[trigger] out[j],
        ) by {
            if j == p {
                if i < p - 1 {
                    assert(precedes(list[i], list[p - 1]));
                    lemma_precedes_transitive(list[i], list[p - 1], name@);
                }
            } else if i == p {
                assert(out[j] == list[j - 1]);
            } else {
                let a = if i < p {
                    i
                } else {
                    i - 1
                };
                let b = if j < p {
                    j
                } else {
                    j - 1
                };
                assert(out[i] == list[a] && out[j] == list[b]);
            }
        }
        assert forall|x: Seq<char>| out.contains(x) <==> list.contains(x) || x == name@ by {
            if out.contains(x) {
                let i = choose|i: int| 0 <= i < out.len() && out[i] == x;
                if i < p {
                    assert(list[i] == x);
                } else if i > p {
                    assert(list[i - 1] == x);
                }
            }
            if list.contains(x) {
                let i = choose|i: int| 0 <= i < list.len() && list[i] == x;
                if i < p {
                    assert(out[i] == x);
                } else {
                    assert(out[i + 1] == x);
                }
            }
            if x == name@ {
                assert(out[p as int] == x);
            }
        }
    }
}

/// An ascending list is fixed by the names in it.
pub proof fn lemma_ascending_unique(a: Seq<Seq<char>>, b: Seq<Seq<char>>)
    requires
        ascending(a),
        ascending(b),
        forall|x: Seq<char>| a.contains(x) <==> b.contains(x),
    ensures
        a == b,
    decreases a.len(),
{
    if a.len() == 0 {
        if b.len() > 0 {
            assert(b.contains(b[0]));
        }
        assert(a =~= b);
    } else {
        assert(a.contains(a[0]));
        assert(b.len() > 0);
        assert(b.contains(b[0]));
        let i = choose|i: int| 0 <= i < b.len() && b[i] == a[0];
        let j = choose|j: int| 0 <= j < a.len() && a[j] == b[0];
        if i > 0 {
            assert(precedes(b[0], b[i]));
            lemma_precedes_total(a[0], b[0]);
            if j > 0 {
                assert(precedes(a[0], a[j]));
            }
        }
        assert(a[0] == b[0]);
        let x = a.skip(1);
        let y = b.skip(1);
        assert forall|i: int, j: int| 0 <= i < j < x.len() implies precedes(
            #[trigger] x[i],
            #[trigger] x[j],
        ) by {
            assert(x[i] == a[i + 1] && x[j] == a[j + 1]);
        }
        assert forall|i: int, j: int| 0 <= i < j < y.len() implies precedes(
            #[trigger] y[i],
            #[trigger] y[j],
        ) by {
            assert(y[i] == b[i + 1] && y[j] == b[j + 1]);
        }
        assert forall|z: Seq<char>| x.contains(z) <==> y.contains(z) by {
            lemma_precedes_total(z, z);
            if x.contains(z) {
                let k = choose|k: int| 0 <= k < x.len() && x[k] == z;
                assert(a[k + 1] == z);
                assert(precedes(a[0], a[k + 1]));
                assert(b.contains(z));
                let m = choose|m: int| 0 <= m < b.len() && b[m] == z;
                assert(y[m - 1] == z);
            }
            if y.contains(z) {
                let k = choose|k: int| 0 <= k < y.len() && y[k] == z;
                assert(b[k + 1] == z);
                assert(precedes(b[0], b[k + 1]));
                assert(a.contains(z));
                let m = choose|m: int| 0 <= m < a.len() && a[m] == z;
                assert(x[m - 1] == z);
            }
        }
        lemma_ascending_unique(x, y);
        assert(a =~= seq![a[0]] + x);
        assert(b =~= seq![b[0]] + y);
    }
}

} // verus!
