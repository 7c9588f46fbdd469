//! Tables from names to values.

use crate::text::same_text;
use vstd::prelude::*;

verus! {

/// Values under names, in the order in which the names first came.
pub struct Table<V> {
    pub entries: Vec<(String, V)>,
}

/// A table as a list of names with values.
pub type Entries<V> = Seq<(Seq<char>, V)>;

impl<V> View for Table<V> {
    type V = Entries<V>;

    open spec fn view(&self) -> Entries<V> {
        Seq::new(self.entries@.len(), |i: int| (self.entries@[i].0@, self.entries@[i].1))
    }
}

/// The index of `name` from `i` on, or the length of the table.
pub open spec fn position_from<V>(t: Entries<V>, name: Seq<char>, i: int) -> int
    decreases t.len() - i,
{
    if i < 0 || i >= t.len() {
        t.len() as int
    } else if t[i].0 == name {
        i
    } else {
        position_from(t, name, i + 1)
    }
}

/// The index of `name`, or the length of the table.
pub open spec fn position<V>(t: Entries<V>, name: Seq<char>) -> int {
    position_from(t, name, 0)
}

/// Whether the table has the name `name`.
pub open spec fn has_key<V>(t: Entries<V>, name: Seq<char>) -> bool {
    position(t, name) < t.len()
}

/// The value under `name`.
pub open spec fn get<V>(t: Entries<V>, name: Seq<char>) -> Option<V> {
    if has_key(t, name) {
        Some(t[position(t, name)].1)
    } else {
        None
    }
}

/// The table with `v` under `name`, in place of what stood there.
pub open spec fn put<V>(t: Entries<V>, name: Seq<char>, v: V) -> Entries<V> {
    if has_key(t, name) {
        t.update(position(t, name), (name, v))
    } else {
        t.push((name, v))
    }
}

/// Whether every name stands in the table once.
pub open spec fn keys_differ<V>(t: Entries<V>) -> bool {
    forall|i: int, j: int| 0 <= i < j < t.len() ==> (#[trigger] t[i]).0 != (#[trigger] t[j]).0
}

/// The table with every value `v` as `f(v)`.
pub open spec fn mapped<V, W>(t: Entries<V>, f: spec_fn(V) -> W) -> Entries<W> {
    Seq::new(t.len(), |i: int| (t[i].0, f(t[i].1)))
}

pub proof fn lemma_position<V>(t: Entries<V>, name: Seq<char>, i: int)
    requires
        0 <= i <= t.len(),
    ensures
        i <= position_from(t, name, i) <= t.len(),
        position_from(t, name, i) < t.len() ==> t[position_from(t, name, i)].0 == name,
        forall|j: int| i <= j < position_from(t, name, i) ==> (#[trigger] t[j]).0 != name,
    decreases t.len() - i,
{
    if i < t.len() && t[i].0 != name {
        lemma_position(t, name, i + 1);
    }
}

pub proof fn lemma_position_is<V>(t: Entries<V>, name: Seq<char>, i: int, k: int)
    requires
        0 <= i <= k <= t.len(),
        k < t.len() ==> t[k].0 == name,
        forall|j: int| i <= j < k ==> (#[trigger] t[j]).0 != name,
    ensures
        position_from(t, name, i) == k,
    decreases k - i,
{
    if i < k {
        lemma_position_is(t, name, i + 1, k);
    }
}

/// What is put under a name is found there, and the other names keep their values.
pub proof fn lemma_get_put<V>(t: Entries<V>, name: Seq<char>, v: V, other: Seq<char>)
    ensures
        get(put(t, name, v), name) == Some(v),
        other != name ==> get(put(t, name, v), other) == get(t, other),
{
    lemma_position(t, name, 0);
    lemma_position(t, other, 0);
    let u = put(t, name, v);
    lemma_position_is(u, name, 0, position(t, name));
    if other != name {
        if has_key(t, other) {
            lemma_position_is(u, other, 0, position(t, other));
        } else {
            lemma_position_is(u, other, 0, u.len() as int);
        }
    }
}

/// Putting keeps the names apart.
pub proof fn lemma_put_keys_differ<V>(t: Entries<V>, name: Seq<char>, v: V)
    requires
        keys_differ(t),
    ensures
        keys_differ(put(t, name, v)),
{
    lemma_position(t, name, 0);
}

/// Changing the values commutes with looking up and putting.
pub proof fn lemma_mapped<V, W>(t: Entries<V>, f: spec_fn(V) -> W, name: Seq<char>, v: V)
    ensures
        position(mapped(t, f), name) == position(t, name),
        mapped(put(t, name, v), f) == put(mapped(t, f), name, f(v)),
{
    lemma_position(t, name, 0);
    lemma_position_is(mapped(t, f), name, 0, position(t, name));
    assert(mapped(put(t, name, v), f) =~= put(mapped(t, f), name, f(v)));
}

impl<V> Table<V> {
    /// A table without entries.
    pub fn new() -> (t: Table<V>)
        ensures
            t@ == Seq::<(Seq<char>, V)>::empty(),
    {
        let t = Table { entries: Vec::new() };
        assert(t@ =~= Seq::<(Seq<char>, V)>::empty());
        t
    }

    /// The index of `name`.
    pub fn find(&self, name: &str) -> (r: Option<usize>)
        ensures
            match r {
                Some(i) => i < self.entries@.len() && i == position(self@, name@),
                None => !has_key(self@, name@),
            },
            r matches Some(i) ==> self.entries@[i as int].0@ == name@,
    {
        let mut i: usize = 0;
        while i < self.entries.len()
            invariant
                i <= self.entries@.len(),
                position(self@, name@) == position_from(self@, name@, i as int),
            decreases self.entries@.len() - i,
        {
            assert(self@[i as int].0 == self.entries@[i as int].0@);
            if same_text(self.entries[i].0.as_str(), name) {
                return Some(i);
            }
            i += 1;
        }
        None
    }

    /// Puts `v` under `name`, in place of what stood there.
    pub fn put(&mut self, name: String, v: V)
        ensures
            final(self)@ == self::put(old(self)@, name@, v),
    {
        let ghost before = self@;
        match self.find(name.as_str()) {
            Some(i) => {
                self.entries.set(i, (name, v));
                assert(self@ =~= before.update(i as int, (name@, v)));
            },
            None => {
                self.entries.push((name, v));
                assert(self@ =~= before.push((name@, v)));
            },
        }
    }
}

} // verus!
