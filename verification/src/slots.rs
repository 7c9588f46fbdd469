//! A table with a fixed number of slots.

use vstd::prelude::*;

verus! {

/// The first free slot from `i` on, or the number of slots.
pub open spec fn free_from<T>(s: Seq<Option<T>>, i: int) -> int
    decreases s.len() - i,
{
    if i < 0 || i >= s.len() {
        s.len() as int
    } else if s[i] is None {
        i
    } else {
        free_from(s, i + 1)
    }
}

/// The first free slot, or the number of slots.
pub open spec fn first_free<T>(s: Seq<Option<T>>) -> int {
    free_from(s, 0)
}

/// The first slot in use from `i` on, or the number of slots.
pub open spec fn used_from<T>(s: Seq<Option<T>>, i: int) -> int
    decreases s.len() - i,
{
    if i < 0 || i >= s.len() {
        s.len() as int
    } else if s[i] is Some {
        i
    } else {
        used_from(s, i + 1)
    }
}

/// The first slot in use, or the number of slots.
pub open spec fn first_used<T>(s: Seq<Option<T>>) -> int {
    used_from(s, 0)
}

/// A table with no slot in use.
pub open spec fn no_slots<T>(n: nat) -> Seq<Option<T>> {
    Seq::new(n, |i: int| None)
}

/// The number of slots in use among the first `n`.
pub open spec fn used_count<T>(s: Seq<Option<T>>, n: nat) -> nat
    decreases n,
{
    if n == 0 {
        0
    } else {
        used_count(s, (n - 1) as nat) + (if s[n - 1] is Some {
            1nat
        } else {
            0nat
        })
    }
}

/// A free slot is found exactly where there is one.
pub proof fn lemma_first_free<T>(s: Seq<Option<T>>, i: int)
    requires
        0 <= i <= s.len(),
    ensures
        i <= free_from(s, i) <= s.len(),
        free_from(s, i) < s.len() ==> s[free_from(s, i)] is None,
        forall|k: int| i <= k < free_from(s, i) ==> (#[trigger] s[k]) is Some,
    decreases s.len() - i,
{
    if i < s.len() && s[i] is Some {
        lemma_first_free(s, i + 1);
    }
}

/// A slot in use is found exactly where there is one.
pub proof fn lemma_first_used<T>(s: Seq<Option<T>>, i: int)
    requires
        0 <= i <= s.len(),
    ensures
        i <= used_from(s, i) <= s.len(),
        used_from(s, i) < s.len() ==> s[used_from(s, i)] is Some,
        forall|k: int| i <= k < used_from(s, i) ==> (#[trigger] s[k]) is None,
    decreases s.len() - i,
{
    if i < s.len() && s[i] is None {
        lemma_first_used(s, i + 1);
    }
}

proof fn lemma_used_count_update<T>(s: Seq<Option<T>>, i: int, x: Option<T>, n: nat)
    requires
        0 <= i < s.len(),
        n <= s.len(),
    ensures
        used_count(s.update(i, x), n) + (if s[i] is Some && i < n {
            1nat
        } else {
            0nat
        }) == used_count(s, n) + (if x is Some && i < n {
            1nat
        } else {
            0nat
        }),
    decreases n,
{
    if n > 0 {
        lemma_used_count_update(s, i, x, (n - 1) as nat);
    }
}

/// Emptying a slot leaves one fewer in use.
pub proof fn lemma_used_count_clear<T>(s: Seq<Option<T>>, i: int)
    requires
        0 <= i < s.len(),
        s[i] is Some,
    ensures
        used_count(s.update(i, None), s.len()) + 1 == used_count(s, s.len()),
{
    lemma_used_count_update(s, i, None, s.len());
}

/// Filling a slot leaves one more in use.
pub proof fn lemma_used_count_fill<T>(s: Seq<Option<T>>, i: int, x: T)
    requires
        0 <= i < s.len(),
        s[i] is None,
    ensures
        used_count(s.update(i, Some(x)), s.len()) == used_count(s, s.len()) + 1,
        used_count(s, s.len()) < s.len(),
{
    lemma_used_count_update(s, i, Some(x), s.len());
    lemma_used_count_bound(s.update(i, Some(x)), s.len());
}

proof fn lemma_used_count_bound<T>(s: Seq<Option<T>>, n: nat)
    requires
        n <= s.len(),
    ensures
        used_count(s, n) <= n,
    decreases n,
{
    if n > 0 {
        lemma_used_count_bound(s, (n - 1) as nat);
    }
}

/// No slot of a fresh table is in use.
pub proof fn lemma_none_used<T>(len: nat, n: nat)
    requires
        n <= len,
    ensures
        used_count(no_slots::<T>(len), n) == 0,
    decreases n,
{
    if n > 0 {
        lemma_none_used::<T>(len, (n - 1) as nat);
    }
}

/// A table with a fixed number of slots.
pub struct Slots<T: Copy> {
    entries: Vec<Option<T>>,
}

impl<T: Copy> Slots<T> {
    pub closed spec fn view(&self) -> Seq<Option<T>> {
        self.entries@
    }

    /// A table of `n` free slots.
    pub fn new(n: usize) -> (r: Self)
        ensures
            r@ == no_slots::<T>(n as nat),
    {
        let mut entries: Vec<Option<T>> = Vec::new();
        let mut i: usize = 0;
        while i < n
            invariant
                i <= n,
                entries@ == no_slots::<T>(i as nat),
            decreases n - i,
        {
            entries.push(None);
            assert(entries@ =~= no_slots::<T>((i + 1) as nat));
            i += 1;
        }
        Slots { entries }
    }

    /// The number of slots.
    pub fn len(&self) -> (r: usize)
        ensures
            r == self@.len(),
    {
        self.entries.len()
    }

    /// What stands in a slot.
    pub fn get(&self, i: usize) -> (r: Option<T>)
        requires
            i < self@.len(),
        ensures
            r == self@[i as int],
    {
        self.entries[i]
    }

    /// Writes a slot.
    pub fn set(&mut self, i: usize, x: Option<T>)
        requires
            i < old(self)@.len(),
        ensures
            final(self)@ == old(self)@.update(i as int, x),
        no_unwind
    {
        self.entries[i] = x;
    }

    /// The first free slot.
    pub fn find_free(&self) -> (r: Option<usize>)
        ensures
            match r {
                Some(i) => i == first_free(self@) && i < self@.len(),
                None => first_free(self@) == self@.len(),
            },
    {
        let mut i: usize = 0;
        while i < self.entries.len()
            invariant
                i <= self.entries@.len(),
                first_free(self@) == free_from(self@, i as int),
            decreases self.entries@.len() - i,
        {
            if self.entries[i].is_none() {
                return Some(i);
            }
            i += 1;
        }
        None
    }

    /// The first slot in use.
    pub fn find_used(&self) -> (r: Option<usize>)
        ensures
            match r {
                Some(i) => i == first_used(self@) && i < self@.len(),
                None => first_used(self@) == self@.len(),
            },
    {
        let mut i: usize = 0;
        while i < self.entries.len()
            invariant
                i <= self.entries@.len(),
                first_used(self@) == used_from(self@, i as int),
            decreases self.entries@.len() - i,
        {
            if self.entries[i].is_some() {
                return Some(i);
            }
            i += 1;
        }
        None
    }

    /// Puts a value into the first free slot. Returns whether there was one.
    pub fn put(&mut self, x: T) -> (r: bool)
        ensures
            r == (first_free(old(self)@) < old(self)@.len()),
            final(self)@ == if r {
                old(self)@.update(first_free(old(self)@), Some(x))
            } else {
                old(self)@
            },
    {
        match self.find_free() {
            Some(i) => {
                self.set(i, Some(x));
                true
            },
            None => false,
        }
    }
}

} // verus!
