//! The memory regions that the clients of a POSIX server have mapped.

use crate::handle::PageSetHandle;
use crate::slots::{first_free, no_slots, Slots};
use crate::virtual_memory::PAGE_SIZE;
use vstd::prelude::*;

verus! {

/// The number of regions that can be mapped at one time.
pub const MAX_MMAP_REGIONS: usize = 16;

/// A mapped region. Two clients may have regions at one address, each in its own address
/// space; a client can only name regions of its own.
#[derive(Clone, Copy, Debug, PartialEq, Eq, Structural)]
pub struct MmapEntry {
    /// The client that the region belongs to.
    pub caller_token: u64,
    pub base_va: u64,
    pub len_bytes: u64,
    /// The server's handle of the region's pages.
    pub server_pageset: PageSetHandle,
}

impl MmapEntry {
    /// Whether this is the region of the given client at the given address.
    pub open spec fn is(self, caller_token: u64, base_va: u64) -> bool {
        self.caller_token == caller_token && self.base_va == base_va
    }

    /// The first address after the region.
    pub open spec fn end(self) -> int {
        self.base_va + pages_for(self.len_bytes) * PAGE_SIZE
    }
}

/// The number of pages that hold `len` bytes.
pub open spec fn pages_for(len: u64) -> int {
    (len + PAGE_SIZE - 1) / PAGE_SIZE as int
}

/// The slot of the first region from slot `i` on that is the client's at the address, or the
/// number of slots.
pub open spec fn region_from(
    s: Seq<Option<MmapEntry>>,
    caller_token: u64,
    base_va: u64,
    i: int,
) -> int
    decreases s.len() - i,
{
    if i < 0 || i >= s.len() {
        s.len() as int
    } else if s[i] is Some && (s[i]->0).is(caller_token, base_va) {
        i
    } else {
        region_from(s, caller_token, base_va, i + 1)
    }
}

/// The client's region at the address.
pub open spec fn region_at(s: Seq<Option<MmapEntry>>, caller_token: u64, base_va: u64) -> Option<
    MmapEntry,
> {
    let i = region_from(s, caller_token, base_va, 0);
    if i < s.len() {
        s[i]
    } else {
        None
    }
}

/// The regions without the client's region at the address.
pub open spec fn without_region(
    s: Seq<Option<MmapEntry>>,
    caller_token: u64,
    base_va: u64,
) -> Seq<Option<MmapEntry>> {
    let i = region_from(s, caller_token, base_va, 0);
    if i < s.len() {
        s.update(i, None)
    } else {
        s
    }
}

/// A region is found exactly where there is one.
pub proof fn lemma_region_from(
    s: Seq<Option<MmapEntry>>,
    caller_token: u64,
    base_va: u64,
    i: int,
)
    requires
        0 <= i <= s.len(),
    ensures
        i <= region_from(s, caller_token, base_va, i) <= s.len(),
        ({
            let k = region_from(s, caller_token, base_va, i);
            k < s.len() ==> s[k] is Some && (s[k]->0).is(caller_token, base_va)
        }),
        forall|k: int|
            i <= k < region_from(s, caller_token, base_va, i) ==> !((#[trigger] s[k]) is Some
                && (s[k]->0).is(caller_token, base_va)),
    decreases s.len() - i,
{
    if i < s.len() && !(s[i] is Some && (s[i]->0).is(caller_token, base_va)) {
        lemma_region_from(s, caller_token, base_va, i + 1);
    }
}

/// The regions that are mapped.
pub struct MmapTable {
    slots: Slots<MmapEntry>,
}

impl MmapTable {
    pub closed spec fn view(&self) -> Seq<Option<MmapEntry>> {
        self.slots@
    }

    pub fn new() -> (r: Self)
        ensures
            r@ == no_slots::<MmapEntry>(MAX_MMAP_REGIONS as nat),
    {
        MmapTable { slots: Slots::new(MAX_MMAP_REGIONS) }
    }

    /// Whether one more region can be kept.
    pub fn has_room(&self) -> (r: bool)
        ensures
            r == (first_free(self@) < self@.len()),
    {
        self.slots.find_free().is_some()
    }

    /// Keeps a region, unless there is no room.
    pub fn insert(&mut self, e: MmapEntry) -> (r: Result<(), ()>)
        ensures
            r is Ok <==> first_free(old(self)@) < old(self)@.len(),
            final(self)@ == if r is Ok {
                old(self)@.update(first_free(old(self)@), Some(e))
            } else {
                old(self)@
            },
    {
        if self.slots.put(e) {
            Ok(())
        } else {
            Err(())
        }
    }

    fn slot_of(&self, caller_token: u64, base_va: u64) -> (r: Option<usize>)
        ensures
            match r {
                Some(i) => i < self@.len() && i == region_from(self@, caller_token, base_va, 0),
                None => region_from(self@, caller_token, base_va, 0) == self@.len(),
            },
    {
        let mut i: usize = 0;
        while i < self.slots.len()
            invariant
                i <= self@.len(),
                region_from(self@, caller_token, base_va, 0) == region_from(
                    self@,
                    caller_token,
                    base_va,
                    i as int,
                ),
            decreases self@.len() - i,
        {
            if let Some(e) = self.slots.get(i) {
                if e.caller_token == caller_token && e.base_va == base_va {
                    return Some(i);
                }
            }
            i += 1;
        }
        None
    }

    /// Takes the client's region at the address out.
    pub fn take_by_base_va(&mut self, caller_token: u64, base_va: u64) -> (r: Option<MmapEntry>)
        ensures
            r == region_at(old(self)@, caller_token, base_va),
            final(self)@ == without_region(old(self)@, caller_token, base_va),
    {
        match self.slot_of(caller_token, base_va) {
            Some(i) => {
                let e = self.slots.get(i);
                self.slots.set(i, None);
                e
            },
            None => None,
        }
    }

    /// The client's region at the address.
    pub fn find_by_base_va(&self, caller_token: u64, base_va: u64) -> (r: Option<MmapEntry>)
        ensures
            r == region_at(self@, caller_token, base_va),
    {
        match self.slot_of(caller_token, base_va) {
            Some(i) => self.slots.get(i),
            None => None,
        }
    }
}

/// Hands out addresses upwards, and takes none back.
#[derive(Clone, Copy, Debug, PartialEq, Eq, Structural)]
pub struct MmapVaAllocator {
    pub next: u64,
    pub limit: u64,
}

impl MmapVaAllocator {
    pub fn new(base: u64, limit: u64) -> (r: Self)
        ensures
            r == (MmapVaAllocator { next: base, limit }),
    {
        MmapVaAllocator { next: base, limit }
    }

    /// The allocator after `pages` more pages, where there are that many.
    pub open spec fn after(self, pages: int) -> Option<MmapVaAllocator> {
        let end = self.next + pages * PAGE_SIZE;
        if end <= u64::MAX && end <= self.limit {
            Some(MmapVaAllocator { next: end as u64, limit: self.limit })
        } else {
            None
        }
    }

    /// Claims the next `pages` pages. Returns where they start, unless they would reach
    /// beyond the limit.
    pub fn claim(&mut self, pages: u64) -> (r: Option<u64>)
        ensures
            match old(self).after(pages as int) {
                Some(a) => r == Some(old(self).next) && *final(self) == a,
                None => r is None && *final(self) == *old(self),
            },
    {
        let bytes = match pages.checked_mul(PAGE_SIZE) {
            Some(b) => b,
            None => return None,
        };
        let end = match self.next.checked_add(bytes) {
            Some(e) => e,
            None => return None,
        };
        if end > self.limit {
            return None;
        }
        let base = self.next;
        self.next = end;
        Some(base)
    }
}

// ---------------------------------------------------------------------------
// What the regions keep
// ---------------------------------------------------------------------------

/// Whether the regions lie below the next free address and none overlaps another.
pub open spec fn regions_apart(s: Seq<Option<MmapEntry>>, next: u64) -> bool {
    &&& forall|i: int|
        0 <= i < s.len() && (#[trigger] s[i]) is Some ==> (s[i]->0).base_va < (s[i]->0).end()
            <= next
    &&& forall|i: int, j: int|
        0 <= i < j < s.len() && (#[trigger] s[i]) is Some && (#[trigger] s[j]) is Some ==> (
        s[i]->0).end() <= (s[j]->0).base_va || (s[j]->0).end() <= (s[i]->0).base_va
}

/// A region that was claimed and kept overlaps no other, and is found at its address.
pub proof fn lemma_map_region(
    s: Seq<Option<MmapEntry>>,
    va: MmapVaAllocator,
    e: MmapEntry,
)
    requires
        regions_apart(s, va.next),
        first_free(s) < s.len(),
        e.base_va == va.next,
        e.len_bytes > 0,
        va.after(pages_for(e.len_bytes)) is Some,
    ensures
        regions_apart(
            s.update(first_free(s), Some(e)),
            (va.after(pages_for(e.len_bytes))->0).next,
        ),
        region_at(s.update(first_free(s), Some(e)), e.caller_token, e.base_va) == Some(e),
{
    crate::slots::lemma_first_free(s, 0);
    let t = s.update(first_free(s), Some(e));
    assert(pages_for(e.len_bytes) >= 1);
    assert(va.next < e.end()) by (nonlinear_arith)
        requires
            pages_for(e.len_bytes) >= 1,
            e.base_va == va.next,
            e.end() == e.base_va + pages_for(e.len_bytes) * PAGE_SIZE,
            PAGE_SIZE == 4096,
    ;
    lemma_region_from(t, e.caller_token, e.base_va, 0);
    let k = region_from(t, e.caller_token, e.base_va, 0);
    assert(t[first_free(s)] == Some(e));
    if k < first_free(s) {
        assert(s[k] == t[k]);
        assert(t[k] is Some);
    }
}

/// Taking a region out leaves the others as they are, those of other clients among them.
pub proof fn lemma_unmap_region(
    s: Seq<Option<MmapEntry>>,
    next: u64,
    caller_token: u64,
    base_va: u64,
)
    ensures
        regions_apart(s, next) ==> regions_apart(
            without_region(s, caller_token, base_va),
            next,
        ),
        without_region(s, caller_token, base_va).len() == s.len(),
        forall|i: int|
            0 <= i < s.len() && (#[trigger] s[i]) is Some && !(s[i]->0).is(caller_token, base_va)
                ==> without_region(s, caller_token, base_va)[i] == s[i],
{
    lemma_region_from(s, caller_token, base_va, 0);
    let t = without_region(s, caller_token, base_va);
    if regions_apart(s, next) {
        assert forall|i: int, j: int|
            0 <= i < j < t.len() && (#[trigger] t[i]) is Some && (#[trigger] t[j]) is Some implies (
        t[i]->0).end() <= (t[j]->0).base_va || (t[j]->0).end() <= (t[i]->0).base_va by {
            assert(t[i] == s[i] && t[j] == s[j]);
        }
        assert forall|i: int| 0 <= i < t.len() && (#[trigger] t[i]) is Some implies (
        t[i]->0).base_va < (t[i]->0).end() <= next by {
            assert(t[i] == s[i]);
        }
    }
}

/// A region that was taken out is not found any more.
pub proof fn lemma_unmapped_is_gone(
    s: Seq<Option<MmapEntry>>,
    next: u64,
    caller_token: u64,
    base_va: u64,
)
    requires
        regions_apart(s, next),
    ensures
        region_at(without_region(s, caller_token, base_va), caller_token, base_va) is None,
{
    lemma_region_from(s, caller_token, base_va, 0);
    let t = without_region(s, caller_token, base_va);
    lemma_region_from(t, caller_token, base_va, 0);
    let i = region_from(s, caller_token, base_va, 0);
    let k = region_from(t, caller_token, base_va, 0);
    if k < t.len() {
        assert(t[k] == s[k]);
        if i < s.len() {
            if i < k {
                assert(s[i] is Some && s[k] is Some);
            } else {
                assert(k < i);
            }
        }
    }
}

} // verus!
