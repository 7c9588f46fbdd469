//! The allocator of a process's virtual addresses.
//!
//! The free addresses stand in a list of regions, in ascending order, none touching the
//! next. The allocator hands out pages from the first region that fits, searching on from
//! where it last found one.

use crate::handle::PageSetHandle;
use crate::syscall::{Reply, Request, SyscallError};
use vstd::prelude::*;

verus! {

/// The size of a page in bytes.
pub const PAGE_SIZE: u64 = 4096;

/// Where a program's image starts.
pub const IMAGE_BASE: u64 = 0x0040_0000;

/// Where a program's stack starts.
pub const USER_STACK_BASE: u64 = 0x0080_0000;

/// The bytes at address zero that are never handed out, to catch null pointers.
pub const NULL_GUARD_SIZE: u64 = 0x1_0000;

/// The number of free regions that the allocator keeps track of.
pub const MAX_REGIONS: usize = 64;

/// A run of free pages.
#[derive(Clone, Copy)]
pub struct FreeRegion {
    pub base: u64,
    pub pages: u64,
}

impl FreeRegion {
    /// The address behind the region.
    pub open spec fn end(self) -> int {
        self.base + self.pages * PAGE_SIZE
    }
}

/// Whether the list is in order: no region is empty, each ends below the last address and
/// below the start of the next.
pub open spec fn in_order(v: Seq<FreeRegion>) -> bool {
    &&& forall|i: int| 0 <= i < v.len() ==> (#[trigger] v[i]).pages > 0 && v[i].end() <= u64::MAX
    &&& forall|i: int, j: int|
        0 <= i < j < v.len() ==> (#[trigger] v[i]).end() < (#[trigger] v[j]).base
}

/// Whether every region starts at a page.
pub open spec fn at_pages(v: Seq<FreeRegion>) -> bool {
    forall|i: int| 0 <= i < v.len() ==> (#[trigger] v[i]).base % PAGE_SIZE == 0
}

/// Whether an address lies in one of the regions.
pub open spec fn is_free(v: Seq<FreeRegion>, addr: int) -> bool {
    exists|i: int| 0 <= i < v.len() && (#[trigger] v[i]).base <= addr < v[i].end()
}

/// The allocator.
pub struct VirtualMemory {
    regions: Vec<FreeRegion>,
    cursor: usize,
    initialized: bool,
}

/// What the kernel says of an address: whether it is mapped, and the number of pages
/// mapped from there on; `None` where the query failed.
pub type MappingQuery = Option<(bool, u64)>;

/// Where the search for `need` pages from `cursor` on ends, after `i` regions were too
/// small: the index of the region, or the number of regions.
pub open spec fn fit_from(v: Seq<FreeRegion>, cursor: int, need: int, i: int) -> int
    decreases v.len() - i,
{
    if i < 0 || i >= v.len() {
        v.len() as int
    } else if v[(cursor + i) % v.len() as int].pages >= need {
        (cursor + i) % v.len() as int
    } else {
        fit_from(v, cursor, need, i + 1)
    }
}

/// The region that the search finds, or the number of regions.
pub open spec fn fit(v: Seq<FreeRegion>, cursor: int, need: int) -> int {
    fit_from(v, cursor, need, 0)
}

/// Where the next search starts after the first `need` pages of region `i` were handed out:
/// at that region, or at the one behind it where it was used up.
pub open spec fn moved_to(v: Seq<FreeRegion>, i: int, need: int) -> int {
    if v[i].pages != need {
        i
    } else if v.len() > 1 {
        i % (v.len() - 1)
    } else {
        0
    }
}

/// The list after the first `need` pages of region `i` were handed out.
pub open spec fn taken(v: Seq<FreeRegion>, i: int, need: u64) -> Seq<FreeRegion> {
    if v[i].pages == need {
        v.remove(i)
    } else {
        v.update(
            i,
            FreeRegion {
                base: (v[i].base + need * PAGE_SIZE) as u64,
                pages: (v[i].pages - need) as u64,
            },
        )
    }
}

/// Whether a range shares an address with a free region.
pub open spec fn overlaps(v: Seq<FreeRegion>, va: int, end: int) -> bool {
    exists|i: int| 0 <= i < v.len() && va < (#[trigger] v[i]).end() && end > v[i].base
}

/// The number of regions that start below `end`, counted from region `i` on.
pub open spec fn place_from(v: Seq<FreeRegion>, end: int, i: int) -> int
    decreases v.len() - i,
{
    if i < 0 || i >= v.len() || v[i].base >= end {
        i
    } else {
        place_from(v, end, i + 1)
    }
}

/// Whether the region before place `at` ends where a freed range starts.
pub open spec fn joins_before(v: Seq<FreeRegion>, at: int, va: int) -> bool {
    at > 0 && v[at - 1].end() == va
}

/// Whether the region at place `at` starts where a freed range ends.
pub open spec fn joins_after(v: Seq<FreeRegion>, at: int, end: int) -> bool {
    at < v.len() && v[at].base == end
}

/// The list after a range that overlaps no region was given back.
pub open spec fn given_back(v: Seq<FreeRegion>, va: u64, pages: u64) -> Seq<FreeRegion> {
    let end = va + pages * PAGE_SIZE;
    let at = place_from(v, end, 0);
    if joins_before(v, at, va as int) && joins_after(v, at, end) {
        v.remove(at).update(
            at - 1,
            FreeRegion {
                base: v[at - 1].base,
                pages: (v[at - 1].pages + pages + v[at].pages) as u64,
            },
        )
    } else if joins_before(v, at, va as int) {
        v.update(
            at - 1,
            FreeRegion { base: v[at - 1].base, pages: (v[at - 1].pages + pages) as u64 },
        )
    } else if joins_after(v, at, end) {
        v.update(at, FreeRegion { base: va, pages: (v[at].pages + pages) as u64 })
    } else if v.len() >= MAX_REGIONS {
        v
    } else {
        v.insert(at, FreeRegion { base: va, pages })
    }
}

/// The list after a request to give a range back; one that overlaps a free region is
/// ignored.
pub open spec fn freed(v: Seq<FreeRegion>, va: u64, pages: u64) -> Seq<FreeRegion> {
    if pages == 0 || overlaps(v, va as int, va + pages * PAGE_SIZE) {
        v
    } else {
        given_back(v, va, pages)
    }
}

/// The first region from `i` on that holds the range, or the number of regions.
pub open spec fn holder_from(v: Seq<FreeRegion>, va: int, end: int, i: int) -> int
    decreases v.len() - i,
{
    if i < 0 || i >= v.len() {
        v.len() as int
    } else if v[i].base <= va && v[i].end() >= end {
        i
    } else {
        holder_from(v, va, end, i + 1)
    }
}

/// The whole pages of region `i` before a range.
pub open spec fn pages_before(v: Seq<FreeRegion>, i: int, va: int) -> int {
    (va - v[i].base) / PAGE_SIZE as int
}

/// The whole pages of region `i` behind a range.
pub open spec fn pages_after(v: Seq<FreeRegion>, i: int, end: int) -> int {
    (v[i].end() - end) / PAGE_SIZE as int
}

/// The list after a range was cut out of region `i`, and whether it could be.
pub open spec fn cut_out(v: Seq<FreeRegion>, i: int, va: int, end: int) -> (Seq<FreeRegion>, bool) {
    let before = pages_before(v, i, va);
    let after = pages_after(v, i, end);
    let head = FreeRegion { base: v[i].base, pages: before as u64 };
    let tail = FreeRegion { base: end as u64, pages: after as u64 };
    if before == 0 && after == 0 {
        (v.remove(i), true)
    } else if before == 0 {
        (v.update(i, tail), true)
    } else if after == 0 {
        (v.update(i, head), true)
    } else if v.len() >= MAX_REGIONS {
        (v, false)
    } else {
        (v.update(i, head).insert(i + 1, tail), true)
    }
}

/// The list after a request to reserve a range, and whether it was met.
pub open spec fn reserved(v: Seq<FreeRegion>, va: u64, pages: u64) -> (Seq<FreeRegion>, bool) {
    let end = va + pages * PAGE_SIZE;
    let i = holder_from(v, va as int, end, 0);
    if pages == 0 {
        (v, true)
    } else if i < v.len() {
        cut_out(v, i, va as int, end)
    } else {
        (v, false)
    }
}

/// The list after the pages that a query found at `base` were reserved.
pub open spec fn after_query(v: Seq<FreeRegion>, base: u64, q: MappingQuery) -> Seq<FreeRegion> {
    match q {
        Some((true, run)) => reserved(v, base, run).0,
        _ => v,
    }
}

/// The list of a fresh process: everything below `va_end` but the null guard, the image
/// and the stack.
pub open spec fn initial_regions(va_end: u64, image: MappingQuery, stack: MappingQuery) -> Seq<
    FreeRegion,
> {
    let all = seq![FreeRegion { base: 0, pages: (va_end / PAGE_SIZE) as u64 }];
    let guarded = reserved(all, 0, 16).0;
    after_query(after_query(guarded, IMAGE_BASE, image), USER_STACK_BASE, stack)
}

/// The pages that a query found.
pub open spec fn run_of(q: MappingQuery) -> u64 {
    match q {
        Some((true, run)) => run,
        _ => 0,
    }
}

/// The address behind the pages that a query found at `base`.
pub open spec fn run_end(base: u64, q: MappingQuery) -> int {
    base + run_of(q) * PAGE_SIZE
}

/// Whether the pages that a query found end below the last address.
pub open spec fn query_fits(base: u64, q: MappingQuery) -> bool {
    run_end(base, q) <= u64::MAX
}

/// The end of the last whole page below `va_end`.
pub open spec fn last_page_end(va_end: u64) -> int {
    va_end / PAGE_SIZE * PAGE_SIZE
}

/// Whether an address belongs to the image of a fresh process. Pages that would reach beyond
/// the last one are not believed.
pub open spec fn in_image(va_end: u64, image: MappingQuery, addr: int) -> bool {
    run_end(IMAGE_BASE, image) <= last_page_end(va_end) && IMAGE_BASE <= addr < run_end(
        IMAGE_BASE,
        image,
    )
}

/// Whether an address belongs to the stack of a fresh process. Pages that would reach beyond
/// the last one, or that start in the image, are not believed.
pub open spec fn in_stack(va_end: u64, image: MappingQuery, stack: MappingQuery, addr: int) -> bool {
    &&& run_end(USER_STACK_BASE, stack) <= last_page_end(va_end)
    &&& !in_image(va_end, image, USER_STACK_BASE as int)
    &&& USER_STACK_BASE <= addr < run_end(USER_STACK_BASE, stack)
}

/// Whether an address of a fresh process is free: it lies behind the null guard and in a whole
/// page, and neither the image nor the stack has it.
pub open spec fn initially_free(
    va_end: u64,
    image: MappingQuery,
    stack: MappingQuery,
    addr: int,
) -> bool {
    &&& NULL_GUARD_SIZE <= addr < last_page_end(va_end)
    &&& !in_image(va_end, image, addr)
    &&& !in_stack(va_end, image, stack, addr)
}

// ---------------------------------------------------------------------------
// Facts about the lists
// ---------------------------------------------------------------------------

proof fn lemma_fit(v: Seq<FreeRegion>, cursor: int, need: int, i: int)
    requires
        0 <= i <= v.len(),
        0 <= cursor,
    ensures
        fit_from(v, cursor, need, i) <= v.len(),
        0 <= fit_from(v, cursor, need, i),
        fit_from(v, cursor, need, i) < v.len() ==> v[fit_from(v, cursor, need, i)].pages >= need,
    decreases v.len() - i,
{
    if i < v.len() {
        lemma_fit(v, cursor, need, i + 1);
    }
}

proof fn lemma_taken_in_order(v: Seq<FreeRegion>, i: int, need: u64)
    requires
        in_order(v),
        0 <= i < v.len(),
        0 < need <= v[i].pages,
    ensures
        in_order(taken(v, i, need)),
{
    let out = taken(v, i, need);
    assert(v[i].pages > 0 && v[i].end() <= u64::MAX);
    if v[i].pages == need {
        assert forall|k: int| 0 <= k < out.len() implies (#[trigger] out[k]).pages > 0
            && out[k].end() <= u64::MAX by {
            let s = if k < i { k } else { k + 1 };
            assert(out[k] == v[s]);
        }
        assert forall|a: int, b: int| 0 <= a < b < out.len() implies (#[trigger] out[a]).end() < (
        #[trigger] out[b]).base by {
            let s = if a < i { a } else { a + 1 };
            let t = if b < i { b } else { b + 1 };
            assert(out[a] == v[s] && out[b] == v[t]);
        }
    } else {
        assert(out[i].end() == v[i].end());
        assert forall|a: int, b: int| 0 <= a < b < out.len() implies (#[trigger] out[a]).end() < (
        #[trigger] out[b]).base by {
            assert(v[a].end() < v[b].base);
        }
    }
}

proof fn lemma_place(v: Seq<FreeRegion>, end: int, i: int)
    requires
        0 <= i <= v.len(),
    ensures
        i <= place_from(v, end, i) <= v.len(),
        forall|k: int| i <= k < place_from(v, end, i) ==> (#[trigger] v[k]).base < end,
        place_from(v, end, i) < v.len() ==> v[place_from(v, end, i)].base >= end,
    decreases v.len() - i,
{
    if i < v.len() && v[i].base < end {
        lemma_place(v, end, i + 1);
    }
}

/// What holds around a range that overlaps no region: the regions before its place end at
/// or below its start, and those behind start at or above its end.
proof fn lemma_around(v: Seq<FreeRegion>, va: int, end: int)
    requires
        in_order(v),
        va < end,
        !overlaps(v, va, end),
    ensures
        0 <= place_from(v, end, 0) <= v.len(),
        forall|k: int| 0 <= k < place_from(v, end, 0) ==> (#[trigger] v[k]).end() <= va,
        forall|k: int|
            place_from(v, end, 0) <= k < v.len() ==> end <= (#[trigger] v[k]).base,
{
    lemma_place(v, end, 0);
    let at = place_from(v, end, 0);
    assert forall|k: int| at <= k < v.len() implies end <= (#[trigger] v[k]).base by {
        if k > at {
            assert(v[at].end() < v[k].base);
        }
    }
}

proof fn lemma_given_back_in_order(v: Seq<FreeRegion>, va: u64, pages: u64)
    requires
        in_order(v),
        pages > 0,
        va + pages * PAGE_SIZE <= u64::MAX,
        !overlaps(v, va as int, va + pages * PAGE_SIZE),
    ensures
        in_order(given_back(v, va, pages)),
        v.len() <= MAX_REGIONS ==> given_back(v, va, pages).len() <= MAX_REGIONS,
{
    let end = va + pages * PAGE_SIZE;
    let at = place_from(v, end, 0);
    let out = given_back(v, va, pages);
    lemma_around(v, va as int, end);
    if joins_before(v, at, va as int) && joins_after(v, at, end) {
        assert(out.len() == v.len() - 1);
        assert(out[at - 1].end() == v[at].end());
        assert forall|k: int| 0 <= k < out.len() implies (#[trigger] out[k]).pages > 0
            && out[k].end() <= u64::MAX by {
            if k != at - 1 {
                let s = if k < at { k } else { k + 1 };
                assert(out[k] == v[s]);
            }
        }
        assert forall|a: int, b: int| 0 <= a < b < out.len() implies (#[trigger] out[a]).end() < (
        #[trigger] out[b]).base by {
            let s = if a < at - 1 { a } else { a + 1 };
            let t = if b < at { b } else { b + 1 };
            assert(out[a].end() == v[s].end());
            assert(out[b].base == v[t].base);
        }
    } else if joins_before(v, at, va as int) {
        assert(out[at - 1].end() == end);
        assert forall|a: int, b: int| 0 <= a < b < out.len() implies (#[trigger] out[a]).end() < (
        #[trigger] out[b]).base by {
            assert(v[a].end() < v[b].base);
        }
    } else if joins_after(v, at, end) {
        assert(out[at].end() == v[at].end());
        assert forall|a: int, b: int| 0 <= a < b < out.len() implies (#[trigger] out[a]).end() < (
        #[trigger] out[b]).base by {
            assert(v[a].end() < v[b].base);
            if b == at {
                assert(v[a].end() <= va);
                if a < at - 1 {
                    assert(v[a].end() < v[at - 1].base);
                }
            }
        }
    } else if v.len() < MAX_REGIONS {
        assert forall|k: int| 0 <= k < out.len() implies (#[trigger] out[k]).pages > 0
            && out[k].end() <= u64::MAX by {
            if k != at {
                let s = if k < at { k } else { k - 1 };
                assert(out[k] == v[s]);
            }
        }
        assert forall|a: int, b: int| 0 <= a < b < out.len() implies (#[trigger] out[a]).end() < (
        #[trigger] out[b]).base by {
            let s = if a < at { a } else { a - 1 };
            let t = if b < at { b } else { b - 1 };
            if a == at {
                assert(out[b] == v[t]);
                if t > at {
                    assert(v[at].end() < v[t].base);
                }
            } else if b == at {
                assert(out[a] == v[s]);
                if s < at - 1 {
                    assert(v[s].end() < v[at - 1].base);
                }
            } else {
                assert(out[a] == v[s] && out[b] == v[t]);
            }
        }
    }
}

proof fn lemma_taken_at_pages(v: Seq<FreeRegion>, i: int, need: u64)
    requires
        in_order(v),
        0 <= i < v.len(),
        0 < need <= v[i].pages,
    ensures
        at_pages(v) ==> at_pages(taken(v, i, need)),
{
    let out = taken(v, i, need);
    assert(v[i].end() <= u64::MAX);
    if at_pages(v) {
        assert forall|k: int| 0 <= k < out.len() implies (#[trigger] out[k]).base % PAGE_SIZE
            == 0 by {
            let s = if v[i].pages == need && k >= i { k + 1 } else { k };
            assert(v[s].base % PAGE_SIZE == 0);
        }
    }
}

proof fn lemma_given_back_at_pages(v: Seq<FreeRegion>, va: u64, pages: u64)
    requires
        in_order(v),
        at_pages(v),
        va % PAGE_SIZE == 0,
        pages > 0,
        va + pages * PAGE_SIZE <= u64::MAX,
    ensures
        at_pages(given_back(v, va, pages)),
{
    let end = va + pages * PAGE_SIZE;
    let at = place_from(v, end, 0);
    let out = given_back(v, va, pages);
    lemma_place(v, end, 0);
    let before = joins_before(v, at, va as int);
    let after = joins_after(v, at, end);
    assert forall|k: int| 0 <= k < out.len() implies (#[trigger] out[k]).base % PAGE_SIZE == 0 by {
        let s = if before && after && k >= at {
            k + 1
        } else if !before && !after && v.len() < MAX_REGIONS && k > at {
            k - 1
        } else {
            k
        };
        if s < v.len() {
            assert(v[s].base % PAGE_SIZE == 0);
        }
    }
}

proof fn lemma_holder(v: Seq<FreeRegion>, va: int, end: int, i: int)
    requires
        0 <= i <= v.len(),
    ensures
        i <= holder_from(v, va, end, i) <= v.len(),
        holder_from(v, va, end, i) < v.len() ==> {
            let h = holder_from(v, va, end, i);
            v[h].base <= va && v[h].end() >= end
        },
        forall|k: int|
            i <= k < holder_from(v, va, end, i) ==> !((#[trigger] v[k]).base <= va && v[k].end()
                >= end),
    decreases v.len() - i,
{
    if i < v.len() && !(v[i].base <= va && v[i].end() >= end) {
        lemma_holder(v, va, end, i + 1);
    }
}

proof fn lemma_cut_out_in_order(v: Seq<FreeRegion>, i: int, va: int, end: int)
    requires
        in_order(v),
        0 <= i < v.len(),
        v[i].base <= va < end <= v[i].end(),
    ensures
        in_order(cut_out(v, i, va, end).0),
        v.len() <= MAX_REGIONS ==> cut_out(v, i, va, end).0.len() <= MAX_REGIONS,
{
    let out = cut_out(v, i, va, end).0;
    let before = pages_before(v, i, va);
    let after = pages_after(v, i, end);
    let head = FreeRegion { base: v[i].base, pages: before as u64 };
    let tail = FreeRegion { base: end as u64, pages: after as u64 };
    assert(v[i].end() <= u64::MAX);
    assert(before <= v[i].pages && after <= v[i].pages);
    assert(head.end() <= va && tail.end() <= v[i].end());
    if before == 0 && after == 0 {
        assert forall|k: int| 0 <= k < out.len() implies (#[trigger] out[k]).pages > 0
            && out[k].end() <= u64::MAX by {
            let s = if k < i { k } else { k + 1 };
            assert(out[k] == v[s]);
        }
        assert forall|a: int, b: int| 0 <= a < b < out.len() implies (#[trigger] out[a]).end() < (
        #[trigger] out[b]).base by {
            let s = if a < i { a } else { a + 1 };
            let t = if b < i { b } else { b + 1 };
            assert(out[a] == v[s] && out[b] == v[t]);
        }
    } else if before == 0 || after == 0 {
        assert forall|a: int, b: int| 0 <= a < b < out.len() implies (#[trigger] out[a]).end() < (
        #[trigger] out[b]).base by {
            assert(v[a].end() < v[b].base);
        }
    } else if v.len() < MAX_REGIONS {
        assert forall|k: int| 0 <= k < out.len() implies (#[trigger] out[k]).pages > 0
            && out[k].end() <= u64::MAX by {
            if k < i {
                assert(out[k] == v[k]);
            } else if k > i + 1 {
                assert(out[k] == v[k - 1]);
            }
        }
        assert forall|a: int, b: int| 0 <= a < b < out.len() implies (#[trigger] out[a]).end() < (
        #[trigger] out[b]).base by {
            let s = if a <= i { a } else { a - 1 };
            let t = if b <= i { b } else { b - 1 };
            assert(v[s].end() <= u64::MAX && v[t].end() <= u64::MAX);
            if s < t {
                assert(v[s].end() < v[t].base);
            }
        }
    }
}

// ---------------------------------------------------------------------------
// The allocator
// ---------------------------------------------------------------------------

impl VirtualMemory {
    /// The free regions, in order.
    pub closed spec fn view(&self) -> Seq<FreeRegion> {
        self.regions@
    }

    /// Where the next search starts.
    pub closed spec fn at(&self) -> nat {
        self.cursor as nat
    }

    /// Whether the process's mappings are known.
    pub closed spec fn is_ready(&self) -> bool {
        self.initialized
    }

    /// Whether the regions are in order and no more than the allocator keeps track of.
    pub closed spec fn valid(&self) -> bool {
        in_order(self.regions@) && self.regions@.len() <= MAX_REGIONS && self.cursor < MAX_REGIONS
    }

    /// The regions of a valid allocator are in order and no more than it keeps track of.
    pub proof fn lemma_valid(&self)
        requires
            self.valid(),
        ensures
            in_order(self@),
            self@.len() <= MAX_REGIONS,
            self.at() < MAX_REGIONS,
    {
    }

    /// The region that a search finds has the pages and ends below the last address.
    pub proof fn lemma_fits(&self, need: int)
        requires
            self.valid(),
        ensures
            ({
                let i = fit(self@, self.at() as int, need);
                i < self@.len() ==> 0 <= i && self@[i].pages >= need && self@[i].base + need
                    * PAGE_SIZE <= u64::MAX
            }),
    {
        lemma_fit(self@, self.at() as int, need, 0);
        let i = fit(self@, self.at() as int, need);
        if i < self@.len() {
            assert(self@[i].end() <= u64::MAX);
        }
    }

    /// An allocator that does not know the process's mappings yet.
    pub fn new() -> (r: Self)
        ensures
            r.valid(),
            !r.is_ready(),
            r@.len() == 0,
            at_pages(r@),
            r.at() == 0,
    {
        VirtualMemory { regions: Vec::new(), cursor: 0, initialized: false }
    }

    /// An allocator with one free region.
    pub fn with_region(base: u64, pages: u64) -> (r: Self)
        requires
            pages > 0,
            base + pages * PAGE_SIZE <= u64::MAX,
        ensures
            r.valid(),
            r.is_ready(),
            r@ == seq![FreeRegion { base, pages }],
            base % PAGE_SIZE == 0 ==> at_pages(r@),
            r.at() == 0,
    {
        let mut regions: Vec<FreeRegion> = Vec::new();
        regions.push(FreeRegion { base, pages });
        VirtualMemory { regions, cursor: 0, initialized: true }
    }

    /// Whether the process's mappings are known.
    pub fn ready(&self) -> (r: bool)
        ensures
            r == self.is_ready(),
    {
        self.initialized
    }

    /// The free regions, in order.
    pub fn free_regions(&self) -> (out: Vec<(u64, u64)>)
        ensures
            out@ == Seq::new(self@.len(), |i: int| (self@[i].base, self@[i].pages)),
    {
        let mut out: Vec<(u64, u64)> = Vec::new();
        let mut i: usize = 0;
        while i < self.regions.len()
            invariant
                i <= self.regions@.len(),
                out@.len() == i,
                forall|k: int|
                    0 <= k < i ==> #[trigger] out@[k] == (
                        self.regions@[k].base,
                        self.regions@[k].pages,
                    ),
            decreases self.regions@.len() - i,
        {
            out.push((self.regions[i].base, self.regions[i].pages));
            i += 1;
        }
        assert(out@ =~= Seq::new(self@.len(), |i: int| (self@[i].base, self@[i].pages)));
        out
    }

    /// Learns the process's mappings: the addresses end at `va_end`, and the kernel was
    /// asked for the pages mapped at the image's and at the stack's start. Does nothing
    /// where they are known already.
    pub fn ensure_init(&mut self, va_end: u64, image: MappingQuery, stack: MappingQuery)
        requires
            old(self).valid(),
            NULL_GUARD_SIZE < va_end,
            query_fits(IMAGE_BASE, image),
            query_fits(USER_STACK_BASE, stack),
        ensures
            final(self).valid(),
            final(self).is_ready(),
            old(self).is_ready() ==> *final(self) == *old(self),
            !old(self).is_ready() ==> final(self)@ == initial_regions(va_end, image, stack)
                && final(self).at() == 0 && at_pages(final(self)@) && forall|addr: int| #[trigger]
                is_free(final(self)@, addr) <==> initially_free(va_end, image, stack, addr),
    {
        if self.initialized {
            return;
        }
        self.regions = Vec::new();
        self.regions.push(FreeRegion { base: 0, pages: va_end / PAGE_SIZE });
        self.cursor = 0;
        assert(self.regions@ =~= seq![
            FreeRegion { base: 0, pages: va_end / PAGE_SIZE },
        ]);
        self.reserve_internal(0, 16);
        if let Some((mapped, run)) = image {
            if mapped && run > 0 {
                self.reserve_internal(IMAGE_BASE, run);
            }
        }
        if let Some((mapped, run)) = stack {
            if mapped && run > 0 {
                self.reserve_internal(USER_STACK_BASE, run);
            }
        }
        self.initialized = true;
        proof {
            lemma_initial_regions(va_end, image, stack);
        }
    }

    /// Hands out `page_count` pages: the start of the first region that fits, searching
    /// from where the last search ended. Where the regions start at pages, so does what is
    /// handed out, and so do the regions that are left.
    pub fn alloc_pages(&mut self, page_count: usize) -> (r: Option<u64>)
        requires
            old(self).valid(),
            old(self).is_ready(),
        ensures
            final(self).valid(),
            final(self).is_ready(),
            at_pages(old(self)@) ==> at_pages(final(self)@) && (r is Some ==> r->0 % PAGE_SIZE
                == 0),
            ({
                let v = old(self)@;
                let i = fit(v, old(self).at() as int, page_count as int);
                if page_count > 0 && i < v.len() {
                    &&& r == Some(v[i].base)
                    &&& final(self)@ == taken(v, i, page_count as u64)
                    &&& final(self).at() == moved_to(v, i, page_count as int)
                } else {
                    r is None && *final(self) == *old(self)
                }
            }),
    {
        if page_count == 0 {
            return None;
        }
        let ghost v = self.regions@;
        let start: usize = self.cursor;
        let n: usize = self.regions.len();
        let mut i: usize = 0;
        while i < n
            invariant
                *self == *old(self),
                v == self.regions@,
                start == self.cursor,
                start < MAX_REGIONS,
                n == v.len(),
                n <= MAX_REGIONS,
                i <= n,
                page_count > 0,
                self.valid(),
                self.initialized,
                fit(v, start as int, page_count as int) == fit_from(
                    v,
                    start as int,
                    page_count as int,
                    i as int,
                ),
            decreases n - i,
        {
            let idx: usize = (start + i) % n;
            if self.regions[idx].pages >= page_count as u64 {
                let region = self.regions[idx];
                proof {
                    lemma_taken_in_order(v, idx as int, page_count as u64);
                    lemma_taken_at_pages(v, idx as int, page_count as u64);
                    assert(region.end() <= u64::MAX);
                }
                if region.pages == page_count as u64 {
                    self.regions.remove(idx);
                    self.cursor = if self.regions.len() > 0 {
                        idx % self.regions.len()
                    } else {
                        0
                    };
                } else {
                    let shrunk = FreeRegion {
                        base: region.base + page_count as u64 * PAGE_SIZE,
                        pages: region.pages - page_count as u64,
                    };
                    self.regions.set(idx, shrunk);
                    self.cursor = idx;
                }
                return Some(region.base);
            }
            i += 1;
        }
        None
    }

    /// Gives back a range whose pages were unmapped.
    pub fn free_unmapped(&mut self, proof_of: VaUnmapped)
        requires
            old(self).valid(),
            old(self).is_ready(),
            proof_of.start() + proof_of.count() * PAGE_SIZE <= u64::MAX,
        ensures
            final(self).valid(),
            final(self).is_ready(),
            final(self)@ == freed(old(self)@, proof_of.start(), proof_of.count() as u64),
            at_pages(old(self)@) && proof_of.start() % PAGE_SIZE == 0 ==> at_pages(final(self)@),
            final(self).at() == old(self).at(),
    {
        self.free_internal(proof_of.va, proof_of.pages);
    }

    /// Gives back a range that was handed out and never mapped.
    pub fn free_unused_allocation(&mut self, va: u64, page_count: usize)
        requires
            old(self).valid(),
            old(self).is_ready(),
            va + page_count * PAGE_SIZE <= u64::MAX,
        ensures
            final(self).valid(),
            final(self).is_ready(),
            final(self)@ == freed(old(self)@, va, page_count as u64),
            at_pages(old(self)@) && va % PAGE_SIZE == 0 ==> at_pages(final(self)@),
            final(self).at() == old(self).at(),
    {
        self.free_internal(va, page_count);
    }

    /// Gives back a range. One that overlaps a free region is ignored, as is one for
    /// which the list has no room.
    pub fn free_internal(&mut self, va: u64, page_count: usize)
        requires
            old(self).valid(),
            old(self).is_ready(),
            va + page_count * PAGE_SIZE <= u64::MAX,
        ensures
            final(self).valid(),
            final(self).is_ready(),
            final(self)@ == freed(old(self)@, va, page_count as u64),
            at_pages(old(self)@) && va % PAGE_SIZE == 0 ==> at_pages(final(self)@),
            final(self).at() == old(self).at(),
    {
        if page_count == 0 {
            return;
        }
        let ghost v = self.regions@;
        let end: u64 = va + page_count as u64 * PAGE_SIZE;
        let mut insert_at: usize = 0;
        while insert_at < self.regions.len() && self.regions[insert_at].base < end
            invariant
                v == self.regions@,
                *self == *old(self),
                self.valid(),
                self.initialized,
                insert_at <= v.len(),
                va < end,
                end == va + page_count * PAGE_SIZE,
                place_from(v, end as int, 0) == place_from(v, end as int, insert_at as int),
                forall|k: int| 0 <= k < insert_at ==> (#[trigger] v[k]).end() <= va,
            decreases v.len() - insert_at,
        {
            let r = self.regions[insert_at];
            assert(r == v[insert_at as int] && r.end() <= u64::MAX);
            let r_end: u64 = r.base + r.pages as u64 * PAGE_SIZE;
            if va < r_end {
                assert(overlaps(v, va as int, end as int));
                return;
            }
            insert_at += 1;
        }
        let ghost at = insert_at as int;
        proof {
            assert(place_from(v, end as int, 0) == at);
            assert forall|k: int| at <= k < v.len() implies end <= (#[trigger] v[k]).base by {
                if k > at {
                    assert(v[at].end() < v[k].base);
                }
            }
            assert(!overlaps(v, va as int, end as int));
            lemma_given_back_in_order(v, va, page_count as u64);
            if at_pages(v) && va % PAGE_SIZE == 0 {
                lemma_given_back_at_pages(v, va, page_count as u64);
            }
        }
        let mut merged = false;
        if insert_at > 0 {
            let prev = self.regions[insert_at - 1];
            assert(prev == v[at - 1] && prev.end() <= u64::MAX);
            let prev_end: u64 = prev.base + prev.pages as u64 * PAGE_SIZE;
            if prev_end == va {
                merged = true;
            }
        }
        if merged {
            let prev = self.regions[insert_at - 1];
            let mut pages: u64 = prev.pages;
            if insert_at < self.regions.len() && self.regions[insert_at].base == end {
                let next = self.regions[insert_at];
                assert(next == v[at] && next.end() <= u64::MAX);
                proof {
                    lemma_pages_fit(prev.base, prev.pages + page_count + next.pages);
                }
                pages = pages + page_count as u64 + next.pages;
                self.regions.remove(insert_at);
            } else {
                proof {
                    lemma_pages_fit(prev.base, prev.pages + page_count);
                }
                pages = pages + page_count as u64;
            }
            self.regions.set(insert_at - 1, FreeRegion { base: prev.base, pages });
        } else if insert_at < self.regions.len() && self.regions[insert_at].base == end {
            let next = self.regions[insert_at];
            assert(next == v[at] && next.end() <= u64::MAX);
            proof {
                lemma_pages_fit(va, page_count + next.pages);
            }
            self.regions.set(
                insert_at,
                FreeRegion { base: va, pages: next.pages + page_count as u64 },
            );
        } else {
            if self.regions.len() >= MAX_REGIONS {
                return;
            }
            self.regions.insert(insert_at, FreeRegion { base: va, pages: page_count as u64 });
        }
    }

    /// Reserves a range. Returns whether the range was wholly free and the list had room.
    /// Where the range and the regions start at pages, exactly the addresses of a range that
    /// was reserved are no longer free.
    pub fn reserve(&mut self, va: u64, page_count: usize) -> (r: bool)
        requires
            old(self).valid(),
            old(self).is_ready(),
            va + page_count * PAGE_SIZE <= u64::MAX,
        ensures
            final(self).valid(),
            final(self).is_ready(),
            at_pages(old(self)@) && va % PAGE_SIZE == 0 ==> at_pages(final(self)@) && (r ==> forall|
                addr: int,
            | #[trigger]
                is_free(final(self)@, addr) <==> is_free(old(self)@, addr) && !(va <= addr < va
                    + page_count * PAGE_SIZE)),
            (final(self)@, r) == reserved(old(self)@, va, page_count as u64),
            final(self).at() == old(self).at(),
    {
        if page_count == 0 {
            return true;
        }
        proof {
            lemma_reserve_takes(self@, va, page_count as u64);
        }
        self.reserve_internal(va, page_count as u64)
    }

    fn reserve_internal(&mut self, va: u64, page_count: u64) -> (r: bool)
        requires
            old(self).valid(),
            page_count > 0,
            va + page_count * PAGE_SIZE <= u64::MAX,
        ensures
            final(self).valid(),
            final(self).is_ready() == old(self).is_ready(),
            (final(self)@, r) == reserved(old(self)@, va, page_count),
            final(self).at() == old(self).at(),
    {
        let ghost v = self.regions@;
        let end: u64 = va + page_count as u64 * PAGE_SIZE;
        let mut i: usize = 0;
        while i < self.regions.len()
            invariant
                *self == *old(self),
                v == self.regions@,
                i <= v.len(),
                va < end,
                end == va + page_count * PAGE_SIZE,
                page_count > 0,
                self.valid(),
                holder_from(v, va as int, end as int, 0) == holder_from(
                    v,
                    va as int,
                    end as int,
                    i as int,
                ),
            decreases v.len() - i,
        {
            let r = self.regions[i];
            assert(r == v[i as int] && r.end() <= u64::MAX);
            let r_end: u64 = r.base + r.pages as u64 * PAGE_SIZE;
            if r.base <= va && r_end >= end {
                proof {
                    lemma_cut_out_in_order(v, i as int, va as int, end as int);
                    assert((va - r.base) / PAGE_SIZE as int <= r.pages);
                    assert((r_end - end) / PAGE_SIZE as int <= r.pages);
                }
                let before: u64 = (va - r.base) / PAGE_SIZE;
                let after: u64 = (r_end - end) / PAGE_SIZE;
                if before == 0 && after == 0 {
                    self.regions.remove(i);
                } else if before == 0 {
                    self.regions.set(i, FreeRegion { base: end, pages: after });
                } else if after == 0 {
                    self.regions.set(i, FreeRegion { base: r.base, pages: before });
                } else {
                    if self.regions.len() >= MAX_REGIONS {
                        return false;
                    }
                    self.regions.set(i, FreeRegion { base: r.base, pages: before });
                    self.regions.insert(i + 1, FreeRegion { base: end, pages: after });
                }
                return true;
            }
            i += 1;
        }
        false
    }
}

/// Pages that end below the last address can be counted in a `usize`.
proof fn lemma_pages_fit(base: u64, pages: int)
    requires
        pages >= 0,
        base + pages * PAGE_SIZE <= u64::MAX,
    ensures
        pages <= u64::MAX / PAGE_SIZE,
{
}

/// Proof that the pages of a range were unmapped.
pub struct VaUnmapped {
    va: u64,
    pages: usize,
}

impl VaUnmapped {
    /// The first address of the range.
    pub closed spec fn start(&self) -> u64 {
        self.va
    }

    /// The number of pages in the range.
    pub closed spec fn count(&self) -> usize {
        self.pages
    }

    /// The first address of the range.
    pub fn va(&self) -> (r: u64)
        ensures
            r == self.start(),
    {
        self.va
    }

    /// The number of pages in the range.
    pub fn pages(&self) -> (r: usize)
        ensures
            r == self.count(),
    {
        self.pages
    }
}

/// A range whose pages are about to be unmapped.
pub struct Unmapping {
    va: u64,
    pages: usize,
}

impl Unmapping {
    /// The first address of the range.
    pub closed spec fn start(&self) -> u64 {
        self.va
    }

    /// The number of pages in the range.
    pub closed spec fn count(&self) -> usize {
        self.pages
    }

    /// Goes on with the kernel's answer: only where it unmapped the pages is there a
    /// proof that it did.
    pub fn resume(self, reply: Reply) -> (r: Result<VaUnmapped, SyscallError>)
        ensures
            match reply {
                Ok(_) => r is Ok && r->Ok_0.start() == self.start() && r->Ok_0.count()
                    == self.count(),
                Err(e) => r == Err::<VaUnmapped, SyscallError>(e),
            },
    {
        match reply {
            Ok(_) => Ok(VaUnmapped { va: self.va, pages: self.pages }),
            Err(e) => Err(e),
        }
    }
}

/// Unmaps the pages of a range.
pub fn unmap_pages_tracked(pageset: PageSetHandle, va: u64, pages: usize) -> (r: (
    Unmapping,
    Request,
))
    ensures
        r.0.start() == va,
        r.0.count() == pages,
        r.1 == (Request::UnmapPages { pageset: pageset.0, va }),
{
    (Unmapping { va, pages }, Request::UnmapPages { pageset: pageset.0, va })
}

// ---------------------------------------------------------------------------
// What the operations do to the free addresses
// ---------------------------------------------------------------------------

proof fn lemma_is_free(v: Seq<FreeRegion>, i: int, addr: int)
    requires
        0 <= i < v.len(),
        v[i].base <= addr < v[i].end(),
    ensures
        is_free(v, addr),
{
}

/// Pages are handed out only from free addresses, and what is handed out is exactly what
/// is no longer free.
pub proof fn lemma_alloc_takes(v: Seq<FreeRegion>, i: int, need: u64)
    requires
        in_order(v),
        0 <= i < v.len(),
        0 < need <= v[i].pages,
    ensures
        forall|addr: int|
            v[i].base <= addr < v[i].base + need * PAGE_SIZE ==> #[trigger] is_free(v, addr),
        forall|addr: int| #[trigger]
            is_free(taken(v, i, need), addr) <==> is_free(v, addr) && !(v[i].base <= addr
                < v[i].base + need * PAGE_SIZE),
{
    let out = taken(v, i, need);
    let stop = v[i].base + need * PAGE_SIZE;
    assert(v[i].end() <= u64::MAX);
    assert forall|addr: int| v[i].base <= addr < stop implies #[trigger] is_free(v, addr) by {
        lemma_is_free(v, i, addr);
    }
    assert forall|addr: int| #[trigger]
        is_free(out, addr) <==> is_free(v, addr) && !(v[i].base <= addr < stop) by {
        if is_free(out, addr) {
            let k = choose|k: int| 0 <= k < out.len() && (#[trigger] out[k]).base <= addr
                < out[k].end();
            let s = if v[i].pages == need && k >= i {
                k + 1
            } else {
                k
            };
            assert(v[s].base <= addr < v[s].end());
            if s < i {
                assert(v[s].end() < v[i].base);
            } else if s > i {
                assert(v[i].end() < v[s].base);
            }
        }
        if is_free(v, addr) && !(v[i].base <= addr < stop) {
            let s = choose|s: int| 0 <= s < v.len() && (#[trigger] v[s]).base <= addr
                < v[s].end();
            let k = if v[i].pages == need && s > i {
                s - 1
            } else {
                s
            };
            assert(out[k].base <= addr < out[k].end());
        }
    }
}

/// The search finds a region exactly where one is large enough.
pub proof fn lemma_alloc_succeeds(v: Seq<FreeRegion>, cursor: int, need: int)
    requires
        0 <= cursor,
    ensures
        0 <= fit(v, cursor, need) <= v.len(),
        fit(v, cursor, need) < v.len() <==> exists|i: int|
            0 <= i < v.len() && (#[trigger] v[i]).pages >= need,
{
    lemma_fit(v, cursor, need, 0);
    if fit(v, cursor, need) < v.len() {
        assert(v[fit(v, cursor, need)].pages >= need);
    } else {
        lemma_fit_none(v, cursor, need, 0);
        assert forall|i: int| 0 <= i < v.len() implies (#[trigger] v[i]).pages < need by {
            let n = v.len() as int;
            let k = (i - cursor) % n;
            assert((cursor + k) % n == i) by (nonlinear_arith)
                requires
                    0 <= i < n,
                    k == (i - cursor) % n,
                    0 <= cursor,
            {
                let q = (i - cursor) / n;
                assert(i - cursor == n * q + k);
                assert(cursor + k == n * (-q) + i);
                vstd::arithmetic::div_mod::lemma_mod_multiples_vanish(-q, i, n);
                vstd::arithmetic::div_mod::lemma_small_mod(i as nat, n as nat);
            }
            assert(0 <= k < n);
            assert(v[(cursor + k) % n].pages < need);
        }
    }
}

/// The region that the search finds is large enough.
pub proof fn lemma_fit_large(v: Seq<FreeRegion>, cursor: int, need: int)
    requires
        0 <= cursor,
    ensures
        fit(v, cursor, need) < v.len() ==> v[fit(v, cursor, need)].pages >= need,
{
    lemma_fit(v, cursor, need, 0);
}

proof fn lemma_fit_none(v: Seq<FreeRegion>, cursor: int, need: int, i: int)
    requires
        0 <= i <= v.len(),
        0 <= cursor,
        fit_from(v, cursor, need, i) == v.len(),
    ensures
        forall|k: int|
            i <= k < v.len() ==> (#[trigger] v[(cursor + k) % v.len() as int]).pages < need,
    decreases v.len() - i,
{
    if i < v.len() {
        lemma_fit_none(v, cursor, need, i + 1);
    }
}

/// Whether the list can take a range back: it touches a region, or a region can be added.
pub open spec fn has_room(v: Seq<FreeRegion>, va: u64, pages: u64) -> bool {
    let end = va + pages * PAGE_SIZE;
    let at = place_from(v, end, 0);
    joins_before(v, at, va as int) || joins_after(v, at, end) || v.len() < MAX_REGIONS
}

proof fn lemma_given_back_within(v: Seq<FreeRegion>, va: u64, pages: u64, addr: int)
    requires
        in_order(v),
        pages > 0,
        va + pages * PAGE_SIZE <= u64::MAX,
        !overlaps(v, va as int, va + pages * PAGE_SIZE),
        has_room(v, va, pages),
        is_free(given_back(v, va, pages), addr),
    ensures
        is_free(v, addr) || va <= addr < va + pages * PAGE_SIZE,
{
    let end = va + pages * PAGE_SIZE;
    let at = place_from(v, end, 0);
    let out = given_back(v, va, pages);
    lemma_around(v, va as int, end);
    let before = joins_before(v, at, va as int);
    let after = joins_after(v, at, end);
    if before && after {
        assert(v[at].end() <= u64::MAX);
        assert(out[at - 1].base == v[at - 1].base && out[at - 1].end() == v[at].end());
    } else if before {
        assert(out[at - 1].base == v[at - 1].base && out[at - 1].end() == end);
    } else if after {
        assert(v[at].end() <= u64::MAX);
        assert(out[at].base == va && out[at].end() == v[at].end());
    } else {
        assert(out[at].base == va && out[at].end() == end);
    }
    let k = choose|k: int| 0 <= k < out.len() && (#[trigger] out[k]).base <= addr < out[k].end();
    if before && after {
        if k == at - 1 {
            if addr < va {
                lemma_is_free(v, at - 1, addr);
            } else if addr >= end {
                lemma_is_free(v, at, addr);
            }
        } else {
            let s = if k < at {
                k
            } else {
                k + 1
            };
            assert(out[k] == v[s]);
            lemma_is_free(v, s, addr);
        }
    } else if before {
        if k != at - 1 || addr < va {
            lemma_is_free(v, k, addr);
        }
    } else if after {
        if k != at || addr >= end {
            lemma_is_free(v, k, addr);
        }
    } else if k != at {
        let s = if k < at {
            k
        } else {
            k - 1
        };
        assert(out[k] == v[s]);
        lemma_is_free(v, s, addr);
    }
}

proof fn lemma_given_back_all(v: Seq<FreeRegion>, va: u64, pages: u64, addr: int)
    requires
        in_order(v),
        pages > 0,
        va + pages * PAGE_SIZE <= u64::MAX,
        !overlaps(v, va as int, va + pages * PAGE_SIZE),
        has_room(v, va, pages),
        is_free(v, addr) || va <= addr < va + pages * PAGE_SIZE,
    ensures
        is_free(given_back(v, va, pages), addr),
{
    let end = va + pages * PAGE_SIZE;
    let at = place_from(v, end, 0);
    let out = given_back(v, va, pages);
    lemma_around(v, va as int, end);
    let before = joins_before(v, at, va as int);
    let after = joins_after(v, at, end);
    if before && after {
        assert(v[at].end() <= u64::MAX);
        assert(out[at - 1].base == v[at - 1].base && out[at - 1].end() == v[at].end());
    } else if before {
        assert(out[at - 1].base == v[at - 1].base && out[at - 1].end() == end);
    } else if after {
        assert(v[at].end() <= u64::MAX);
        assert(out[at].base == va && out[at].end() == v[at].end());
    } else {
        assert(out[at].base == va && out[at].end() == end);
    }
    if va <= addr < end {
        lemma_is_free(
            out,
            if before {
                at - 1
            } else {
                at
            },
            addr,
        );
    } else {
        let s = choose|s: int| 0 <= s < v.len() && (#[trigger] v[s]).base <= addr < v[s].end();
        if before && after {
            let k = if s < at {
                s
            } else {
                s - 1
            };
            assert(out[k].base <= v[s].base && v[s].end() <= out[k].end());
            lemma_is_free(out, k, addr);
        } else if before || after {
            assert(out[s].base <= v[s].base && v[s].end() <= out[s].end());
            lemma_is_free(out, s, addr);
        } else {
            let k = if s < at {
                s
            } else {
                s + 1
            };
            assert(out[k] == v[s]);
            lemma_is_free(out, k, addr);
        }
    }
}

/// Giving back a range that overlaps no free region adds exactly its addresses, or, where
/// it touches no region and the list is full, none.
pub proof fn lemma_free_gives(v: Seq<FreeRegion>, va: u64, pages: u64)
    requires
        in_order(v),
        pages > 0,
        va + pages * PAGE_SIZE <= u64::MAX,
        !overlaps(v, va as int, va + pages * PAGE_SIZE),
    ensures
        !has_room(v, va, pages) ==> freed(v, va, pages) == v,
        has_room(v, va, pages) ==> forall|addr: int| #[trigger]
            is_free(freed(v, va, pages), addr) <==> is_free(v, addr) || va <= addr < va + pages
                * PAGE_SIZE,
{
    if has_room(v, va, pages) {
        assert forall|addr: int| #[trigger]
            is_free(freed(v, va, pages), addr) <==> is_free(v, addr) || va <= addr < va + pages
                * PAGE_SIZE by {
            if is_free(freed(v, va, pages), addr) {
                lemma_given_back_within(v, va, pages, addr);
            }
            if is_free(v, addr) || va <= addr < va + pages * PAGE_SIZE {
                lemma_given_back_all(v, va, pages, addr);
            }
        }
    }
}

/// Giving back what was just handed out restores the list.
pub proof fn lemma_alloc_then_free(v: Seq<FreeRegion>, i: int, need: u64)
    requires
        in_order(v),
        v.len() <= MAX_REGIONS,
        0 <= i < v.len(),
        0 < need <= v[i].pages,
    ensures
        freed(taken(v, i, need), v[i].base, need) == v,
{
    let w = taken(v, i, need);
    let va = v[i].base;
    let end = va + need * PAGE_SIZE;
    assert(v[i].end() <= u64::MAX);
    lemma_alloc_takes(v, i, need);
    lemma_taken_in_order(v, i, need);
    assert(!overlaps(w, va as int, end)) by {
        if overlaps(w, va as int, end) {
            let k = choose|k: int| 0 <= k < w.len() && va < (#[trigger] w[k]).end() && end
                > w[k].base;
            let s = if v[i].pages == need && k >= i {
                k + 1
            } else {
                k
            };
            if s < i {
                assert(v[s].end() < v[i].base);
            } else if s > i {
                assert(v[i].end() < v[s].base);
            }
        }
    }
    lemma_around(w, va as int, end);
    lemma_place(w, end, 0);
    let at = place_from(w, end, 0);
    assert(at == i) by {
        if at < i {
            assert(w[at] == v[at]);
            assert(v[at].end() < v[i].base);
        }
        if at > i {
            assert(w[i].base < end);
            if v[i].pages == need {
                assert(w[i] == v[i + 1]);
                assert(v[i].end() < v[i + 1].base);
            }
        }
    }
    if i > 0 {
        assert(w[i - 1] == v[i - 1]);
        assert(v[i - 1].end() < v[i].base);
    }
    if v[i].pages == need {
        if i < w.len() {
            assert(w[i] == v[i + 1]);
            assert(v[i].end() < v[i + 1].base);
        }
        assert(freed(w, va, need) =~= v);
    } else {
        assert(freed(w, va, need) =~= v);
    }
}

/// Giving a range back twice is the same as giving it back once.
pub proof fn lemma_double_free(v: Seq<FreeRegion>, va: u64, pages: u64)
    requires
        in_order(v),
        va + pages * PAGE_SIZE <= u64::MAX,
    ensures
        freed(freed(v, va, pages), va, pages) == freed(v, va, pages),
{
    let end = va + pages * PAGE_SIZE;
    if pages > 0 && !overlaps(v, va as int, end) {
        lemma_free_gives(v, va, pages);
        let w = freed(v, va, pages);
        if has_room(v, va, pages) {
            assert(is_free(w, va as int));
            assert(overlaps(w, va as int, end));
        }
    }
}

/// A range that is wholly free can be reserved while the list has room. A range that is not
/// wholly free is refused.
pub proof fn lemma_reserve_answers(v: Seq<FreeRegion>, va: u64, pages: u64)
    requires
        in_order(v),
        pages > 0,
        va + pages * PAGE_SIZE <= u64::MAX,
    ensures
        (forall|addr: int| va <= addr < va + pages * PAGE_SIZE ==> #[trigger] is_free(v, addr))
            && v.len() < MAX_REGIONS ==> reserved(v, va, pages).1,
        (exists|addr: int|
            va <= addr < va + pages * PAGE_SIZE && !#[trigger] is_free(v, addr)) ==> !reserved(
            v,
            va,
            pages,
        ).1,
{
    let end = va + pages * PAGE_SIZE;
    lemma_holder(v, va as int, end, 0);
    lemma_reserve_takes(v, va, pages);
    if forall|addr: int| va <= addr < end ==> #[trigger] is_free(v, addr) {
        assert(is_free(v, va as int));
        let k = choose|k: int| 0 <= k < v.len() && (#[trigger] v[k]).base <= va < v[k].end();
        if v[k].end() < end {
            let next = v[k].end();
            assert(is_free(v, next));
            let j = choose|j: int| 0 <= j < v.len() && (#[trigger] v[j]).base <= next < v[j].end();
            assert(j != k);
        }
    }
}

/// A range that was reserved was wholly free, none of it is free afterwards, and nothing
/// becomes free that was not. Where the range and the regions start at pages, everything
/// outside the range stays free.
pub proof fn lemma_reserve_takes(v: Seq<FreeRegion>, va: u64, pages: u64)
    requires
        in_order(v),
        pages > 0,
        va + pages * PAGE_SIZE <= u64::MAX,
    ensures
        in_order(reserved(v, va, pages).0),
        !reserved(v, va, pages).1 ==> reserved(v, va, pages).0 == v,
        reserved(v, va, pages).1 ==> forall|addr: int|
            va <= addr < va + pages * PAGE_SIZE ==> #[trigger] is_free(v, addr) && !is_free(
                reserved(v, va, pages).0,
                addr,
            ),
        forall|addr: int| #[trigger]
            is_free(reserved(v, va, pages).0, addr) ==> is_free(v, addr),
        at_pages(v) && va % PAGE_SIZE == 0 ==> {
            &&& at_pages(reserved(v, va, pages).0)
            &&& reserved(v, va, pages).1 ==> forall|addr: int| #[trigger]
                is_free(v, addr) && !(va <= addr < va + pages * PAGE_SIZE) ==> is_free(
                    reserved(v, va, pages).0,
                    addr,
                )
        },
{
    let end = va + pages * PAGE_SIZE;
    let i = holder_from(v, va as int, end, 0);
    lemma_holder(v, va as int, end, 0);
    if at_pages(v) && va % PAGE_SIZE == 0 && reserved(v, va, pages).1 {
        lemma_cut_at_pages(v, i, va as int, end);
        assert forall|addr: int| #[trigger]
            is_free(v, addr) && !(va <= addr < end) implies is_free(
            reserved(v, va, pages).0,
            addr,
        ) by {
            lemma_cut_keeps(v, i, va as int, end, addr);
        }
    }
    let out = reserved(v, va, pages).0;
    if i < v.len() {
        lemma_cut_out_in_order(v, i, va as int, end);
        let before = pages_before(v, i, va as int);
        let after = pages_after(v, i, end);
        assert(v[i].end() <= u64::MAX);
        assert(before * PAGE_SIZE <= va - v[i].base);
        assert(after * PAGE_SIZE <= v[i].end() - end);
        if reserved(v, va, pages).1 {
            assert forall|addr: int| va <= addr < end implies #[trigger] is_free(v, addr)
                && !is_free(out, addr) by {
                lemma_is_free(v, i, addr);
                if is_free(out, addr) {
                    let k = choose|k: int| 0 <= k < out.len() && (#[trigger] out[k]).base <= addr
                        < out[k].end();
                    lemma_cut_source(v, i, va as int, end, k);
                }
            }
            assert forall|addr: int| #[trigger] is_free(out, addr) implies is_free(v, addr) by {
                let k = choose|k: int| 0 <= k < out.len() && (#[trigger] out[k]).base <= addr
                    < out[k].end();
                lemma_cut_source(v, i, va as int, end, k);
                let s = choose|s: int| 0 <= s < v.len() && (#[trigger] v[s]).base <= out[k].base
                    && out[k].end() <= v[s].end();
                lemma_is_free(v, s, addr);
            }
        }
    }
}

proof fn lemma_cut_at_pages(v: Seq<FreeRegion>, i: int, va: int, end: int)
    requires
        in_order(v),
        at_pages(v),
        end % PAGE_SIZE as int == 0,
        0 <= i < v.len(),
        v[i].base <= va < end <= v[i].end(),
        cut_out(v, i, va, end).1,
    ensures
        at_pages(cut_out(v, i, va, end).0),
{
    let out = cut_out(v, i, va, end).0;
    let before = pages_before(v, i, va);
    let after = pages_after(v, i, end);
    assert(v[i].end() <= u64::MAX);
    assert forall|k: int| 0 <= k < out.len() implies (#[trigger] out[k]).base % PAGE_SIZE == 0 by {
        let s = if before == 0 && after == 0 && k >= i {
            k + 1
        } else if before > 0 && after > 0 && k > i {
            k - 1
        } else {
            k
        };
        assert(v[s].base % PAGE_SIZE == 0);
    }
}

/// An address that was free and lies outside a range that was cut out is free still.
proof fn lemma_cut_keeps(v: Seq<FreeRegion>, i: int, va: int, end: int, addr: int)
    requires
        in_order(v),
        at_pages(v),
        va % PAGE_SIZE as int == 0,
        end % PAGE_SIZE as int == 0,
        0 <= i < v.len(),
        v[i].base <= va < end <= v[i].end(),
        cut_out(v, i, va, end).1,
        is_free(v, addr),
        !(va <= addr < end),
    ensures
        is_free(cut_out(v, i, va, end).0, addr),
{
    let out = cut_out(v, i, va, end).0;
    let before = pages_before(v, i, va);
    let after = pages_after(v, i, end);
    assert(v[i].end() <= u64::MAX);
    assert(v[i].base % PAGE_SIZE == 0);
    assert(before * PAGE_SIZE == va - v[i].base);
    assert(after * PAGE_SIZE == v[i].end() - end);
    let s = choose|s: int| 0 <= s < v.len() && (#[trigger] v[s]).base <= addr < v[s].end();
    let k = if before == 0 && after == 0 {
        if s < i {
            s
        } else {
            s - 1
        }
    } else if before > 0 && after > 0 {
        if s < i || (s == i && addr < va) {
            s
        } else {
            s + 1
        }
    } else {
        s
    };
    lemma_is_free(out, k, addr);
}

/// Every region that is left lies within a region that was there, and outside the range
/// that was cut out.
proof fn lemma_cut_source(v: Seq<FreeRegion>, i: int, va: int, end: int, k: int)
    requires
        in_order(v),
        0 <= i < v.len(),
        v[i].base <= va < end <= v[i].end(),
        cut_out(v, i, va, end).1,
        0 <= k < cut_out(v, i, va, end).0.len(),
    ensures
        ({
            let r = cut_out(v, i, va, end).0[k];
            &&& r.end() <= va || r.base >= end
            &&& exists|s: int|
                0 <= s < v.len() && (#[trigger] v[s]).base <= r.base && r.end() <= v[s].end()
        }),
{
    let out = cut_out(v, i, va, end).0;
    let before = pages_before(v, i, va);
    let after = pages_after(v, i, end);
    assert(v[i].end() <= u64::MAX);
    let s = if before == 0 && after == 0 {
        if k < i {
            k
        } else {
            k + 1
        }
    } else if before == 0 || after == 0 {
        k
    } else if k <= i {
        k
    } else {
        k - 1
    };
    assert(v[s].base <= out[k].base && out[k].end() <= v[s].end());
    if s < i {
        assert(v[s].end() < v[i].base);
    } else if s > i {
        assert(v[i].end() < v[s].base);
    }
}

/// After a range was reserved, no page of it is handed out.
pub proof fn lemma_reserve_then_alloc(
    v: Seq<FreeRegion>,
    va: u64,
    pages: u64,
    cursor: int,
    need: u64,
)
    requires
        in_order(v),
        pages > 0,
        va + pages * PAGE_SIZE <= u64::MAX,
        reserved(v, va, pages).1,
        0 <= cursor,
        need > 0,
    ensures
        ({
            let w = reserved(v, va, pages).0;
            let i = fit(w, cursor, need as int);
            i < w.len() ==> w[i].base + need * PAGE_SIZE <= va || va + pages * PAGE_SIZE
                <= w[i].base
        }),
{
    let w = reserved(v, va, pages).0;
    let i = fit(w, cursor, need as int);
    lemma_reserve_takes(v, va, pages);
    lemma_fit(w, cursor, need as int, 0);
    if i < w.len() {
        lemma_alloc_takes(w, i, need);
        if w[i].base + need * PAGE_SIZE > va && va + pages * PAGE_SIZE > w[i].base {
            let addr = if w[i].base < va {
                va as int
            } else {
                w[i].base as int
            };
            assert(is_free(w, addr));
            assert(is_free(v, addr) && !is_free(w, addr));
        }
    }
}

proof fn lemma_query_shrinks(v: Seq<FreeRegion>, base: u64, q: MappingQuery)
    requires
        in_order(v),
        query_fits(base, q),
    ensures
        in_order(after_query(v, base, q)),
        forall|addr: int| #[trigger] is_free(after_query(v, base, q), addr) ==> is_free(v, addr),
{
    match q {
        Some((true, run)) => {
            if run > 0 {
                lemma_reserve_takes(v, base, run);
            }
        },
        _ => {},
    }
}

/// Whether every address of a range is free.
spec fn wholly_free(v: Seq<FreeRegion>, start: int, end: int) -> bool {
    forall|addr: int| start <= addr < end ==> #[trigger] is_free(v, addr)
}

proof fn lemma_after_query(v: Seq<FreeRegion>, base: u64, q: MappingQuery)
    requires
        in_order(v),
        at_pages(v),
        base % PAGE_SIZE == 0,
        v.len() < MAX_REGIONS,
        query_fits(base, q),
    ensures
        at_pages(after_query(v, base, q)),
        after_query(v, base, q).len() <= v.len() + 1,
        forall|addr: int| #[trigger]
            is_free(after_query(v, base, q), addr) <==> is_free(v, addr) && !(wholly_free(
                v,
                base as int,
                run_end(base, q),
            ) && base <= addr < run_end(base, q)),
{
    let run = run_of(q);
    if run > 0 {
        lemma_holder(v, base as int, run_end(base, q), 0);
        lemma_reserve_takes(v, base, run);
        lemma_reserve_answers(v, base, run);
        if !wholly_free(v, base as int, run_end(base, q)) {
            let addr = choose|addr: int|
                base <= addr < run_end(base, q) && !(#[trigger] is_free(v, addr));
            assert(!is_free(v, addr));
        }
    }
}

/// The addresses of a fresh process: the pages at address zero are never free, nor is what
/// lies behind the last page, nor what the image and the stack have, and everything else is.
/// Where the kernel's two answers make sense, that is what it said to be mapped.
pub proof fn lemma_initial_regions(va_end: u64, image: MappingQuery, stack: MappingQuery)
    requires
        NULL_GUARD_SIZE < va_end,
        query_fits(IMAGE_BASE, image),
        query_fits(USER_STACK_BASE, stack),
    ensures
        in_order(initial_regions(va_end, image, stack)),
        at_pages(initial_regions(va_end, image, stack)),
        forall|addr: int| #[trigger]
            is_free(initial_regions(va_end, image, stack), addr) <==> initially_free(
                va_end,
                image,
                stack,
                addr,
            ),
        (run_of(image) == 0 || run_end(IMAGE_BASE, image) <= va_end) && (run_of(stack) == 0
            || run_end(USER_STACK_BASE, stack) <= va_end && run_end(IMAGE_BASE, image)
            <= USER_STACK_BASE) ==> forall|addr: int| #[trigger]
            is_free(initial_regions(va_end, image, stack), addr) <==> {
                &&& NULL_GUARD_SIZE <= addr < last_page_end(va_end)
                &&& !(IMAGE_BASE <= addr < run_end(IMAGE_BASE, image))
                &&& !(USER_STACK_BASE <= addr < run_end(USER_STACK_BASE, stack))
            },
{
    let whole = FreeRegion { base: 0, pages: va_end / PAGE_SIZE };
    let all = seq![whole];
    let top = last_page_end(va_end);
    assert(all[0] == whole);
    assert(in_order(all));
    assert(at_pages(all));
    lemma_reserve_takes(all, 0, 16);
    let guarded = reserved(all, 0, 16).0;
    assert(holder_from(all, 0, 16 * PAGE_SIZE, 0) == 0);
    assert(reserved(all, 0, 16).1);
    let out = initial_regions(va_end, image, stack);
    let with_image = after_query(guarded, IMAGE_BASE, image);
    lemma_query_shrinks(guarded, IMAGE_BASE, image);
    lemma_query_shrinks(with_image, USER_STACK_BASE, stack);
    assert forall|addr: int| #[trigger] is_free(guarded, addr) <==> NULL_GUARD_SIZE <= addr
        < top by {
        if NULL_GUARD_SIZE <= addr < top {
            lemma_is_free(all, 0, addr);
        }
        if is_free(guarded, addr) {
            assert(is_free(all, addr));
            if addr < NULL_GUARD_SIZE {
                assert(is_free(all, addr) && !is_free(guarded, addr));
            }
        }
    }
    lemma_after_query(guarded, IMAGE_BASE, image);
    assert(with_image.len() < MAX_REGIONS);
    assert forall|addr: int| #[trigger] is_free(with_image, addr) <==> NULL_GUARD_SIZE <= addr < top
        && !in_image(va_end, image, addr) by {
        assert(is_free(guarded, addr) <==> NULL_GUARD_SIZE <= addr < top);
        if run_of(image) > 0 {
            assert(is_free(guarded, run_end(IMAGE_BASE, image) - 1) <==> run_end(IMAGE_BASE, image)
                <= top);
        }
    }
    lemma_after_query(with_image, USER_STACK_BASE, stack);
    assert forall|addr: int| #[trigger] is_free(out, addr) <==> initially_free(
        va_end,
        image,
        stack,
        addr,
    ) by {
        assert(is_free(with_image, addr) <==> NULL_GUARD_SIZE <= addr < top && !in_image(
            va_end,
            image,
            addr,
        ));
        if run_of(stack) > 0 {
            let last = run_end(USER_STACK_BASE, stack) - 1;
            assert(is_free(with_image, last) <==> last < top && !in_image(va_end, image, last));
            assert(is_free(with_image, USER_STACK_BASE as int) <==> USER_STACK_BASE < top
                && !in_image(va_end, image, USER_STACK_BASE as int));
        }
    }
    if run_end(IMAGE_BASE, image) <= va_end {
        assert(va_end as int / 4096 >= 0x400 + run_of(image));
    }
    if run_end(USER_STACK_BASE, stack) <= va_end {
        assert(va_end as int / 4096 >= 0x800 + run_of(stack));
    }
}

} // verus!
