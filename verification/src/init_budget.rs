//! Whether the first user program fits into what the kernel sets aside for it.

use crate::bytes::{le, read_u16, read_u32, read_u64};
use vstd::prelude::*;

verus! {

/// The pages of the kernel's buffer of mappings.
pub const INIT_MAP_BUF_PAGES: usize = 16;

/// The size of one mapping in bytes.
pub const MAPPING_SIZE: usize = 24;

/// The size of a page in bytes.
pub const PAGE_SIZE: u64 = 4096;

/// The stack pages that the kernel adds.
pub const INIT_STACK_PAGES: usize = 8;

/// The bytes of those stack pages.
pub const INIT_STACK_BYTES: u64 = 0x8000;

/// Where the stack starts.
pub const USER_STACK_BASE: u64 = 0x800000;

/// The number of page tables that the kernel can set up.
pub const MAX_L3_TABLES: usize = 8;

/// The bytes that one such table covers.
pub const REGION_SIZE: u64 = 0x200000;

/// A segment of the program that is loaded into memory.
pub struct LoadSegment {
    pub vaddr: u64,
    pub pages: u64,
    pub flags: u32,
}

/// What the program takes up.
pub struct InitBudget {
    pub segments: Vec<LoadSegment>,
    /// The pages of all segments.
    pub total_pages: u128,
    /// The regions that the segments and the stack lie in, each once.
    pub regions: Vec<u64>,
}

/// Where program header `i` starts.
pub open spec fn program_header_at(b: Seq<u8>, i: int) -> int {
    le(b, 32, 8) + i * le(b, 54, 2)
}

/// The number of program headers.
pub open spec fn program_header_count(b: Seq<u8>) -> nat {
    le(b, 56, 2)
}

/// Whether program header `i` describes a segment that is loaded.
pub open spec fn is_load(b: Seq<u8>, i: int) -> bool {
    le(b, program_header_at(b, i), 4) == 1
}

/// The address of segment `i`.
pub open spec fn segment_start(b: Seq<u8>, i: int) -> nat {
    le(b, program_header_at(b, i) + 16, 8)
}

/// The pages of segment `i`.
pub open spec fn segment_pages(b: Seq<u8>, i: int) -> nat {
    (le(b, program_header_at(b, i) + 40, 8) + PAGE_SIZE as nat - 1) as nat / PAGE_SIZE as nat
}

/// The address behind segment `i`.
pub open spec fn segment_end(b: Seq<u8>, i: int) -> nat {
    segment_start(b, i) + segment_pages(b, i) * PAGE_SIZE as nat
}

/// Whether the kind of program header `i` lies within the file and, where it is loaded, the
/// whole header does and its segment ends at or below the start of the last region.
pub open spec fn program_header_fits(b: Seq<u8>, i: int) -> bool {
    &&& program_header_at(b, i) + 4 <= b.len()
    &&& is_load(b, i) ==> {
        &&& program_header_at(b, i) + 48 <= b.len()
        &&& le(b, program_header_at(b, i) + 40, 8) + PAGE_SIZE - 1 <= u64::MAX
        &&& segment_end(b, i) + REGION_SIZE - 1 <= u64::MAX
    }
}

/// Whether every program header fits.
pub open spec fn program_headers_fit(b: Seq<u8>) -> bool {
    b.len() >= 64 && forall|i: int|
        0 <= i < program_header_count(b) ==> #[trigger] program_header_fits(b, i)
}

/// The pages of the segments among the first `n` program headers.
pub open spec fn pages_before(b: Seq<u8>, n: nat) -> nat
    decreases n,
{
    if n == 0 {
        0
    } else {
        pages_before(b, (n - 1) as nat) + (if is_load(b, n - 1) {
            segment_pages(b, n - 1)
        } else {
            0
        })
    }
}

/// The segments among the first `n` program headers: address, pages, flags.
pub open spec fn segments_before(b: Seq<u8>, n: nat) -> Seq<(nat, nat, nat)>
    decreases n,
{
    if n == 0 {
        Seq::empty()
    } else {
        let head = segments_before(b, (n - 1) as nat);
        if is_load(b, n - 1) {
            head.push(
                (
                    segment_start(b, n - 1),
                    segment_pages(b, n - 1),
                    le(b, program_header_at(b, n - 1) + 4, 4),
                ),
            )
        } else {
            head
        }
    }
}

/// Whether region `r` is one of those from `start` up to `end`.
pub open spec fn spans(start: int, end: int, r: int) -> bool {
    start / REGION_SIZE as int <= r && r * REGION_SIZE < end
}

/// Whether one of the first `n` program headers loads a segment into region `r`.
pub open spec fn loads_into(b: Seq<u8>, n: nat, r: int) -> bool {
    exists|i: int|
        0 <= i < n && #[trigger] is_load(b, i) && spans(
            segment_start(b, i) as int,
            segment_end(b, i) as int,
            r,
        )
}

/// Whether the stack lies in region `r`.
pub open spec fn stack_in(r: int) -> bool {
    spans(USER_STACK_BASE as int, USER_STACK_BASE + INIT_STACK_BYTES, r)
}

/// Segments as plain values.
pub open spec fn segments_view(v: Seq<LoadSegment>) -> Seq<(nat, nat, nat)> {
    Seq::new(v.len(), |i: int| (v[i].vaddr as nat, v[i].pages as nat, v[i].flags as nat))
}

fn program_header_start(b: &[u8], i: u16) -> (r: Option<usize>)
    requires
        b@.len() >= 64,
    ensures
        match r {
            Some(at) => at == program_header_at(b@, i as int) && at + 4 <= b.len(),
            None => program_header_at(b@, i as int) + 4 > b@.len(),
        },
{
    let off = read_u64(b, 32);
    let each = read_u16(b, 54) as u64;
    assert(i as u64 * each <= 0xffff * 0xffff) by (nonlinear_arith)
        requires
            i <= 0xffff,
            each <= 0xffff,
    ;
    let rel: u64 = i as u64 * each;
    let total = b.len() as u64;
    if off > total || rel > total - off || 4 > total - off - rel {
        return None;
    }
    Some((off + rel) as usize)
}

/// Whether every program header fits.
pub fn has_program_headers(b: &[u8]) -> (r: bool)
    ensures
        r == program_headers_fit(b@),
{
    if b.len() < 64 {
        return false;
    }
    let count = read_u16(b, 56);
    let mut i: u16 = 0;
    while i < count
        invariant
            b@.len() >= 64,
            count == program_header_count(b@),
            i <= count,
            forall|k: int| 0 <= k < i ==> #[trigger] program_header_fits(b@, k),
        decreases count - i,
    {
        match program_header_start(b, i) {
            None => {
                assert(!program_header_fits(b@, i as int));
                return false;
            },
            Some(at) => {
                if read_u32(b, at) == 1 {
                    if b.len() - at < 48 {
                        assert(!program_header_fits(b@, i as int));
                        return false;
                    }
                    let vaddr = read_u64(b, at + 16);
                    let memsz = read_u64(b, at + 40);
                    if memsz > u64::MAX - (PAGE_SIZE - 1) {
                        assert(!program_header_fits(b@, i as int));
                        return false;
                    }
                    let pages: u64 = (memsz + (PAGE_SIZE - 1)) / PAGE_SIZE;
                    let bytes: u64 = pages * PAGE_SIZE;
                    assert(segment_end(b@, i as int) == vaddr + bytes);
                    if vaddr > u64::MAX - bytes || vaddr + bytes > u64::MAX - (REGION_SIZE
                        - 1) {
                        assert(!program_header_fits(b@, i as int));
                        return false;
                    }
                }
                assert(program_header_fits(b@, i as int));
            },
        }
        i += 1;
    }
    true
}

fn add_region(regions: &mut Vec<u64>, r: u64)
    requires
        old(regions)@.no_duplicates(),
    ensures
        final(regions)@.no_duplicates(),
        forall|x: u64| final(regions)@.contains(x) <==> old(regions)@.contains(x) || x == r,
{
    let ghost before = regions@;
    let mut i: usize = 0;
    while i < regions.len()
        invariant
            regions@ == before,
            before.no_duplicates(),
            i <= regions@.len(),
            forall|k: int| 0 <= k < i ==> regions@[k] != r,
        decreases regions@.len() - i,
    {
        if regions[i] == r {
            assert(before[i as int] == r);
            return;
        }
        i += 1;
    }
    regions.push(r);
    proof {
        let now = regions@;
        assert forall|x: u64| now.contains(x) <==> before.contains(x) || x == r by {
            if before.contains(x) {
                let j = choose|j: int| 0 <= j < before.len() && before[j] == x;
                assert(now[j] == x);
            }
            if x == r {
                assert(now[before.len() as int] == r);
            }
            if now.contains(x) {
                let j = choose|j: int| 0 <= j < now.len() && now[j] == x;
                if j < before.len() {
                    assert(before[j] == x);
                }
            }
        }
    }
}

fn add_span(regions: &mut Vec<u64>, start: u64, end: u64)
    requires
        old(regions)@.no_duplicates(),
        end + REGION_SIZE - 1 <= u64::MAX,
    ensures
        final(regions)@.no_duplicates(),
        forall|x: u64|
            final(regions)@.contains(x) <==> old(regions)@.contains(x) || spans(
                start as int,
                end as int,
                x as int,
            ),
{
    let ghost before = regions@;
    let ghost first = start / REGION_SIZE;
    let mut r: u64 = start / REGION_SIZE;
    while r * REGION_SIZE < end
        invariant
            first == start / REGION_SIZE,
            first <= r,
            r * REGION_SIZE <= u64::MAX,
            end + REGION_SIZE - 1 <= u64::MAX,
            regions@.no_duplicates(),
            forall|x: u64| regions@.contains(x) <==> before.contains(x) || first <= x < r,
            forall|x: int| first <= x < r ==> #[trigger] (x * REGION_SIZE) < end,
        decreases end + REGION_SIZE - r * REGION_SIZE,
    {
        add_region(regions, r);
        r += 1;
    }
    proof {
        assert forall|x: u64|
            regions@.contains(x) <==> before.contains(x) || spans(
                start as int,
                end as int,
                x as int,
            ) by {
            if first <= x < r {
                assert((x as int) * REGION_SIZE < end);
            }
        }
    }
}

/// Measures what a program takes up.
pub fn measure_init(b: &[u8]) -> (r: InitBudget)
    requires
        program_headers_fit(b@),
    ensures
        segments_view(r.segments@) == segments_before(b@, program_header_count(b@)),
        r.total_pages == pages_before(b@, program_header_count(b@)),
        r.regions@.no_duplicates(),
        forall|x: u64|
            #[trigger] r.regions@.contains(x) <==> loads_into(b@, program_header_count(b@), x as int)
                || stack_in(x as int),
        r.valid(),
{
    let count = read_u16(b, 56);
    let mut segments: Vec<LoadSegment> = Vec::new();
    let mut total: u128 = 0;
    let mut regions: Vec<u64> = Vec::new();
    let mut i: u16 = 0;
    assert(segments_view(segments@) =~= Seq::<(nat, nat, nat)>::empty());
    while i < count
        invariant
            program_headers_fit(b@),
            count == program_header_count(b@),
            i <= count,
            segments_view(segments@) == segments_before(b@, i as nat),
            total == pages_before(b@, i as nat),
            total <= i * 0x10_0000_0000_0000,
            regions@.no_duplicates(),
            forall|x: u64| regions@.contains(x) <==> loads_into(b@, i as nat, x as int),
        decreases count - i,
    {
        assert(program_header_fits(b@, i as int));
        let ghost known = regions@;
        let at: usize = match program_header_start(b, i) {
            Some(at) => at,
            None => 0,
        };
        if read_u32(b, at) == 1 {
            let vaddr = read_u64(b, at + 16);
            let memsz = read_u64(b, at + 40);
            let flags = read_u32(b, at + 4);
            let pages: u64 = (memsz + (PAGE_SIZE - 1)) / PAGE_SIZE;
            assert(pages <= 0x10_0000_0000_0000);
            let end: u64 = vaddr + pages * PAGE_SIZE;
            let ghost before = segments_view(segments@);
            segments.push(LoadSegment { vaddr, pages, flags });
            assert(segments_view(segments@) =~= before.push(
                (vaddr as nat, pages as nat, flags as nat),
            ));
            total += pages as u128;
            add_span(&mut regions, vaddr, end);
            proof {
                assert(end == segment_end(b@, i as int));
                assert forall|x: u64|
                    regions@.contains(x) <==> loads_into(b@, (i + 1) as nat, x as int) by {
                    if spans(vaddr as int, end as int, x as int) {
                        assert(is_load(b@, i as int));
                    }
                    if loads_into(b@, i as nat, x as int) {
                        assert(known.contains(x));
                    }
                }
            }
        } else {
            assert forall|x: u64|
                regions@.contains(x) <==> loads_into(b@, (i + 1) as nat, x as int) by {
                assert(!is_load(b@, i as int));
                if loads_into(b@, i as nat, x as int) {
                    assert(known.contains(x));
                }
                if loads_into(b@, (i + 1) as nat, x as int) {
                    assert(loads_into(b@, i as nat, x as int));
                }
            }
        }
        i += 1;
    }
    let ghost loaded = regions@;
    let stack_end: u64 = USER_STACK_BASE + INIT_STACK_BYTES;
    add_span(&mut regions, USER_STACK_BASE, stack_end);
    assert forall|x: u64|
        #[trigger] regions@.contains(x) <==> loads_into(b@, program_header_count(b@), x as int)
            || stack_in(x as int) by {
        assert(loaded.contains(x) <==> loads_into(b@, count as nat, x as int));
        assert(spans(USER_STACK_BASE as int, stack_end as int, x as int) == stack_in(x as int));
    }
    InitBudget { segments, total_pages: total, regions }
}

/// The mappings that the kernel's buffer holds.
pub open spec fn mapping_capacity() -> nat {
    (INIT_MAP_BUF_PAGES * (PAGE_SIZE as nat / MAPPING_SIZE as nat)) as nat
}

impl InitBudget {
    /// Whether the page count is one that a program can have.
    pub open spec fn valid(self) -> bool {
        self.total_pages <= 0xffff * 0x10_0000_0000_0000
    }

    /// The mappings that the program and its stack need.
    pub open spec fn needed(self) -> nat {
        self.total_pages as nat + INIT_STACK_PAGES as nat
    }

    /// How much of the buffer is used, in whole percent.
    pub open spec fn used_percent(self) -> nat {
        self.needed() * 100 / mapping_capacity()
    }

    /// How many of the page tables are used, in whole percent.
    pub open spec fn regions_percent(self) -> nat {
        self.regions@.len() * 100 / MAX_L3_TABLES as nat
    }

    /// The mappings that the program and its stack need.
    pub fn total_with_stack(&self) -> (n: u128)
        requires
            self.valid(),
        ensures
            n == self.needed(),
    {
        self.total_pages + INIT_STACK_PAGES as u128
    }

    /// The mappings that the kernel's buffer holds.
    pub fn capacity(&self) -> (n: u128)
        ensures
            n == mapping_capacity(),
            n == 2720,
    {
        INIT_MAP_BUF_PAGES as u128 * (PAGE_SIZE as u128 / MAPPING_SIZE as u128)
    }

    /// Whether the program's mappings fit into the buffer.
    pub fn fits_buffer(&self) -> (r: bool)
        requires
            self.valid(),
        ensures
            r == (self.needed() <= mapping_capacity()),
    {
        self.total_with_stack() <= self.capacity()
    }

    /// Whether the kernel has a page table for each region.
    pub fn fits_tables(&self) -> (r: bool)
        ensures
            r == (self.regions@.len() <= MAX_L3_TABLES),
    {
        self.regions.len() <= MAX_L3_TABLES
    }

    /// Whether the check passes.
    pub fn passed(&self) -> (r: bool)
        requires
            self.valid(),
        ensures
            r == (self.needed() <= mapping_capacity() && self.regions@.len() <= MAX_L3_TABLES),
    {
        self.fits_buffer() && self.fits_tables()
    }

    /// How much of the buffer is used, in whole percent.
    pub fn buffer_percent(&self) -> (n: u128)
        requires
            self.valid(),
        ensures
            n == self.used_percent(),
    {
        self.total_with_stack() * 100 / self.capacity()
    }

    /// How many of the page tables are used, in whole percent.
    pub fn tables_percent(&self) -> (n: u128)
        ensures
            n == self.regions_percent(),
    {
        self.regions.len() as u128 * 100 / MAX_L3_TABLES as u128
    }

    /// Whether a warning is due that the buffer is nearly used up.
    pub fn warns_buffer(&self) -> (r: bool)
        requires
            self.valid(),
        ensures
            r == (self.used_percent() >= 80),
    {
        self.buffer_percent() >= 80
    }

    /// Whether a warning is due that the page tables are nearly used up.
    pub fn warns_tables(&self) -> (r: bool)
        ensures
            r == (self.regions_percent() >= 80),
    {
        self.tables_percent() >= 80
    }
}

// ---------------------------------------------------------------------------
// Laws
// ---------------------------------------------------------------------------

/// Whether program header `i` gives the segment `s`: its kind is 1; the address stands at 16,
/// the flags at 4, and the pages are those that the bytes, whose number stands at 40, need.
pub open spec fn gives_segment(b: Seq<u8>, i: int, s: (nat, nat, nat)) -> bool {
    let at = le(b, 32, 8) + i * le(b, 54, 2);
    &&& le(b, at, 4) == 1
    &&& s.0 == le(b, at + 16, 8)
    &&& s.1 * 4096 >= le(b, at + 40, 8)
    &&& s.1 * 4096 < le(b, at + 40, 8) + 4096
    &&& s.2 == le(b, at + 4, 4)
}

/// The pages of segments.
pub open spec fn pages_sum(v: Seq<(nat, nat, nat)>) -> nat
    decreases v.len(),
{
    if v.len() == 0 {
        0
    } else {
        pages_sum(v.drop_last()) + v.last().1
    }
}

/// Whether one of the first `n` program headers gives the segment.
pub open spec fn is_given(b: Seq<u8>, n: nat, s: (nat, nat, nat)) -> bool {
    exists|i: int| 0 <= i < n && #[trigger] gives_segment(b, i, s)
}

/// Whether program header `i` gives one of the segments.
pub open spec fn is_listed(b: Seq<u8>, i: int, v: Seq<(nat, nat, nat)>) -> bool {
    exists|k: int| 0 <= k < v.len() && gives_segment(b, i, #[trigger] v[k])
}

/// The segments are those that the program headers give: each segment comes from a header, and
/// each header of something that is loaded gives one. The page count is what they sum up to.
pub proof fn lemma_segments(b: Seq<u8>, n: nat)
    ensures
        pages_before(b, n) == pages_sum(segments_before(b, n)),
        forall|k: int|
            0 <= k < segments_before(b, n).len() ==> is_given(
                b,
                n,
                #[trigger] segments_before(b, n)[k],
            ),
        forall|i: int|
            0 <= i < n && #[trigger] is_load(b, i) ==> is_listed(b, i, segments_before(b, n)),
    decreases n,
{
    if n > 0 {
        let m = (n - 1) as nat;
        lemma_segments(b, m);
        let head = segments_before(b, m);
        let all = segments_before(b, n);
        let s = (
            segment_start(b, n - 1),
            segment_pages(b, n - 1),
            le(b, program_header_at(b, n - 1) + 4, 4),
        );
        if is_load(b, n - 1) {
            assert(all == head.push(s));
            assert(all.drop_last() =~= head);
            assert(gives_segment(b, n - 1, s));
            assert(all[head.len() as int] == s);
        } else {
            assert(all == head);
        }
        assert forall|k: int| 0 <= k < all.len() implies is_given(b, n, #[trigger] all[k]) by {
            if k < head.len() {
                assert(is_given(b, m, head[k]));
                let i = choose|i: int| 0 <= i < m && #[trigger] gives_segment(b, i, head[k]);
                assert(gives_segment(b, i, all[k]));
            } else {
                assert(gives_segment(b, n - 1, all[k]));
            }
        }
        assert forall|i: int| 0 <= i < n && #[trigger] is_load(b, i) implies is_listed(
            b,
            i,
            all,
        ) by {
            if i < m {
                let k = choose|k: int|
                    0 <= k < head.len() && gives_segment(b, i, #[trigger] head[k]);
                assert(gives_segment(b, i, all[k]));
            } else {
                assert(gives_segment(b, i, all[head.len() as int]));
            }
        }
    }
}

/// A segment or stack lies in a region of two megabytes if and only if one of its addresses
/// does.
pub proof fn lemma_spans(start: int, end: int, r: int)
    requires
        0 <= start < end,
    ensures
        spans(start, end, r) <==> exists|a: int| #[trigger]
            address_in(a, r) && start <= a && a < end,
{
    if spans(start, end, r) {
        let low = r * 0x20_0000;
        let a = if low < start {
            start
        } else {
            low
        };
        assert(address_in(a, r)) by {
            if low >= start {
                assert(low / 0x20_0000 == r);
            } else {
                assert(start / 0x20_0000 == r);
            }
        }
    }
    if exists|a: int| #[trigger] address_in(a, r) && start <= a && a < end {
        let a = choose|a: int| #[trigger] address_in(a, r) && start <= a && a < end;
        assert(start / 0x20_0000 <= a / 0x20_0000);
        assert(r * 0x20_0000 <= a);
    }
}

/// Whether the address lies in the region.
pub open spec fn address_in(a: int, r: int) -> bool {
    a / 0x20_0000 == r
}

/// The stack lies in one region.
pub proof fn lemma_stack_region(r: int)
    ensures
        stack_in(r) <==> r == 4,
{
}

/// The stack takes eight pages beside the program's; a share is rounded down to whole percent
/// of the 2720 mappings or the 8 tables.
pub proof fn lemma_shares(x: InitBudget)
    ensures
        x.needed() == x.total_pages + 8,
        mapping_capacity() == 2720,
        x.used_percent() * 2720 <= x.needed() * 100 < (x.used_percent() + 1) * 2720,
        x.regions_percent() * 8 <= x.regions@.len() * 100 < (x.regions_percent() + 1) * 8,
{
}

} // verus!
