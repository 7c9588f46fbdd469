//! Mappings of memory that devices read and write.
//!
//! An owned mapping closes its page set when it ends; a borrowed one leaves it to the
//! caller. The addresses of either return to the allocator only once the kernel has
//! unmapped them.

use crate::handle::PageSetHandle;
use crate::syscall::{MapAttribute, Reply, Request, Step, SyscallError};
use crate::virtual_memory::{
    fit, freed, moved_to, taken, unmap_pages_tracked, FreeRegion, Unmapping, VirtualMemory,
    PAGE_SIZE,
};
use std::marker::PhantomData;
use vstd::prelude::*;

verus! {

/// Keeps the origins to those of this module.
pub trait Sealed {

}

/// Pages of the general allocator: coherent only on a coherent bus.
pub struct BuddyOrigin;

/// Pages of the pool whose caches are managed.
pub struct DmaPoolOrigin;

impl Sealed for BuddyOrigin {

}

impl Sealed for DmaPoolOrigin {

}

/// Where pages come from.
pub trait DmaOrigin: Sealed {

}

impl DmaOrigin for BuddyOrigin {

}

impl DmaOrigin for DmaPoolOrigin {

}

/// Origins whose caches the kernel can clean and invalidate.
pub trait SyncCapable: DmaOrigin {

}

impl SyncCapable for DmaPoolOrigin {

}

/// A mapped page set.
#[derive(Clone, Copy, Debug, PartialEq, Eq, Structural)]
pub struct Mapping {
    pub pageset: PageSetHandle,
    pub va: u64,
    pub pa: u64,
    pub pages: u64,
}

impl Mapping {
    /// Whether the mapping ends below the last address.
    pub open spec fn valid(self) -> bool {
        self.va + self.pages * PAGE_SIZE <= u64::MAX && self.pages <= usize::MAX
    }

    /// The bytes of the mapping.
    pub open spec fn bytes(self) -> int {
        self.pages * PAGE_SIZE
    }
}

// ---------------------------------------------------------------------------
// Views of a mapping
// ---------------------------------------------------------------------------

/// What can be asked of a mapping.
pub trait DmaMappingView {
    /// The mapping itself.
    spec fn mapping(&self) -> Mapping;

    /// The mapping itself.
    fn parts(&self) -> (r: Mapping)
        ensures
            r == self.mapping(),
    ;

    /// The first virtual address.
    fn va(&self) -> (r: u64)
        ensures
            r == self.mapping().va,
    {
        self.parts().va
    }

    /// The first physical address.
    fn pa(&self) -> (r: u64)
        ensures
            r == self.mapping().pa,
    {
        self.parts().pa
    }

    /// The bytes of the mapping.
    fn size_bytes(&self) -> (r: u64)
        requires
            self.mapping().valid(),
        ensures
            r == self.mapping().bytes(),
    {
        self.parts().pages * PAGE_SIZE
    }

    /// The physical address at an offset.
    fn pa_offset(&self, byte_offset: u64) -> (r: u64)
        requires
            self.mapping().valid(),
            byte_offset < self.mapping().bytes(),
            self.mapping().pa + byte_offset <= u64::MAX,
        ensures
            r == self.mapping().pa + byte_offset,
    {
        self.parts().pa + byte_offset
    }

    /// The address of `len` values of the given size and alignment at an offset; `None`
    /// where the offset is not aligned, or the values do not lie within the mapping.
    fn slice(&self, byte_offset: u64, len: u64, size: u64, align: u64) -> (r: Option<u64>)
        requires
            self.mapping().valid(),
            align > 0,
        ensures
            r == if byte_offset % align == 0 && byte_offset + len * size <= self.mapping().bytes() {
                Some((self.mapping().va + byte_offset) as u64)
            } else {
                None
            },
    {
        if byte_offset % align != 0 {
            return None;
        }
        let m = self.parts();
        let region: u64 = m.pages * PAGE_SIZE;
        let total = match len.checked_mul(size) {
            Some(total) => total,
            None => {
                return None;
            },
        };
        if byte_offset > region || total > region - byte_offset {
            return None;
        }
        assert(len * size >= 0) by (nonlinear_arith)
            requires
                len >= 0,
                size >= 0,
        ;
        Some(m.va + byte_offset)
    }

    /// The address of one value of the given size and alignment at an offset; `None`
    /// where the offset is not aligned, or the value does not lie within the mapping.
    fn cell(&self, byte_offset: u64, size: u64, align: u64) -> (r: Option<u64>)
        requires
            self.mapping().valid(),
            align > 0,
        ensures
            r == if byte_offset % align == 0 && byte_offset + size <= self.mapping().bytes() {
                Some((self.mapping().va + byte_offset) as u64)
            } else {
                None
            },
    {
        self.slice(byte_offset, 1, size, align)
    }

    /// The request that writes zeros over the whole mapping.
    fn zero(&self) -> (r: Request)
        requires
            self.mapping().valid(),
        ensures
            r == (Request::Zero { va: self.mapping().va, bytes: self.mapping().bytes() as u64 }),
    {
        let m = self.parts();
        Request::Zero { va: m.va, bytes: m.pages * PAGE_SIZE }
    }

    /// The request that writes zeros over a part of the mapping; `None` where it does not
    /// lie within the mapping.
    fn zero_range(&self, byte_offset: u64, len: u64) -> (r: Option<Request>)
        requires
            self.mapping().valid(),
        ensures
            r == if byte_offset + len <= self.mapping().bytes() {
                Some(Request::Zero { va: (self.mapping().va + byte_offset) as u64, bytes: len })
            } else {
                None
            },
    {
        match self.slice(byte_offset, len, 1, 1) {
            Some(va) => Some(Request::Zero { va, bytes: len }),
            None => None,
        }
    }
}

// ---------------------------------------------------------------------------
// Mapping a page set
// ---------------------------------------------------------------------------

/// Where the mapping of a page set stands.
#[derive(Clone, Copy, Debug, PartialEq, Eq, Structural)]
pub enum MapStage {
    /// The page set was asked for.
    Allocating,
    /// The page set's physical address was asked for.
    Querying(PageSetHandle),
    /// The page set is being mapped.
    Placing(Mapping),
    /// The mapping is being zeroed.
    Zeroing(Mapping),
    /// The page set is being closed after an error.
    Failing(SyscallError),
}

/// Of a page set that is to be mapped: its pages, whether it is to be closed where that
/// fails, and whether it is to be zeroed.
#[derive(Clone, Copy, Debug, PartialEq, Eq, Structural)]
pub struct MapPlan {
    pub pages: u64,
    pub owned: bool,
    pub zero: bool,
}

/// What comes of a mapping.
pub type Mapped = Result<Mapping, SyscallError>;

impl MapStage {
    /// Whether the stage holds a mapping with the plan's pages that ends below the last
    /// address.
    pub open spec fn valid(self, plan: MapPlan) -> bool {
        match self {
            MapStage::Placing(m) => m.valid() && m.pages == plan.pages,
            MapStage::Zeroing(m) => m.valid() && m.pages == plan.pages,
            _ => plan.pages <= usize::MAX,
        }
    }
}

/// How a mapping ends with an error: an owned page set is closed first.
pub open spec fn map_failure(plan: MapPlan, pageset: PageSetHandle, e: SyscallError) -> Step<
    MapStage,
    Mapped,
> {
    if plan.owned {
        Step::Ask(MapStage::Failing(e), Request::CloseHandle { handle: pageset.0 })
    } else {
        Step::Done(Err(e))
    }
}

/// How a mapping goes on with the kernel's answer, given the free regions and where the
/// search for one starts.
pub open spec fn map_next(
    stage: MapStage,
    plan: MapPlan,
    reply: Reply,
    v: Seq<FreeRegion>,
    cursor: int,
) -> Step<MapStage, Mapped> {
    match (stage, reply) {
        (MapStage::Allocating, Ok(h)) => Step::Ask(
            MapStage::Querying(PageSetHandle(h)),
            Request::QueryPhys { pageset: h, page: 0 },
        ),
        (MapStage::Allocating, Err(e)) => Step::Done(Err(e)),
        (MapStage::Querying(ps), Ok(pa)) => {
            let i = fit(v, cursor, plan.pages as int);
            if plan.pages > 0 && i < v.len() {
                let m = Mapping { pageset: ps, va: v[i].base, pa, pages: plan.pages };
                Step::Ask(
                    MapStage::Placing(m),
                    Request::MapPages {
                        pageset: ps.0,
                        va: m.va,
                        attribute: MapAttribute::Normal,
                    },
                )
            } else {
                map_failure(plan, ps, SyscallError::OutOfMemory)
            }
        },
        (MapStage::Querying(ps), Err(e)) => map_failure(plan, ps, e),
        (MapStage::Placing(m), Ok(_)) => if plan.zero {
            Step::Ask(
                MapStage::Zeroing(m),
                Request::Zero { va: m.va, bytes: (m.pages * PAGE_SIZE) as u64 },
            )
        } else {
            Step::Done(Ok(m))
        },
        (MapStage::Placing(m), Err(e)) => map_failure(plan, m.pageset, e),
        (MapStage::Zeroing(m), _) => Step::Done(Ok(m)),
        (MapStage::Failing(e), _) => Step::Done(Err(e)),
    }
}

/// The free regions after a mapping went on with the kernel's answer.
pub open spec fn map_regions(
    stage: MapStage,
    plan: MapPlan,
    reply: Reply,
    v: Seq<FreeRegion>,
    cursor: int,
) -> Seq<FreeRegion> {
    match (stage, reply) {
        (MapStage::Querying(ps), Ok(pa)) => {
            let i = fit(v, cursor, plan.pages as int);
            if plan.pages > 0 && i < v.len() {
                taken(v, i, plan.pages)
            } else {
                v
            }
        },
        (MapStage::Placing(m), Err(e)) => freed(v, m.va, m.pages),
        _ => v,
    }
}

/// Where the next search for a free region starts after a mapping went on with the kernel's
/// answer.
pub open spec fn map_cursor(
    stage: MapStage,
    plan: MapPlan,
    reply: Reply,
    v: Seq<FreeRegion>,
    cursor: int,
) -> int {
    let i = fit(v, cursor, plan.pages as int);
    if stage is Querying && reply is Ok && plan.pages > 0 && i < v.len() {
        moved_to(v, i, plan.pages as int)
    } else {
        cursor
    }
}

fn fail_mapping(plan: MapPlan, pageset: PageSetHandle, e: SyscallError) -> (r: Step<
    MapStage,
    Mapped,
>)
    ensures
        r == map_failure(plan, pageset, e),
{
    if plan.owned {
        Step::Ask(MapStage::Failing(e), Request::CloseHandle { handle: pageset.0 })
    } else {
        Step::Done(Err(e))
    }
}

/// Goes on with the kernel's answer.
pub fn resume_mapping(stage: MapStage, plan: MapPlan, reply: Reply, vm: &mut VirtualMemory) -> (r:
    Step<MapStage, Mapped>)
    requires
        old(vm).valid(),
        old(vm).is_ready(),
        stage.valid(plan),
    ensures
        r == map_next(stage, plan, reply, old(vm)@, old(vm).at() as int),
        r matches Step::Ask(next, _) ==> next.valid(plan),
        r matches Step::Done(Ok(m)) ==> m.valid(),
        final(vm).valid(),
        final(vm).is_ready(),
        final(vm)@ == map_regions(stage, plan, reply, old(vm)@, old(vm).at() as int),
        final(vm).at() == map_cursor(stage, plan, reply, old(vm)@, old(vm).at() as int),
{
    match stage {
        MapStage::Allocating => match reply {
            Ok(h) => Step::Ask(
                MapStage::Querying(PageSetHandle(h)),
                Request::QueryPhys { pageset: h, page: 0 },
            ),
            Err(e) => Step::Done(Err(e)),
        },
        MapStage::Querying(ps) => match reply {
            Ok(pa) => {
                proof {
                    vm.lemma_fits(plan.pages as int);
                }
                match vm.alloc_pages(plan.pages as usize) {
                    Some(va) => Step::Ask(
                        MapStage::Placing(Mapping { pageset: ps, va, pa, pages: plan.pages }),
                        Request::MapPages {
                            pageset: ps.0,
                            va,
                            attribute: MapAttribute::Normal,
                        },
                    ),
                    None => fail_mapping(plan, ps, SyscallError::OutOfMemory),
                }
            },
            Err(e) => fail_mapping(plan, ps, e),
        },
        MapStage::Placing(m) => match reply {
            Ok(_) => {
                if plan.zero {
                    Step::Ask(
                        MapStage::Zeroing(m),
                        Request::Zero { va: m.va, bytes: m.pages * PAGE_SIZE },
                    )
                } else {
                    Step::Done(Ok(m))
                }
            },
            Err(e) => {
                vm.free_unused_allocation(m.va, m.pages as usize);
                fail_mapping(plan, m.pageset, e)
            },
        },
        MapStage::Zeroing(m) => Step::Done(Ok(m)),
        MapStage::Failing(e) => Step::Done(Err(e)),
    }
}

// ---------------------------------------------------------------------------
// Owned mappings
// ---------------------------------------------------------------------------

/// A mapping that owns its page set.
pub struct OwnedDmaMapping<O: DmaOrigin> {
    inner: Mapping,
    _origin: PhantomData<O>,
}

/// The owned mapping that is being made.
pub struct OwnedDmaPending<O: DmaOrigin> {
    stage: MapStage,
    plan: MapPlan,
    _origin: PhantomData<O>,
}

impl<O: DmaOrigin> OwnedDmaPending<O> {
    pub closed spec fn stage(&self) -> MapStage {
        self.stage
    }

    pub closed spec fn plan(&self) -> MapPlan {
        self.plan
    }

    pub open spec fn valid(&self) -> bool {
        self.stage().valid(self.plan())
    }

    fn start(pages: u64, zero: bool) -> (r: Self)
        requires
            pages <= usize::MAX,
        ensures
            r.valid(),
            r.stage() == MapStage::Allocating,
            r.plan() == (MapPlan { pages, owned: true, zero }),
    {
        OwnedDmaPending {
            stage: MapStage::Allocating,
            plan: MapPlan { pages, owned: true, zero },
            _origin: PhantomData,
        }
    }

    /// Goes on with the kernel's answer.
    pub fn resume(self, reply: Reply, vm: &mut VirtualMemory) -> (r: Step<
        OwnedDmaPending<O>,
        Result<OwnedDmaMapping<O>, SyscallError>,
    >)
        requires
            self.valid(),
            old(vm).valid(),
            old(vm).is_ready(),
        ensures
            match map_next(self.stage(), self.plan(), reply, old(vm)@, old(vm).at() as int) {
                Step::Ask(stage, request) => {
                    &&& r is Ask
                    &&& r->Ask_1 == request
                    &&& r->Ask_0.stage() == stage
                    &&& r->Ask_0.plan() == self.plan()
                    &&& r->Ask_0.valid()
                },
                Step::Done(Ok(m)) => {
                    &&& r is Done
                    &&& r->Done_0 is Ok
                    &&& r->Done_0->Ok_0.mapping() == m
                    &&& m.valid()
                },
                Step::Done(Err(e)) => r == Step::<
                    OwnedDmaPending<O>,
                    Result<OwnedDmaMapping<O>, SyscallError>,
                >::Done(Err(e)),
            },
            final(vm).valid(),
            final(vm).is_ready(),
            final(vm)@ == map_regions(
                self.stage(),
                self.plan(),
                reply,
                old(vm)@,
                old(vm).at() as int,
            ),
            final(vm).at() == map_cursor(
                self.stage(),
                self.plan(),
                reply,
                old(vm)@,
                old(vm).at() as int,
            ),
    {
        match resume_mapping(self.stage, self.plan, reply, vm) {
            Step::Ask(stage, request) => Step::Ask(
                OwnedDmaPending { stage, plan: self.plan, _origin: PhantomData },
                request,
            ),
            Step::Done(Ok(inner)) => Step::Done(
                Ok(OwnedDmaMapping { inner, _origin: PhantomData }),
            ),
            Step::Done(Err(e)) => Step::Done(Err(e)),
        }
    }
}

impl<O: DmaOrigin> DmaMappingView for OwnedDmaMapping<O> {
    closed spec fn mapping(&self) -> Mapping {
        self.inner
    }

    fn parts(&self) -> (r: Mapping) {
        self.inner
    }
}

impl OwnedDmaMapping<BuddyOrigin> {
    /// Maps one page and zeroes it.
    pub fn alloc_page() -> (r: (OwnedDmaPending<BuddyOrigin>, Request))
        ensures
            r.0.valid(),
            r.0.stage() == MapStage::Allocating,
            r.0.plan() == (MapPlan { pages: 1, owned: true, zero: true }),
            r.1 == (Request::AllocPages { count: 1 }),
    {
        (OwnedDmaPending::start(1, true), Request::AllocPages { count: 1 })
    }

    /// Maps pages that are contiguous in memory and zeroes them.
    pub fn alloc_contiguous(pages: u64) -> (r: (OwnedDmaPending<BuddyOrigin>, Request))
        requires
            pages <= usize::MAX,
        ensures
            r.0.valid(),
            r.0.stage() == MapStage::Allocating,
            r.0.plan() == (MapPlan { pages, owned: true, zero: true }),
            r.1 == (Request::AllocContiguous { count: pages }),
    {
        (OwnedDmaPending::start(pages, true), Request::AllocContiguous { count: pages })
    }
}

impl OwnedDmaMapping<DmaPoolOrigin> {
    /// Maps one page of the pool. It is not zeroed: that would leave dirty lines in the
    /// cache that no transfer ever cleans.
    pub fn alloc_dma_pool() -> (r: (OwnedDmaPending<DmaPoolOrigin>, Request))
        ensures
            r.0.valid(),
            r.0.stage() == MapStage::Allocating,
            r.0.plan() == (MapPlan { pages: 1, owned: true, zero: false }),
            r.1 == (Request::AllocDmaPages { count: 1 }),
    {
        (OwnedDmaPending::start(1, false), Request::AllocDmaPages { count: 1 })
    }
}

/// An owned mapping that is being unmapped.
pub struct OwnedUnmapping {
    unmapping: Unmapping,
    pageset: PageSetHandle,
}

impl OwnedUnmapping {
    pub closed spec fn start(&self) -> u64 {
        self.unmapping.start()
    }

    pub closed spec fn count(&self) -> usize {
        self.unmapping.count()
    }

    pub closed spec fn pageset(&self) -> PageSetHandle {
        self.pageset
    }

    /// Goes on with the kernel's answer: the addresses are free again only where the
    /// pages were unmapped. The page set is closed either way. The first part of the
    /// result is what the unmapping comes to once the close was answered.
    pub fn resume(self, reply: Reply, vm: &mut VirtualMemory) -> (r: (
        Result<(), SyscallError>,
        Request,
    ))
        requires
            old(vm).valid(),
            old(vm).is_ready(),
            self.start() + self.count() * PAGE_SIZE <= u64::MAX,
        ensures
            final(vm).valid(),
            final(vm).is_ready(),
            final(vm).at() == old(vm).at(),
            r.1 == (Request::CloseHandle { handle: self.pageset().0 }),
            match reply {
                Ok(_) => r.0 is Ok && final(vm)@ == freed(
                    old(vm)@,
                    self.start(),
                    self.count() as u64,
                ),
                Err(e) => r.0 == Err::<(), SyscallError>(e) && *final(vm) == *old(vm),
            },
    {
        let close = Request::CloseHandle { handle: self.pageset.0 };
        match self.unmapping.resume(reply) {
            Ok(proof_of) => {
                vm.free_unmapped(proof_of);
                (Ok(()), close)
            },
            Err(e) => (Err(e), close),
        }
    }
}

impl<O: DmaOrigin> OwnedDmaMapping<O> {
    /// The page set behind the mapping.
    pub fn pageset(&self) -> (r: PageSetHandle)
        ensures
            r == self.mapping().pageset,
    {
        self.inner.pageset
    }

    /// Ends the mapping.
    pub fn unmap(self) -> (r: (OwnedUnmapping, Request))
        requires
            self.mapping().valid(),
        ensures
            r.0.start() == self.mapping().va,
            r.0.count() == self.mapping().pages,
            r.0.pageset() == self.mapping().pageset,
            r.1 == (Request::UnmapPages {
                pageset: self.mapping().pageset.0,
                va: self.mapping().va,
            }),
    {
        let m = self.inner;
        let (unmapping, request) = unmap_pages_tracked(m.pageset, m.va, m.pages as usize);
        (OwnedUnmapping { unmapping, pageset: m.pageset }, request)
    }
}

// ---------------------------------------------------------------------------
// Borrowed mappings
// ---------------------------------------------------------------------------

/// A mapping of a page set that belongs to someone else.
pub struct BorrowedDmaMapping {
    inner: Mapping,
}

impl DmaMappingView for BorrowedDmaMapping {
    closed spec fn mapping(&self) -> Mapping {
        self.inner
    }

    fn parts(&self) -> (r: Mapping) {
        self.inner
    }
}

/// The borrowed mapping that is being made.
pub struct BorrowedDmaPending {
    stage: MapStage,
    plan: MapPlan,
}

impl BorrowedDmaPending {
    pub closed spec fn stage(&self) -> MapStage {
        self.stage
    }

    pub closed spec fn plan(&self) -> MapPlan {
        self.plan
    }

    pub open spec fn valid(&self) -> bool {
        self.stage().valid(self.plan())
    }

    /// Goes on with the kernel's answer.
    pub fn resume(self, reply: Reply, vm: &mut VirtualMemory) -> (r: Step<
        BorrowedDmaPending,
        Result<BorrowedDmaMapping, SyscallError>,
    >)
        requires
            self.valid(),
            old(vm).valid(),
            old(vm).is_ready(),
        ensures
            match map_next(self.stage(), self.plan(), reply, old(vm)@, old(vm).at() as int) {
                Step::Ask(stage, request) => {
                    &&& r is Ask
                    &&& r->Ask_1 == request
                    &&& r->Ask_0.stage() == stage
                    &&& r->Ask_0.plan() == self.plan()
                    &&& r->Ask_0.valid()
                },
                Step::Done(Ok(m)) => {
                    &&& r is Done
                    &&& r->Done_0 is Ok
                    &&& r->Done_0->Ok_0.mapping() == m
                    &&& m.valid()
                },
                Step::Done(Err(e)) => r == Step::<
                    BorrowedDmaPending,
                    Result<BorrowedDmaMapping, SyscallError>,
                >::Done(Err(e)),
            },
            final(vm).valid(),
            final(vm).is_ready(),
            final(vm)@ == map_regions(
                self.stage(),
                self.plan(),
                reply,
                old(vm)@,
                old(vm).at() as int,
            ),
            final(vm).at() == map_cursor(
                self.stage(),
                self.plan(),
                reply,
                old(vm)@,
                old(vm).at() as int,
            ),
    {
        match resume_mapping(self.stage, self.plan, reply, vm) {
            Step::Ask(stage, request) => Step::Ask(
                BorrowedDmaPending { stage, plan: self.plan },
                request,
            ),
            Step::Done(Ok(inner)) => Step::Done(Ok(BorrowedDmaMapping { inner })),
            Step::Done(Err(e)) => Step::Done(Err(e)),
        }
    }
}

/// A borrowed mapping that is being unmapped.
pub struct BorrowedUnmapping {
    unmapping: Unmapping,
}

impl BorrowedUnmapping {
    pub closed spec fn start(&self) -> u64 {
        self.unmapping.start()
    }

    pub closed spec fn count(&self) -> usize {
        self.unmapping.count()
    }

    /// Goes on with the kernel's answer: the addresses are free again only where the
    /// pages were unmapped. The page set stays open.
    pub fn resume(self, reply: Reply, vm: &mut VirtualMemory) -> (r: Result<(), SyscallError>)
        requires
            old(vm).valid(),
            old(vm).is_ready(),
            self.start() + self.count() * PAGE_SIZE <= u64::MAX,
        ensures
            final(vm).valid(),
            final(vm).is_ready(),
            final(vm).at() == old(vm).at(),
            match reply {
                Ok(_) => r is Ok && final(vm)@ == freed(
                    old(vm)@,
                    self.start(),
                    self.count() as u64,
                ),
                Err(e) => r == Err::<(), SyscallError>(e) && *final(vm) == *old(vm),
            },
    {
        match self.unmapping.resume(reply) {
            Ok(proof_of) => {
                vm.free_unmapped(proof_of);
                Ok(())
            },
            Err(e) => Err(e),
        }
    }
}

impl BorrowedDmaMapping {
    /// Maps a page set as it is.
    pub fn map_existing(pageset: PageSetHandle, pages: u64) -> (r: (BorrowedDmaPending, Request))
        requires
            pages <= usize::MAX,
        ensures
            r.0.valid(),
            r.0.stage() == MapStage::Querying(pageset),
            r.0.plan() == (MapPlan { pages, owned: false, zero: false }),
            r.1 == (Request::QueryPhys { pageset: pageset.0, page: 0 }),
    {
        (
            BorrowedDmaPending {
                stage: MapStage::Querying(pageset),
                plan: MapPlan { pages, owned: false, zero: false },
            },
            Request::QueryPhys { pageset: pageset.0, page: 0 },
        )
    }

    /// The page set behind the mapping.
    pub fn pageset(&self) -> (r: PageSetHandle)
        ensures
            r == self.mapping().pageset,
    {
        self.inner.pageset
    }

    /// Ends the mapping.
    pub fn unmap(self) -> (r: (BorrowedUnmapping, Request))
        requires
            self.mapping().valid(),
        ensures
            r.0.start() == self.mapping().va,
            r.0.count() == self.mapping().pages,
            r.1 == (Request::UnmapPages {
                pageset: self.mapping().pageset.0,
                va: self.mapping().va,
            }),
    {
        let m = self.inner;
        let (unmapping, request) = unmap_pages_tracked(m.pageset, m.va, m.pages as usize);
        (BorrowedUnmapping { unmapping }, request)
    }
}

// ---------------------------------------------------------------------------
// Memory for a client
// ---------------------------------------------------------------------------

/// A page set that is handed to a client, with its physical address. One of the pool comes
/// only from the pool.
pub struct DmaBacking<O: DmaOrigin> {
    pageset: PageSetHandle,
    pa: u64,
    pages: u64,
    _origin: PhantomData<O>,
}

impl<O: DmaOrigin> DmaBacking<O> {
    /// The page set.
    pub closed spec fn of(&self) -> PageSetHandle {
        self.pageset
    }

    /// The physical address.
    pub closed spec fn at(&self) -> u64 {
        self.pa
    }

    /// The number of pages.
    pub closed spec fn count(&self) -> u64 {
        self.pages
    }

    /// The page set.
    pub fn pageset(&self) -> (r: PageSetHandle)
        ensures
            r == self.of(),
    {
        self.pageset
    }

    /// The physical address.
    pub fn pa(&self) -> (r: u64)
        ensures
            r == self.at(),
    {
        self.pa
    }

    /// The number of pages.
    pub fn pages(&self) -> (r: u64)
        ensures
            r == self.count(),
    {
        self.pages
    }
}

/// Where the making of such a page set stands.
pub enum BackingStage {
    Allocating,
    Querying(PageSetHandle),
    Failing(SyscallError),
}

/// The page set that is being made.
pub struct BackingPending<O: DmaOrigin> {
    stage: BackingStage,
    pages: u64,
    _origin: PhantomData<O>,
}

impl<O: DmaOrigin> BackingPending<O> {
    pub closed spec fn stage(&self) -> BackingStage {
        self.stage
    }

    /// The number of pages.
    pub closed spec fn count(&self) -> u64 {
        self.pages
    }

    /// Goes on with the kernel's answer. A page set whose address cannot be had is closed.
    pub fn resume(self, reply: Reply) -> (r: Step<
        BackingPending<O>,
        Result<DmaBacking<O>, SyscallError>,
    >)
        ensures
            match (self.stage(), reply) {
                (BackingStage::Allocating, Ok(h)) => {
                    &&& r matches Step::Ask(next, request)
                    &&& next.stage() == BackingStage::Querying(PageSetHandle(h))
                    &&& next.count() == self.count()
                    &&& request == (Request::QueryPhys { pageset: h, page: 0 })
                },
                (BackingStage::Allocating, Err(e)) => r matches Step::Done(Err(f)) && f == e,
                (BackingStage::Querying(ps), Ok(pa)) => {
                    &&& r matches Step::Done(Ok(b))
                    &&& b.of() == ps
                    &&& b.at() == pa
                    &&& b.count() == self.count()
                },
                (BackingStage::Querying(ps), Err(e)) => {
                    &&& r matches Step::Ask(next, request)
                    &&& next.stage() == BackingStage::Failing(e)
                    &&& request == (Request::CloseHandle { handle: ps.0 })
                },
                (BackingStage::Failing(e), _) => r matches Step::Done(Err(f)) && f == e,
            },
    {
        let pages = self.pages;
        match self.stage {
            BackingStage::Allocating => match reply {
                Ok(h) => Step::Ask(
                    BackingPending {
                        stage: BackingStage::Querying(PageSetHandle(h)),
                        pages,
                        _origin: PhantomData,
                    },
                    Request::QueryPhys { pageset: h, page: 0 },
                ),
                Err(e) => Step::Done(Err(e)),
            },
            BackingStage::Querying(pageset) => match reply {
                Ok(pa) => Step::Done(
                    Ok(DmaBacking { pageset, pa, pages, _origin: PhantomData }),
                ),
                Err(e) => Step::Ask(
                    BackingPending {
                        stage: BackingStage::Failing(e),
                        pages,
                        _origin: PhantomData,
                    },
                    Request::CloseHandle { handle: pageset.0 },
                ),
            },
            BackingStage::Failing(e) => Step::Done(Err(e)),
        }
    }
}

/// Makes a page set of the general allocator, contiguous in memory.
pub fn alloc_dma_backing(pages: u64) -> (r: (BackingPending<BuddyOrigin>, Request))
    ensures
        r.0.stage() == BackingStage::Allocating,
        r.0.count() == pages,
        r.1 == (Request::AllocContiguous { count: pages }),
{
    (
        BackingPending { stage: BackingStage::Allocating, pages, _origin: PhantomData },
        Request::AllocContiguous { count: pages },
    )
}

/// Makes a page set of the pool.
pub fn alloc_dma_backing_dma_pool(pages: u64) -> (r: (BackingPending<DmaPoolOrigin>, Request))
    ensures
        r.0.stage() == BackingStage::Allocating,
        r.0.count() == pages,
        r.1 == (Request::AllocDmaPages { count: pages }),
{
    (
        BackingPending { stage: BackingStage::Allocating, pages, _origin: PhantomData },
        Request::AllocDmaPages { count: pages },
    )
}

/// The request that closes such a page set.
pub fn close_dma_backing(pageset: PageSetHandle) -> (r: Request)
    ensures
        r == (Request::CloseHandle { handle: pageset.0 }),
{
    Request::CloseHandle { handle: pageset.0 }
}

// ---------------------------------------------------------------------------
// Whole runs
// ---------------------------------------------------------------------------

/// The requests that a mapping makes when the kernel gives the answers in `replies`.
pub open spec fn map_requests(
    stage: MapStage,
    plan: MapPlan,
    replies: Seq<Reply>,
    v: Seq<FreeRegion>,
    cursor: int,
) -> Seq<Request>
    decreases replies.len(),
{
    if replies.len() == 0 {
        Seq::empty()
    } else {
        match map_next(stage, plan, replies[0], v, cursor) {
            Step::Ask(next, request) => seq![request] + map_requests(
                next,
                plan,
                replies.skip(1),
                map_regions(stage, plan, replies[0], v, cursor),
                map_cursor(stage, plan, replies[0], v, cursor),
            ),
            Step::Done(_) => Seq::empty(),
        }
    }
}

/// What a mapping comes to when the kernel gives the answers in `replies`; `None` where
/// it needs more answers.
pub open spec fn map_result(
    stage: MapStage,
    plan: MapPlan,
    replies: Seq<Reply>,
    v: Seq<FreeRegion>,
    cursor: int,
) -> Option<Mapped>
    decreases replies.len(),
{
    if replies.len() == 0 {
        None
    } else {
        match map_next(stage, plan, replies[0], v, cursor) {
            Step::Ask(next, _) => map_result(
                next,
                plan,
                replies.skip(1),
                map_regions(stage, plan, replies[0], v, cursor),
                map_cursor(stage, plan, replies[0], v, cursor),
            ),
            Step::Done(result) => Some(result),
        }
    }
}

/// The free regions after a mapping ran with the answers in `replies`.
pub open spec fn map_final_regions(
    stage: MapStage,
    plan: MapPlan,
    replies: Seq<Reply>,
    v: Seq<FreeRegion>,
    cursor: int,
) -> Seq<FreeRegion>
    decreases replies.len(),
{
    if replies.len() == 0 {
        v
    } else {
        let after = map_regions(stage, plan, replies[0], v, cursor);
        match map_next(stage, plan, replies[0], v, cursor) {
            Step::Ask(next, _) => map_final_regions(
                next,
                plan,
                replies.skip(1),
                after,
                map_cursor(stage, plan, replies[0], v, cursor),
            ),
            Step::Done(_) => after,
        }
    }
}

/// Once the kernel has handed out a page set, the run ends after at most three more
/// answers. Where an owned mapping fails, the last request closes the page set; where it
/// succeeds, none does. A failed mapping leaves the free regions as they were.
pub proof fn lemma_map_run(
    plan: MapPlan,
    ps: PageSetHandle,
    replies: Seq<Reply>,
    v: Seq<FreeRegion>,
    cursor: int,
)
    requires
        plan.owned,
        replies.len() >= 3,
        crate::virtual_memory::in_order(v),
        v.len() <= crate::virtual_memory::MAX_REGIONS,
        cursor >= 0,
    ensures
        ({
            let close = Request::CloseHandle { handle: ps.0 };
            let requests = map_requests(MapStage::Querying(ps), plan, replies, v, cursor);
            &&& map_result(MapStage::Querying(ps), plan, replies, v, cursor) matches Some(result)
            &&& match result {
                Ok(m) => !requests.contains(close),
                Err(_) => requests.len() > 0 && requests.last() == close && map_final_regions(
                    MapStage::Querying(ps),
                    plan,
                    replies,
                    v,
                    cursor,
                ) == v,
            }
        }),
{
    reveal_with_fuel(map_requests, 4);
    reveal_with_fuel(map_result, 4);
    reveal_with_fuel(map_final_regions, 4);
    let i = fit(v, cursor, plan.pages as int);
    crate::virtual_memory::lemma_alloc_succeeds(v, cursor, plan.pages as int);
    crate::virtual_memory::lemma_fit_large(v, cursor, plan.pages as int);
    if plan.pages > 0 && i < v.len() {
        crate::virtual_memory::lemma_alloc_then_free(v, i, plan.pages);
    }
}

/// How a mapping is made: the physical address of the page set's first page is asked for, the
/// pages are mapped at a free region, and a mapping that is to be clear is cleared in whole; and
/// what it gives are the page set, that region, that physical address and the pages.
pub proof fn lemma_map_made(
    plan: MapPlan,
    h: u64,
    pa: u64,
    x: u64,
    y: u64,
    v: Seq<FreeRegion>,
    cursor: int,
    w: Seq<FreeRegion>,
    later: int,
)
    requires
        plan.pages > 0,
        fit(v, cursor, plan.pages as int) < v.len(),
        plan.pages * 4096 <= u64::MAX,
    ensures
        ({
            let va = v[fit(v, cursor, plan.pages as int)].base;
            &&& map_next(MapStage::Allocating, plan, Ok(h), v, cursor) matches Step::Ask(s1, r1)
            &&& r1 == (Request::QueryPhys { pageset: h, page: 0 })
            &&& map_next(s1, plan, Ok(pa), v, cursor) matches Step::Ask(s2, r2)
            &&& r2 == (Request::MapPages { pageset: h, va, attribute: MapAttribute::Normal })
            &&& plan.zero ==> (map_next(s2, plan, Ok(x), w, later) matches Step::Ask(s3, r3) && r3
                == (Request::Zero { va, bytes: (plan.pages * 4096) as u64 }) && (map_next(
                s3,
                plan,
                Ok(y),
                w,
                later,
            ) matches Step::Done(Ok(m)) && m.pageset.0 == h && m.va == va && m.pa == pa && m.pages
                == plan.pages))
            &&& !plan.zero ==> (map_next(s2, plan, Ok(x), w, later) matches Step::Done(Ok(m))
                && m.pageset.0 == h && m.va == va && m.pa == pa && m.pages == plan.pages)
        }),
{
}

/// A mapping of a page set of someone else that fails leaves that page set open.
pub proof fn lemma_borrowed_fails(
    plan: MapPlan,
    ps: PageSetHandle,
    m: Mapping,
    e: SyscallError,
    v: Seq<FreeRegion>,
    cursor: int,
)
    requires
        !plan.owned,
    ensures
        map_next(MapStage::Querying(ps), plan, Err(e), v, cursor) == Step::<MapStage, Mapped>::Done(
            Err(e),
        ),
        map_next(MapStage::Placing(m), plan, Err(e), v, cursor) == Step::<MapStage, Mapped>::Done(
            Err(e),
        ),
        map_regions(MapStage::Placing(m), plan, Err(e), v, cursor) == freed(v, m.va, m.pages),
{
}

} // verus!
