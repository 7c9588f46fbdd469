//! Claiming a device from the device manager, and giving it back.
//!
//! A claim that cannot be completed is given back: first the page set is closed, then the
//! manager is told, so that nobody else can claim the device while this program still has
//! a handle to it.

use crate::handle::{EndpointHandle, PageSetHandle, ReplyHandle};
use crate::syscall::{MapAttribute, Message, Request, Step, SyscallError, Words};
use crate::virtual_memory::{
    fit, freed, moved_to, taken, unmap_pages_tracked, FreeRegion, Unmapping, VirtualMemory,
    PAGE_SIZE,
};
use vstd::prelude::*;

verus! {

/// Why a device could not be claimed.
#[derive(Clone, Copy, Debug, PartialEq, Eq, Structural)]
pub enum ClaimError {
    IpcFailed,
    Rejected,
    OutOfVirtualMemory,
    MapFailed,
    LayoutMisaligned,
    LayoutTooLarge,
}

/// The numbers of the manager's protocol.
#[derive(Clone, Copy, Debug, PartialEq, Eq, Structural)]
pub struct ClaimCodes {
    pub claim_by_addr: u64,
    pub release_by_addr: u64,
    pub claim_ok: u64,
}

/// How the manager is reached.
#[derive(Clone, Copy, Debug, PartialEq, Eq, Structural)]
pub struct Manager {
    pub endpoint: EndpointHandle,
    pub reply: ReplyHandle,
    pub codes: ClaimCodes,
}

impl Manager {
    /// The call that carries a command and an address to the manager.
    pub open spec fn command(self, code: u64, mmio_addr: u64) -> Request {
        Request::Call {
            endpoint: self.endpoint.0,
            reply: self.reply.0,
            message: Words(code, mmio_addr, 0, 0),
        }
    }

    /// The call that claims a device.
    pub open spec fn claims(self, mmio_addr: u64) -> Request {
        self.command(self.codes.claim_by_addr, mmio_addr)
    }

    /// The call that gives a device back.
    pub open spec fn releases(self, mmio_addr: u64) -> Request {
        self.command(self.codes.release_by_addr, mmio_addr)
    }

    fn call(&self, code: u64, mmio_addr: u64) -> (r: Request)
        ensures
            r == self.command(code, mmio_addr),
    {
        Request::Call {
            endpoint: self.endpoint.0,
            reply: self.reply.0,
            message: Words(code, mmio_addr, 0, 0),
        }
    }

    /// The call that gives a device back; its answer says nothing.
    pub fn release_quietly(&self, mmio_addr: u64) -> (r: Request)
        ensures
            r == self.releases(mmio_addr),
    {
        self.call(self.codes.release_by_addr, mmio_addr)
    }
}

/// A device that was claimed.
#[derive(Clone, Copy, Debug, PartialEq, Eq, Structural)]
pub struct ClaimedDevice {
    /// The address of the device's registers.
    pub regs_va: u64,
    pub irq_intid: u32,
    pub mmio_pageset: PageSetHandle,
    pub mmio_addr: u64,
    /// The address of the page that the registers lie in.
    pub page_va: u64,
}

/// Where a claim stands.
#[derive(Clone, Copy, Debug, PartialEq, Eq, Structural)]
pub enum ClaimStage {
    /// The manager was asked.
    Claiming,
    /// The device's page is being mapped.
    Placing { pageset: PageSetHandle, irq_intid: u32, page_va: u64 },
    /// The page set is being closed after an error.
    Closing(ClaimError),
    /// The manager is being told after an error.
    Releasing(ClaimError),
}

/// A claim that is under way.
#[derive(Clone, Copy, Debug, PartialEq, Eq, Structural)]
pub struct ClaimPending {
    pub manager: Manager,
    pub mmio_addr: u64,
    pub stage: ClaimStage,
}

/// What a claim comes to.
pub type Claimed = Result<ClaimedDevice, ClaimError>;

impl ClaimPending {
    /// Whether a page that is being mapped ends below the last address.
    pub open spec fn valid(self) -> bool {
        self.stage matches ClaimStage::Placing { page_va, .. } ==> page_va + PAGE_SIZE <= u64::MAX
    }

    /// The claim gives up: it closes the page set.
    pub open spec fn gives_up(self, pageset: PageSetHandle, e: ClaimError) -> Step<
        ClaimPending,
        Claimed,
    > {
        Step::Ask(
            ClaimPending { stage: ClaimStage::Closing(e), ..self },
            Request::CloseHandle { handle: pageset.0 },
        )
    }

    fn give_up(self, pageset: PageSetHandle, e: ClaimError) -> (r: Step<ClaimPending, Claimed>)
        ensures
            r == self.gives_up(pageset, e),
    {
        Step::Ask(
            ClaimPending {
                manager: self.manager,
                mmio_addr: self.mmio_addr,
                stage: ClaimStage::Closing(e),
            },
            Request::CloseHandle { handle: pageset.0 },
        )
    }
}

/// How a claim goes on with an answer, given the free regions and where the search for
/// one starts.
pub open spec fn claim_next(
    p: ClaimPending,
    answer: Message,
    v: Seq<FreeRegion>,
    cursor: int,
) -> Step<ClaimPending, Claimed> {
    match (p.stage, answer) {
        (ClaimStage::Claiming, Err(_)) => Step::Done(Err(ClaimError::IpcFailed)),
        (ClaimStage::Claiming, Ok(w)) => {
            let i = fit(v, cursor, 1);
            if w.0 != p.manager.codes.claim_ok {
                Step::Done(Err(ClaimError::Rejected))
            } else if i < v.len() {
                Step::Ask(
                    ClaimPending {
                        stage: ClaimStage::Placing {
                            pageset: PageSetHandle(w.1),
                            irq_intid: w.2 as u32,
                            page_va: v[i].base,
                        },
                        ..p
                    },
                    Request::MapPages {
                        pageset: w.1,
                        va: v[i].base,
                        attribute: MapAttribute::Device,
                    },
                )
            } else {
                p.gives_up(PageSetHandle(w.1), ClaimError::OutOfVirtualMemory)
            }
        },
        (ClaimStage::Placing { pageset, irq_intid, page_va }, Ok(_)) => Step::Done(
            Ok(
                ClaimedDevice {
                    regs_va: (page_va + p.mmio_addr % PAGE_SIZE) as u64,
                    irq_intid,
                    mmio_pageset: pageset,
                    mmio_addr: p.mmio_addr,
                    page_va,
                },
            ),
        ),
        (ClaimStage::Placing { pageset, .. }, Err(_)) => p.gives_up(
            pageset,
            ClaimError::MapFailed,
        ),
        (ClaimStage::Closing(e), _) => Step::Ask(
            ClaimPending { stage: ClaimStage::Releasing(e), ..p },
            p.manager.releases(p.mmio_addr),
        ),
        (ClaimStage::Releasing(e), _) => Step::Done(Err(e)),
    }
}

/// The free regions after a claim went on with an answer.
pub open spec fn claim_regions(
    p: ClaimPending,
    answer: Message,
    v: Seq<FreeRegion>,
    cursor: int,
) -> Seq<FreeRegion> {
    match (p.stage, answer) {
        (ClaimStage::Claiming, Ok(w)) => {
            let i = fit(v, cursor, 1);
            if w.0 == p.manager.codes.claim_ok && i < v.len() {
                taken(v, i, 1)
            } else {
                v
            }
        },
        (ClaimStage::Placing { page_va, .. }, Err(_)) => freed(v, page_va, 1),
        _ => v,
    }
}

/// Where the next search for a free region starts after a claim went on with an answer.
pub open spec fn claim_cursor(
    p: ClaimPending,
    answer: Message,
    v: Seq<FreeRegion>,
    cursor: int,
) -> int {
    let i = fit(v, cursor, 1);
    match (p.stage, answer) {
        (ClaimStage::Claiming, Ok(w)) => if w.0 == p.manager.codes.claim_ok && i < v.len() {
            moved_to(v, i, 1)
        } else {
            cursor
        },
        _ => cursor,
    }
}

/// Claims the device at an address, whose registers have the given size and alignment.
/// Registers that are not aligned, or do not end within the page, are refused before the
/// manager is asked.
pub fn claim_typed(manager: Manager, mmio_addr: u64, size: u64, align: u64) -> (r: Result<
    (ClaimPending, Request),
    ClaimError,
>)
    requires
        align > 0,
    ensures
        if mmio_addr % align != 0 {
            r == Err::<(ClaimPending, Request), ClaimError>(ClaimError::LayoutMisaligned)
        } else if mmio_addr % PAGE_SIZE + size > PAGE_SIZE {
            r == Err::<(ClaimPending, Request), ClaimError>(ClaimError::LayoutTooLarge)
        } else {
            r == Ok::<(ClaimPending, Request), ClaimError>(
                (
                    ClaimPending { manager, mmio_addr, stage: ClaimStage::Claiming },
                    manager.claims(mmio_addr),
                ),
            )
        },
{
    if mmio_addr % align != 0 {
        return Err(ClaimError::LayoutMisaligned);
    }
    if size > PAGE_SIZE - mmio_addr % PAGE_SIZE {
        return Err(ClaimError::LayoutTooLarge);
    }
    Ok(
        (
            ClaimPending { manager, mmio_addr, stage: ClaimStage::Claiming },
            manager.call(manager.codes.claim_by_addr, mmio_addr),
        ),
    )
}

impl ClaimPending {
    /// Goes on with an answer.
    pub fn resume(self, answer: Message, vm: &mut VirtualMemory) -> (r: Step<
        ClaimPending,
        Claimed,
    >)
        requires
            self.valid(),
            old(vm).valid(),
            old(vm).is_ready(),
        ensures
            r == claim_next(self, answer, old(vm)@, old(vm).at() as int),
            r matches Step::Ask(next, _) ==> next.valid(),
            final(vm).valid(),
            final(vm).is_ready(),
            final(vm)@ == claim_regions(self, answer, old(vm)@, old(vm).at() as int),
            final(vm).at() == claim_cursor(self, answer, old(vm)@, old(vm).at() as int),
    {
        let manager = self.manager;
        let mmio_addr = self.mmio_addr;
        match self.stage {
            ClaimStage::Claiming => match answer {
                Err(_) => Step::Done(Err(ClaimError::IpcFailed)),
                Ok(w) => {
                    if w.0 != manager.codes.claim_ok {
                        return Step::Done(Err(ClaimError::Rejected));
                    }
                    let pageset = PageSetHandle(w.1);
                    proof {
                        vm.lemma_fits(1);
                    }
                    match vm.alloc_pages(1) {
                        Some(page_va) => Step::Ask(
                            ClaimPending {
                                manager,
                                mmio_addr,
                                stage: ClaimStage::Placing {
                                    pageset,
                                    irq_intid: w.2 as u32,
                                    page_va,
                                },
                            },
                            Request::MapPages {
                                pageset: w.1,
                                va: page_va,
                                attribute: MapAttribute::Device,
                            },
                        ),
                        None => self.give_up(pageset, ClaimError::OutOfVirtualMemory),
                    }
                },
            },
            ClaimStage::Placing { pageset, irq_intid, page_va } => match answer {
                Ok(_) => Step::Done(
                    Ok(
                        ClaimedDevice {
                            regs_va: page_va + mmio_addr % PAGE_SIZE,
                            irq_intid,
                            mmio_pageset: pageset,
                            mmio_addr,
                            page_va,
                        },
                    ),
                ),
                Err(_) => {
                    vm.free_unused_allocation(page_va, 1);
                    self.give_up(pageset, ClaimError::MapFailed)
                },
            },
            ClaimStage::Closing(e) => Step::Ask(
                ClaimPending { manager, mmio_addr, stage: ClaimStage::Releasing(e) },
                manager.release_quietly(mmio_addr),
            ),
            ClaimStage::Releasing(e) => Step::Done(Err(e)),
        }
    }
}

/// A claimed device that is being given back.
pub struct ReleasePending {
    unmapping: Unmapping,
    pageset: PageSetHandle,
    mmio_addr: u64,
    manager: Manager,
}

impl ReleasePending {
    pub closed spec fn start(&self) -> u64 {
        self.unmapping.start()
    }

    pub closed spec fn count(&self) -> usize {
        self.unmapping.count()
    }

    pub closed spec fn device(&self) -> (PageSetHandle, u64, Manager) {
        (self.pageset, self.mmio_addr, self.manager)
    }

    /// Goes on once the unmapping was answered. The page is free again only where it was
    /// unmapped. Whatever the answer, the page set is closed and then the manager told:
    /// the two requests to make, in order.
    pub fn resume(self, answer: Message, vm: &mut VirtualMemory) -> (r: (Request, Request))
        requires
            old(vm).valid(),
            old(vm).is_ready(),
            self.start() + self.count() * PAGE_SIZE <= u64::MAX,
        ensures
            r.0 == (Request::CloseHandle { handle: (self.device().0).0 }),
            r.1 == (self.device().2).releases(self.device().1),
            final(vm).valid(),
            final(vm).is_ready(),
            final(vm).at() == old(vm).at(),
            match answer {
                Ok(_) => final(vm)@ == freed(old(vm)@, self.start(), self.count() as u64),
                Err(_) => *final(vm) == *old(vm),
            },
    {
        let requests = (
            Request::CloseHandle { handle: self.pageset.0 },
            self.manager.release_quietly(self.mmio_addr),
        );
        let reply = match answer {
            Ok(w) => Ok(w.0),
            Err(e) => Err(e),
        };
        match self.unmapping.resume(reply) {
            Ok(proof_of) => {
                vm.free_unmapped(proof_of);
            },
            Err(_) => {},
        }
        requests
    }
}

impl ClaimedDevice {
    /// Gives the device back.
    pub fn release(self, manager: Manager) -> (r: (ReleasePending, Request))
        ensures
            r.0.start() == self.page_va,
            r.0.count() == 1,
            r.0.device() == (self.mmio_pageset, self.mmio_addr, manager),
            r.1 == (Request::UnmapPages { pageset: self.mmio_pageset.0, va: self.page_va }),
    {
        let (unmapping, request) = unmap_pages_tracked(self.mmio_pageset, self.page_va, 1);
        (
            ReleasePending {
                unmapping,
                pageset: self.mmio_pageset,
                mmio_addr: self.mmio_addr,
                manager,
            },
            request,
        )
    }
}

// ---------------------------------------------------------------------------
// Whole runs
// ---------------------------------------------------------------------------

/// The requests that a claim makes when it gets the answers in `answers`.
pub open spec fn claim_requests(
    p: ClaimPending,
    answers: Seq<Message>,
    v: Seq<FreeRegion>,
    cursor: int,
) -> Seq<Request>
    decreases answers.len(),
{
    if answers.len() == 0 {
        Seq::empty()
    } else {
        match claim_next(p, answers[0], v, cursor) {
            Step::Ask(next, request) => seq![request] + claim_requests(
                next,
                answers.skip(1),
                claim_regions(p, answers[0], v, cursor),
                claim_cursor(p, answers[0], v, cursor),
            ),
            Step::Done(_) => Seq::empty(),
        }
    }
}

/// What a claim comes to when it gets the answers in `answers`; `None` where it needs
/// more.
pub open spec fn claim_result(
    p: ClaimPending,
    answers: Seq<Message>,
    v: Seq<FreeRegion>,
    cursor: int,
) -> Option<Claimed>
    decreases answers.len(),
{
    if answers.len() == 0 {
        None
    } else {
        match claim_next(p, answers[0], v, cursor) {
            Step::Ask(next, _) => claim_result(
                next,
                answers.skip(1),
                claim_regions(p, answers[0], v, cursor),
                claim_cursor(p, answers[0], v, cursor),
            ),
            Step::Done(result) => Some(result),
        }
    }
}

/// The free regions after a claim got the answers in `answers`.
pub open spec fn claim_final_regions(
    p: ClaimPending,
    answers: Seq<Message>,
    v: Seq<FreeRegion>,
    cursor: int,
) -> Seq<FreeRegion>
    decreases answers.len(),
{
    if answers.len() == 0 {
        v
    } else {
        let after = claim_regions(p, answers[0], v, cursor);
        match claim_next(p, answers[0], v, cursor) {
            Step::Ask(next, _) => claim_final_regions(
                next,
                answers.skip(1),
                after,
                claim_cursor(p, answers[0], v, cursor),
            ),
            Step::Done(_) => after,
        }
    }
}

/// A claim that the manager granted ends after at most three more answers. Where it
/// fails, its last two requests close the page set and then give the device back, and the
/// free regions are what they were.
pub proof fn lemma_claim_run(
    p: ClaimPending,
    answers: Seq<Message>,
    v: Seq<FreeRegion>,
    cursor: int,
)
    requires
        p.stage is Claiming,
        answers.len() >= 4,
        answers[0] matches Ok(w) && w.0 == p.manager.codes.claim_ok,
        crate::virtual_memory::in_order(v),
        v.len() <= crate::virtual_memory::MAX_REGIONS,
        cursor >= 0,
    ensures
        ({
            let requests = claim_requests(p, answers, v, cursor);
            let pageset = (answers[0]->Ok_0).1;
            let n = requests.len();
            &&& claim_result(p, answers, v, cursor) matches Some(result)
            &&& result is Err ==> {
                &&& n >= 2
                &&& requests[n - 2] == (Request::CloseHandle { handle: pageset })
                &&& requests[n - 1] == p.manager.releases(p.mmio_addr)
                &&& claim_final_regions(p, answers, v, cursor) == v
            }
        }),
{
    reveal_with_fuel(claim_requests, 5);
    reveal_with_fuel(claim_result, 5);
    reveal_with_fuel(claim_final_regions, 5);
    let i = fit(v, cursor, 1);
    crate::virtual_memory::lemma_alloc_succeeds(v, cursor, 1);
    crate::virtual_memory::lemma_fit_large(v, cursor, 1);
    if i < v.len() {
        crate::virtual_memory::lemma_alloc_then_free(v, i, 1);
    }
}

/// How a device is claimed: the manager is asked for the device at the address; the page set that
/// comes back is mapped as device memory at a free page; and what the claim gives are the
/// registers at the same place in that page, the interrupt and the page set that the manager
/// named.
pub proof fn lemma_claim_granted(
    p: ClaimPending,
    w: Words,
    x: Words,
    v: Seq<FreeRegion>,
    cursor: int,
    after: Seq<FreeRegion>,
    later: int,
)
    requires
        p.stage is Claiming,
        w.0 == p.manager.codes.claim_ok,
        w.2 <= u32::MAX,
        fit(v, cursor, 1) < v.len(),
        v[fit(v, cursor, 1)].base + 4096 <= u64::MAX,
    ensures
        p.manager.claims(p.mmio_addr) == (Request::Call {
            endpoint: p.manager.endpoint.0,
            reply: p.manager.reply.0,
            message: Words(p.manager.codes.claim_by_addr, p.mmio_addr, 0, 0),
        }),
        p.manager.releases(p.mmio_addr) == (Request::Call {
            endpoint: p.manager.endpoint.0,
            reply: p.manager.reply.0,
            message: Words(p.manager.codes.release_by_addr, p.mmio_addr, 0, 0),
        }),
        claim_next(p, Ok(w), v, cursor) matches Step::Ask(next, request) && {
            let page = v[fit(v, cursor, 1)].base;
            &&& request == (Request::MapPages {
                pageset: w.1,
                va: page,
                attribute: MapAttribute::Device,
            })
            &&& claim_next(next, Ok(x), after, later) matches Step::Done(Ok(d))
            &&& d.regs_va - page == p.mmio_addr % 4096
            &&& d.page_va == page
            &&& d.irq_intid == w.2
            &&& d.mmio_pageset.0 == w.1
            &&& d.mmio_addr == p.mmio_addr
        },
{
}

/// A claim that the manager cannot be asked, or that it does not grant, fails at once; a granted
/// one without an address to map it at gives the page set and the device back.
pub proof fn lemma_claim_refused(
    p: ClaimPending,
    w: Words,
    e: SyscallError,
    v: Seq<FreeRegion>,
    cursor: int,
)
    requires
        p.stage is Claiming,
    ensures
        claim_next(p, Err(e), v, cursor) == Step::<ClaimPending, Claimed>::Done(
            Err(ClaimError::IpcFailed),
        ),
        w.0 != p.manager.codes.claim_ok ==> claim_next(p, Ok(w), v, cursor) == Step::<
            ClaimPending,
            Claimed,
        >::Done(Err(ClaimError::Rejected)),
        w.0 == p.manager.codes.claim_ok && fit(v, cursor, 1) >= v.len() ==> (claim_next(
            p,
            Ok(w),
            v,
            cursor,
        ) matches Step::Ask(next, request) && request == (Request::CloseHandle { handle: w.1 })
            && next.stage == ClaimStage::Closing(ClaimError::OutOfVirtualMemory)),
{
}

} // verus!
