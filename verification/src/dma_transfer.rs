//! Transfers between memory and a device, with the caches in the right state at each end.
//!
//! Before the device starts, every region is cleaned; after it is done, the regions that
//! it wrote are invalidated.

use crate::dma::{DmaBacking, DmaMappingView, OwnedDmaMapping, SyncCapable};
use crate::handle::PageSetHandle;
use crate::syscall::{Reply, Request, SyscallError};
use vstd::prelude::*;

verus! {

/// Which way the data goes.
#[derive(Clone, Copy, Debug, PartialEq, Eq, Structural)]
pub enum DmaDir {
    ToDevice,
    FromDevice,
}

/// A part of a page set that a transfer touches. It is had from a mapping or a page set whose
/// caches the kernel manages.
#[derive(Clone, Copy, Debug, PartialEq, Eq, Structural)]
pub struct DmaRegion {
    pageset: PageSetHandle,
    offset: u64,
    len: u64,
    dir: DmaDir,
}

impl DmaRegion {
    /// The page set that the region is a part of.
    pub closed spec fn of(self) -> PageSetHandle {
        self.pageset
    }

    /// Where in the page set the region starts.
    pub closed spec fn at(self) -> u64 {
        self.offset
    }

    /// The bytes of the region.
    pub closed spec fn bytes(self) -> u64 {
        self.len
    }

    /// Whether the device writes the region.
    pub closed spec fn is_written(self) -> bool {
        self.dir == DmaDir::FromDevice
    }

    /// The request that cleans the region.
    pub open spec fn cleans(self) -> Request {
        Request::SyncForDevice { pageset: self.of().0, offset: self.at(), len: self.bytes() }
    }

    /// The request that invalidates the region.
    pub open spec fn invalidates(self) -> Request {
        Request::SyncForCpu { pageset: self.of().0, offset: self.at(), len: self.bytes() }
    }

    fn clean(&self) -> (r: Request)
        ensures
            r == self.cleans(),
    {
        Request::SyncForDevice { pageset: self.pageset.0, offset: self.offset, len: self.len }
    }

    fn invalidate(&self) -> (r: Request)
        ensures
            r == self.invalidates(),
    {
        Request::SyncForCpu { pageset: self.pageset.0, offset: self.offset, len: self.len }
    }
}

impl<O: SyncCapable> OwnedDmaMapping<O> {
    /// A part of this mapping, for a transfer.
    pub fn dma_region(&self, offset: u64, len: u64, dir: DmaDir) -> (r: DmaRegion)
        ensures
            r.of() == self.mapping().pageset,
            r.at() == offset,
            r.bytes() == len,
            r.is_written() == (dir == DmaDir::FromDevice),
    {
        DmaRegion { pageset: self.pageset(), offset, len, dir }
    }
}

impl<O: SyncCapable> DmaBacking<O> {
    /// A part of this page set, for a transfer.
    pub fn dma_region(&self, offset: u64, len: u64, dir: DmaDir) -> (r: DmaRegion)
        ensures
            r.of() == self.of(),
            r.at() == offset,
            r.bytes() == len,
            r.is_written() == (dir == DmaDir::FromDevice),
    {
        DmaRegion { pageset: self.pageset(), offset, len, dir }
    }
}

/// How a transfer learns that the device is done. The transfer's loop makes this call.
pub trait DmaCompletion {
    type Error;

    fn await_complete(self) -> Result<(), Self::Error>;
}

/// The device is done as soon as it was started.
pub struct Immediate;

impl DmaCompletion for Immediate {
    type Error = ();

    fn await_complete(self) -> (r: Result<(), ()>)
        ensures
            r is Ok,
    {
        Ok(())
    }
}

/// Where a transfer failed.
pub enum DmaTransferError<K, C> {
    CleanFailed(SyscallError),
    Kick(K),
    Completion(C),
    InvalidateFailed(SyscallError),
}

/// What a transfer does next.
pub enum TransferAction<T, K, C> {
    Sync(Request),
    /// Program the device and start it.
    Kick,
    /// Wait until the device is done.
    Await,
    Finish(Result<T, DmaTransferError<K, C>>),
}

/// What came of it.
pub enum TransferEvent<T, K, C> {
    Synced(Reply),
    Kicked(Result<T, K>),
    Completed(Result<(), C>),
}

/// Where a transfer stands.
pub enum TransferStage<T> {
    /// Region `i` is being cleaned.
    Cleaning(usize),
    Kicking,
    Awaiting(T),
    /// Region `i` is being invalidated.
    Invalidating(usize, T),
    Ended,
}

/// The first region from `i` on that the device writes, or the number of regions.
pub open spec fn written_from(regions: Seq<DmaRegion>, i: int) -> int
    decreases regions.len() - i,
{
    if i < 0 || i >= regions.len() {
        regions.len() as int
    } else if regions[i].is_written() {
        i
    } else {
        written_from(regions, i + 1)
    }
}

/// The first region that the device writes is no further than the number of regions.
pub(crate) proof fn lemma_written_from(regions: Seq<DmaRegion>, i: int)
    ensures
        written_from(regions, i) <= regions.len(),
    decreases regions.len() - i,
{
    if 0 <= i < regions.len() && !regions[i].is_written() {
        lemma_written_from(regions, i + 1);
    }
}

/// What a transfer does when regions up to `i` are clean.
pub open spec fn clean_next<T, K, C>(regions: Seq<DmaRegion>, i: int) -> (
    TransferStage<T>,
    TransferAction<T, K, C>,
) {
    if i < regions.len() {
        (TransferStage::Cleaning(i as usize), TransferAction::Sync(regions[i].cleans()))
    } else {
        (TransferStage::Kicking, TransferAction::Kick)
    }
}

/// What a transfer does when the device is done and regions up to `i` are invalidated.
pub open spec fn invalidate_next<T, K, C>(regions: Seq<DmaRegion>, i: int, value: T) -> (
    TransferStage<T>,
    TransferAction<T, K, C>,
) {
    let k = written_from(regions, i);
    if k < regions.len() {
        (
            TransferStage::Invalidating(k as usize, value),
            TransferAction::Sync(regions[k].invalidates()),
        )
    } else {
        (TransferStage::Ended, TransferAction::Finish(Ok(value)))
    }
}

/// What a transfer does when `event` comes.
pub open spec fn transfer_next<T, K, C>(
    regions: Seq<DmaRegion>,
    stage: TransferStage<T>,
    event: TransferEvent<T, K, C>,
) -> (TransferStage<T>, TransferAction<T, K, C>) {
    match (stage, event) {
        (TransferStage::Cleaning(i), TransferEvent::Synced(Ok(_))) => clean_next(regions, i + 1),
        (TransferStage::Cleaning(_), TransferEvent::Synced(Err(e))) => (
            TransferStage::Ended,
            TransferAction::Finish(Err(DmaTransferError::CleanFailed(e))),
        ),
        (TransferStage::Kicking, TransferEvent::Kicked(Ok(value))) => (
            TransferStage::Awaiting(value),
            TransferAction::Await,
        ),
        (TransferStage::Kicking, TransferEvent::Kicked(Err(e))) => (
            TransferStage::Ended,
            TransferAction::Finish(Err(DmaTransferError::Kick(e))),
        ),
        (TransferStage::Awaiting(value), TransferEvent::Completed(Ok(_))) => invalidate_next(
            regions,
            0,
            value,
        ),
        (TransferStage::Awaiting(_), TransferEvent::Completed(Err(e))) => (
            TransferStage::Ended,
            TransferAction::Finish(Err(DmaTransferError::Completion(e))),
        ),
        (TransferStage::Invalidating(i, value), TransferEvent::Synced(Ok(_))) => invalidate_next(
            regions,
            i + 1,
            value,
        ),
        (TransferStage::Invalidating(_, _), TransferEvent::Synced(Err(e))) => (
            TransferStage::Ended,
            TransferAction::Finish(Err(DmaTransferError::InvalidateFailed(e))),
        ),
        _ => (TransferStage::Ended, TransferAction::Kick),
    }
}

/// Whether an event is one that a transfer waits for.
pub open spec fn awaits<T, K, C>(stage: TransferStage<T>, event: TransferEvent<T, K, C>) -> bool {
    match stage {
        TransferStage::Cleaning(_) => event is Synced,
        TransferStage::Kicking => event is Kicked,
        TransferStage::Awaiting(_) => event is Completed,
        TransferStage::Invalidating(_, _) => event is Synced,
        TransferStage::Ended => false,
    }
}

fn begin_clean<T, K, C>(regions: &Vec<DmaRegion>, i: usize) -> (r: (
    TransferStage<T>,
    TransferAction<T, K, C>,
))
    ensures
        r == clean_next::<T, K, C>(regions@, i as int),
        within(r.0, regions@.len()),
{
    if i < regions.len() {
        (TransferStage::Cleaning(i), TransferAction::Sync(regions[i].clean()))
    } else {
        (TransferStage::Kicking, TransferAction::Kick)
    }
}

fn begin_invalidate<T, K, C>(regions: &Vec<DmaRegion>, from: usize, value: T) -> (r: (
    TransferStage<T>,
    TransferAction<T, K, C>,
))
    requires
        from <= regions@.len(),
    ensures
        r == invalidate_next::<T, K, C>(regions@, from as int, value),
        within(r.0, regions@.len()),
{
    let mut i: usize = from;
    while i < regions.len() && regions[i].dir != DmaDir::FromDevice
        invariant
            from <= i <= regions@.len(),
            written_from(regions@, from as int) == written_from(regions@, i as int),
        decreases regions@.len() - i,
    {
        i += 1;
    }
    if i < regions.len() {
        (TransferStage::Invalidating(i, value), TransferAction::Sync(regions[i].invalidate()))
    } else {
        (TransferStage::Ended, TransferAction::Finish(Ok(value)))
    }
}

/// Starts a transfer over the given regions.
pub fn run_dma_transfer<T, K, C>(regions: &Vec<DmaRegion>) -> (r: (
    TransferStage<T>,
    TransferAction<T, K, C>,
))
    ensures
        r == clean_next::<T, K, C>(regions@, 0),
        within(r.0, regions@.len()),
{
    begin_clean(regions, 0)
}

/// Whether a stage speaks of a region that there is.
pub open spec fn within<T>(stage: TransferStage<T>, n: nat) -> bool {
    match stage {
        TransferStage::Cleaning(i) => i < n,
        TransferStage::Invalidating(i, _) => i < n,
        _ => true,
    }
}

/// Goes on with a transfer, now that `event` has come.
pub fn resume_transfer<T, K, C>(
    regions: &Vec<DmaRegion>,
    stage: TransferStage<T>,
    event: TransferEvent<T, K, C>,
) -> (r: (TransferStage<T>, TransferAction<T, K, C>))
    requires
        awaits(stage, event),
        within(stage, regions@.len()),
    ensures
        r == transfer_next(regions@, stage, event),
        within(r.0, regions@.len()),
{
    let total: usize = regions.len();
    assert(total == regions@.len());
    match stage {
        TransferStage::Cleaning(i) => match event {
            TransferEvent::Synced(Ok(_)) => {
                assert(i < total);
                begin_clean(regions, i + 1)
            },
            TransferEvent::Synced(Err(e)) => (
                TransferStage::Ended,
                TransferAction::Finish(Err(DmaTransferError::CleanFailed(e))),
            ),
            _ => (TransferStage::Ended, TransferAction::Kick),
        },
        TransferStage::Kicking => match event {
            TransferEvent::Kicked(Ok(value)) => (
                TransferStage::Awaiting(value),
                TransferAction::Await,
            ),
            TransferEvent::Kicked(Err(e)) => (
                TransferStage::Ended,
                TransferAction::Finish(Err(DmaTransferError::Kick(e))),
            ),
            _ => (TransferStage::Ended, TransferAction::Kick),
        },
        TransferStage::Awaiting(value) => match event {
            TransferEvent::Completed(Ok(_)) => begin_invalidate(regions, 0, value),
            TransferEvent::Completed(Err(e)) => (
                TransferStage::Ended,
                TransferAction::Finish(Err(DmaTransferError::Completion(e))),
            ),
            _ => (TransferStage::Ended, TransferAction::Kick),
        },
        TransferStage::Invalidating(i, value) => match event {
            TransferEvent::Synced(Ok(_)) => {
                assert(i < total);
                begin_invalidate(regions, i + 1, value)
            },
            TransferEvent::Synced(Err(e)) => (
                TransferStage::Ended,
                TransferAction::Finish(Err(DmaTransferError::InvalidateFailed(e))),
            ),
            _ => (TransferStage::Ended, TransferAction::Kick),
        },
        TransferStage::Ended => (TransferStage::Ended, TransferAction::Kick),
    }
}

// ---------------------------------------------------------------------------
// Whole runs
// ---------------------------------------------------------------------------

/// The requests that clean the regions from `i` on.
pub open spec fn all_cleans(regions: Seq<DmaRegion>, i: int) -> Seq<Request>
    decreases regions.len() - i,
{
    if i < 0 || i >= regions.len() {
        Seq::empty()
    } else {
        seq![regions[i].cleans()] + all_cleans(regions, i + 1)
    }
}

/// The requests that invalidate the regions from `i` on that the device writes.
pub open spec fn all_invalidates(regions: Seq<DmaRegion>, i: int) -> Seq<Request>
    decreases regions.len() - i,
{
    if i < 0 || i >= regions.len() {
        Seq::empty()
    } else if regions[i].is_written() {
        seq![regions[i].invalidates()] + all_invalidates(regions, i + 1)
    } else {
        all_invalidates(regions, i + 1)
    }
}

/// The requests that a transfer makes before the device is started, when all succeed.
pub open spec fn requests_before<T, K, C>(
    regions: Seq<DmaRegion>,
    s: (TransferStage<T>, TransferAction<T, K, C>),
    fuel: nat,
) -> Seq<Request>
    decreases fuel,
{
    match s {
        (TransferStage::Cleaning(_), TransferAction::Sync(request)) => if fuel == 0 {
            Seq::empty()
        } else {
            seq![request] + requests_before(
                regions,
                transfer_next(regions, s.0, TransferEvent::<T, K, C>::Synced(Ok(0))),
                (fuel - 1) as nat,
            )
        },
        _ => Seq::empty(),
    }
}

/// The requests that a transfer makes after the device is done, when all succeed.
pub open spec fn requests_after<T, K, C>(
    regions: Seq<DmaRegion>,
    s: (TransferStage<T>, TransferAction<T, K, C>),
    fuel: nat,
) -> Seq<Request>
    decreases fuel,
{
    match s {
        (TransferStage::Invalidating(_, _), TransferAction::Sync(request)) => if fuel == 0 {
            Seq::empty()
        } else {
            seq![request] + requests_after(
                regions,
                transfer_next(regions, s.0, TransferEvent::<T, K, C>::Synced(Ok(0))),
                (fuel - 1) as nat,
            )
        },
        _ => Seq::empty(),
    }
}

proof fn lemma_before_from<T, K, C>(regions: Seq<DmaRegion>, i: int, fuel: nat)
    requires
        0 <= i <= regions.len(),
        regions.len() <= usize::MAX,
        fuel >= regions.len() - i,
    ensures
        requests_before(regions, clean_next::<T, K, C>(regions, i), fuel) == all_cleans(
            regions,
            i,
        ),
    decreases regions.len() - i,
{
    if i < regions.len() {
        lemma_before_from::<T, K, C>(regions, i + 1, (fuel - 1) as nat);
    }
}

proof fn lemma_after_from<T, K, C>(regions: Seq<DmaRegion>, i: int, value: T, fuel: nat)
    requires
        0 <= i <= regions.len(),
        regions.len() <= usize::MAX,
        fuel >= regions.len() - i,
    ensures
        requests_after(regions, invalidate_next::<T, K, C>(regions, i, value), fuel)
            == all_invalidates(regions, i),
    decreases regions.len() - i,
{
    if i < regions.len() {
        if regions[i].is_written() {
            lemma_after_from::<T, K, C>(regions, i + 1, value, (fuel - 1) as nat);
        } else {
            lemma_after_from::<T, K, C>(regions, i + 1, value, fuel);
        }
    }
}

/// A transfer cleans every region, in order and each once, before the device is started,
/// and invalidates every region that the device writes, in order and each once, after the
/// device is done.
pub proof fn lemma_transfer_order<T, K, C>(regions: Seq<DmaRegion>, value: T)
    requires
        regions.len() <= usize::MAX,
    ensures
        requests_before(regions, clean_next::<T, K, C>(regions, 0), regions.len()) == all_cleans(
            regions,
            0,
        ),
        requests_after(
            regions,
            transfer_next(
                regions,
                TransferStage::Awaiting(value),
                TransferEvent::<T, K, C>::Completed(Ok(())),
            ),
            regions.len(),
        ) == all_invalidates(regions, 0),
{
    lemma_before_from::<T, K, C>(regions, 0, regions.len());
    lemma_after_from::<T, K, C>(regions, 0, value, regions.len());
}

/// What follows each reply, action by action. A region that was cleaned is followed by the next
/// one, and the last by the start of the device. A region that was invalidated is followed by
/// the next one that the device writes, with none of those between left out, and the last of
/// them by the end, with what the start of the device gave. A failure ends the transfer and says
/// at which step it came.
pub proof fn lemma_transfer_steps<T, K, C>(
    regions: Seq<DmaRegion>,
    i: usize,
    value: T,
    reply: u64,
    e: SyscallError,
    k: K,
    c: C,
)
    requires
        i < regions.len() <= usize::MAX,
    ensures
        ({
            let next = transfer_next(
                regions,
                TransferStage::Cleaning(i),
                TransferEvent::<T, K, C>::Synced(Ok(reply)),
            );
            if i + 1 < regions.len() {
                next == (
                    TransferStage::<T>::Cleaning((i + 1) as usize),
                    TransferAction::<T, K, C>::Sync(
                        Request::SyncForDevice {
                            pageset: regions[i + 1].of().0,
                            offset: regions[i + 1].at(),
                            len: regions[i + 1].bytes(),
                        },
                    ),
                )
            } else {
                next == (TransferStage::<T>::Kicking, TransferAction::<T, K, C>::Kick)
            }
        }),
        transfer_next(
            regions,
            TransferStage::Cleaning(i),
            TransferEvent::<T, K, C>::Synced(Err(e)),
        ).1 == TransferAction::<T, K, C>::Finish(Err(DmaTransferError::CleanFailed(e))),
        transfer_next(
            regions,
            TransferStage::Kicking,
            TransferEvent::<T, K, C>::Kicked(Ok(value)),
        ) == (TransferStage::Awaiting(value), TransferAction::<T, K, C>::Await),
        transfer_next(
            regions,
            TransferStage::Kicking,
            TransferEvent::<T, K, C>::Kicked(Err(k)),
        ).1 == TransferAction::<T, K, C>::Finish(Err(DmaTransferError::Kick(k))),
        transfer_next(
            regions,
            TransferStage::Awaiting(value),
            TransferEvent::<T, K, C>::Completed(Err(c)),
        ).1 == TransferAction::<T, K, C>::Finish(Err(DmaTransferError::Completion(c))),
        match transfer_next(
            regions,
            TransferStage::Invalidating(i, value),
            TransferEvent::<T, K, C>::Synced(Ok(reply)),
        ) {
            (TransferStage::Invalidating(j, v), TransferAction::Sync(request)) => {
                &&& i < j < regions.len()
                &&& v == value
                &&& regions[j as int].is_written()
                &&& forall|m: int| i < m < j ==> !(#[trigger] regions[m]).is_written()
                &&& request == (Request::SyncForCpu {
                    pageset: regions[j as int].of().0,
                    offset: regions[j as int].at(),
                    len: regions[j as int].bytes(),
                })
            },
            (TransferStage::Ended, TransferAction::Finish(Ok(v))) => {
                &&& v == value
                &&& forall|m: int| i < m < regions.len() ==> !(#[trigger] regions[m]).is_written()
            },
            _ => false,
        },
        transfer_next(
            regions,
            TransferStage::Invalidating(i, value),
            TransferEvent::<T, K, C>::Synced(Err(e)),
        ).1 == TransferAction::<T, K, C>::Finish(Err(DmaTransferError::InvalidateFailed(e))),
{
    lemma_written_place(regions, i + 1);
}

/// The first region that the device writes is one, and none before it is.
proof fn lemma_written_place(regions: Seq<DmaRegion>, i: int)
    requires
        0 <= i <= regions.len(),
    ensures
        i <= written_from(regions, i) <= regions.len(),
        written_from(regions, i) < regions.len() ==> regions[written_from(
            regions,
            i,
        )].is_written(),
        forall|m: int|
            i <= m < written_from(regions, i) ==> !(#[trigger] regions[m]).is_written(),
    decreases regions.len() - i,
{
    if i < regions.len() && !regions[i].is_written() {
        lemma_written_place(regions, i + 1);
    }
}

} // verus!
