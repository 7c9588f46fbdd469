//! The engine of the virtio block device: its buffers, and the requests that it makes of
//! the device.

use crate::block::{BlockError, BlockGeometry};
use crate::handle::PageSetHandle;
use crate::slots::{first_free, no_slots, used_count, Slots};
use crate::syscall::Request;
use crate::virtio::VirtioTransport;
use crate::virtqueue::{gave_back, took, Direction, Segment, Submission, Virtqueue};
use vstd::prelude::*;

verus! {

/// The number of buffers that the engine keeps.
pub const MAX_DMA_BUFFERS: usize = 8;

/// The number of descriptors that the engine asks for.
pub const QUEUE_SIZE: u16 = 128;

/// The bytes of a sector.
pub const SECTOR_SIZE: u64 = 512;

/// The bytes of a request's header.
pub const HEADER_SIZE: u32 = 16;

/// The status of a request that succeeded.
pub const STATUS_OK: u8 = 0;

/// The size of a page in bytes.
pub const PAGE_SIZE: u64 = 4096;

/// A virtio block device.
#[derive(Clone, Copy, Debug, PartialEq, Eq, Structural)]
pub struct VirtioBlkDevice {
    pub transport: VirtioTransport,
}

/// A buffer: its page set, its physical address, and the sectors that it holds.
#[derive(Clone, Copy, Debug, PartialEq, Eq, Structural)]
pub struct DmaBuffer {
    pub ps: PageSetHandle,
    pub pa: u64,
    pub sector_count: u64,
}

/// The first slot from `i` on whose buffer has the given page set, or the number of slots.
pub open spec fn buffer_from(s: Seq<Option<DmaBuffer>>, ps: PageSetHandle, i: int) -> int
    decreases s.len() - i,
{
    if i < 0 || i >= s.len() {
        s.len() as int
    } else if s[i] is Some && (s[i]->0).ps == ps {
        i
    } else {
        buffer_from(s, ps, i + 1)
    }
}

proof fn lemma_buffer_from(s: Seq<Option<DmaBuffer>>, ps: PageSetHandle, i: int)
    requires
        0 <= i <= s.len(),
    ensures
        i <= buffer_from(s, ps, i) <= s.len(),
        buffer_from(s, ps, i) < s.len() ==> s[buffer_from(s, ps, i)] is Some && (s[buffer_from(
            s,
            ps,
            i,
        )]->0).ps == ps,
    decreases s.len() - i,
{
    if i < s.len() && !(s[i] is Some && (s[i]->0).ps == ps) {
        lemma_buffer_from(s, ps, i + 1);
    }
}

/// The buffers of the engine. The number of those that were handed out is kept beside
/// them; a buffer at physical address zero is counted and not kept.
pub struct BlkBuffers {
    slots: Slots<DmaBuffer>,
    count: usize,
    capacity: u64,
}

/// The pages that hold the given number of sectors.
pub open spec fn pages_for(sector_count: u64) -> int {
    (sector_count * SECTOR_SIZE + PAGE_SIZE - 1) / PAGE_SIZE as int
}

/// Which way the data of a request goes.
#[derive(Clone, Copy, Debug, PartialEq, Eq, Structural)]
pub enum Transfer {
    In,
    Out,
}

/// What becomes of a page set that was made for a buffer.
#[derive(Clone, Copy, Debug, PartialEq, Eq, Structural)]
pub enum Placed {
    /// It was kept.
    Kept(PageSetHandle),
    /// There was no slot for it; it is to be closed.
    Discarded(Request),
}

/// The buffer for a transfer of `count` sectors from `sector` on, or why there is no such
/// transfer.
pub open spec fn checked(
    s: Seq<Option<DmaBuffer>>,
    sectors: u64,
    sector: u64,
    count: u64,
    ps: PageSetHandle,
) -> Result<DmaBuffer, BlockError> {
    let i = buffer_from(s, ps, 0);
    if i >= s.len() {
        Err(BlockError::InvalidBuffer)
    } else if count > (s[i]->0).sector_count || sector + count > sectors {
        Err(BlockError::InvalidParameter)
    } else {
        Ok(s[i]->0)
    }
}

impl BlkBuffers {
    pub closed spec fn view(&self) -> Seq<Option<DmaBuffer>> {
        self.slots@
    }

    /// The number of buffers that were handed out.
    pub closed spec fn handed(&self) -> nat {
        self.count as nat
    }

    /// The sectors of the device.
    pub closed spec fn sectors(&self) -> u64 {
        self.capacity
    }

    /// Whether no more buffers are kept than were handed out, no more were handed out than
    /// there are slots, and the bytes of every buffer can be counted.
    pub open spec fn valid(&self) -> bool {
        &&& self@.len() == MAX_DMA_BUFFERS
        &&& used_count(self@, self@.len()) <= self.handed()
        &&& self.handed() <= MAX_DMA_BUFFERS
        &&& forall|i: int|
            0 <= i < self@.len() && (#[trigger] self@[i]) is Some ==> (self@[i]->0).sector_count
                * SECTOR_SIZE <= u64::MAX
    }

    pub fn new(capacity: u64) -> (r: Self)
        ensures
            r.valid(),
            r@ == no_slots::<DmaBuffer>(MAX_DMA_BUFFERS as nat),
            r.handed() == 0,
            r.sectors() == capacity,
    {
        let slots = Slots::new(MAX_DMA_BUFFERS);
        proof {
            crate::slots::lemma_none_used::<DmaBuffer>(MAX_DMA_BUFFERS as nat, MAX_DMA_BUFFERS as nat);
        }
        BlkBuffers { slots, count: 0, capacity }
    }

    /// The device: its capacity, and how its buffers are mapped.
    pub fn info(&self, buffer_attribute: u64) -> (r: BlockGeometry)
        ensures
            r == (BlockGeometry {
                capacity_sectors: self.sectors(),
                sector_size: SECTOR_SIZE,
                buffer_attribute,
            }),
    {
        BlockGeometry {
            capacity_sectors: self.capacity,
            sector_size: SECTOR_SIZE,
            buffer_attribute,
        }
    }

    /// The pages to make a buffer of, unless all buffers were handed out.
    pub fn alloc_buffer(&self, sector_count: u64) -> (r: Result<u64, BlockError>)
        requires
            self.valid(),
            sector_count * SECTOR_SIZE + PAGE_SIZE <= u64::MAX,
        ensures
            r == if self.handed() >= MAX_DMA_BUFFERS {
                Err::<u64, BlockError>(BlockError::AllocFailed)
            } else {
                Ok(pages_for(sector_count) as u64)
            },
    {
        if self.count >= MAX_DMA_BUFFERS {
            return Err(BlockError::AllocFailed);
        }
        Ok((sector_count * SECTOR_SIZE + PAGE_SIZE - 1) / PAGE_SIZE)
    }

    /// Keeps the page set that was made for a buffer in the first free slot.
    pub fn place(&mut self, ps: PageSetHandle, pa: u64, sector_count: u64) -> (r: Placed)
        requires
            old(self).valid(),
            old(self).handed() < MAX_DMA_BUFFERS,
            sector_count * SECTOR_SIZE <= u64::MAX,
        ensures
            final(self).valid(),
            final(self).sectors() == old(self).sectors(),
            ({
                let s = old(self)@;
                let i = first_free(s);
                if i < s.len() {
                    &&& r == Placed::Kept(ps)
                    &&& final(self).handed() == old(self).handed() + 1
                    &&& final(self)@ == if pa != 0 {
                        s.update(i, Some(DmaBuffer { ps, pa, sector_count }))
                    } else {
                        s
                    }
                } else {
                    r == Placed::Discarded(Request::CloseHandle { handle: ps.0 }) && *final(self)
                        == *old(self)
                }
            }),
    {
        match self.slots.find_free() {
            Some(i) => {
                proof {
                    crate::slots::lemma_first_free(self@, 0);
                    crate::slots::lemma_used_count_fill(
                        self@,
                        i as int,
                        DmaBuffer { ps, pa, sector_count },
                    );
                }
                if pa != 0 {
                    self.slots.set(i, Some(DmaBuffer { ps, pa, sector_count }));
                }
                self.count = self.count + 1;
                Placed::Kept(ps)
            },
            None => Placed::Discarded(Request::CloseHandle { handle: ps.0 }),
        }
    }

    fn find(&self, ps: PageSetHandle) -> (r: Option<usize>)
        ensures
            match r {
                Some(i) => i == buffer_from(self@, ps, 0) && i < self@.len(),
                None => buffer_from(self@, ps, 0) == self@.len(),
            },
    {
        let mut i: usize = 0;
        while i < self.slots.len()
            invariant
                i <= self@.len(),
                buffer_from(self@, ps, 0) == buffer_from(self@, ps, i as int),
            decreases self@.len() - i,
        {
            if let Some(b) = self.slots.get(i) {
                if b.ps == ps {
                    return Some(i);
                }
            }
            i += 1;
        }
        None
    }

    /// The buffer for a transfer of `count` sectors from `sector` on, if it is known, holds
    /// as many, and the device has them.
    pub fn check_transfer(&self, sector: u64, count: u64, ps: PageSetHandle) -> (r: Result<
        DmaBuffer,
        BlockError,
    >)
        ensures
            r == checked(self@, self.sectors(), sector, count, ps),
    {
        proof {
            lemma_buffer_from(self@, ps, 0);
        }
        let buf = match self.find(ps) {
            Some(i) => match self.slots.get(i) {
                Some(b) => b,
                None => {
                    return Err(BlockError::InvalidBuffer);
                },
            },
            None => {
                return Err(BlockError::InvalidBuffer);
            },
        };
        if count > buf.sector_count || sector > self.capacity || count > self.capacity - sector {
            return Err(BlockError::InvalidParameter);
        }
        Ok(buf)
    }

    /// Takes a buffer back. Returns the request that closes its page set; a page set that is
    /// not known is ignored.
    pub fn free_buffer(&mut self, ps: PageSetHandle) -> (r: Option<Request>)
        requires
            old(self).valid(),
        ensures
            final(self).valid(),
            final(self).sectors() == old(self).sectors(),
            ({
                let s = old(self)@;
                let i = buffer_from(s, ps, 0);
                if i < s.len() {
                    &&& r == Some(Request::CloseHandle { handle: ps.0 })
                    &&& final(self)@ == s.update(i, None)
                    &&& final(self).handed() == old(self).handed() - 1
                } else {
                    r is None && *final(self) == *old(self)
                }
            }),
    {
        proof {
            lemma_buffer_from(self@, ps, 0);
        }
        match self.find(ps) {
            Some(i) => {
                proof {
                    crate::slots::lemma_used_count_clear(self@, i as int);
                }
                self.slots.set(i, None);
                self.count = self.count - 1;
                Some(Request::CloseHandle { handle: ps.0 })
            },
            None => None,
        }
    }
}

/// The segments of a request: its header, its data, and its status.
pub open spec fn request_segments(
    transfer: Transfer,
    req_pa: u64,
    data_pa: u64,
    count: u64,
) -> Seq<Segment> {
    seq![
        Segment { pa: req_pa, len: HEADER_SIZE, direction: Direction::DeviceReadable },
        Segment {
            pa: data_pa,
            len: ((count * SECTOR_SIZE) as u64) as u32,
            direction: if transfer == Transfer::In {
                Direction::DeviceWritable
            } else {
                Direction::DeviceReadable
            },
        },
        Segment {
            pa: (req_pa + HEADER_SIZE) as u64,
            len: 1,
            direction: Direction::DeviceWritable,
        },
    ]
}

/// Hands a request to the device, whose header and status lie at `req_pa`.
pub fn do_io(
    vq: &mut Virtqueue,
    transfer: Transfer,
    req_pa: u64,
    data_pa: u64,
    count: u64,
) -> (r: Result<Submission, BlockError>)
    requires
        old(vq).valid(),
        req_pa + HEADER_SIZE <= u64::MAX,
        count * SECTOR_SIZE <= u64::MAX,
    ensures
        final(vq).valid(),
        if old(vq).free_list().len() < 3 {
            r matches Err(e) && e == BlockError::AllocFailed && *final(vq) == *old(vq)
        } else {
            r matches Ok(s) && took(
                *old(vq),
                *final(vq),
                request_segments(transfer, req_pa, data_pa, count),
                s,
            )
        },
{
    let data_len = (count * SECTOR_SIZE) as u32;
    let mut segments: Vec<Segment> = Vec::new();
    segments.push(Segment::readable(req_pa, HEADER_SIZE));
    if transfer == Transfer::In {
        segments.push(Segment::writable(data_pa, data_len));
    } else {
        segments.push(Segment::readable(data_pa, data_len));
    }
    segments.push(Segment::writable(req_pa + HEADER_SIZE as u64, 1));
    assert(segments@ =~= request_segments(transfer, req_pa, data_pa, count));
    match vq.submit_chain(&segments) {
        Some(s) => Ok(s),
        None => Err(BlockError::AllocFailed),
    }
}

/// Ends a request, given whether the device signalled its completion, and the status that
/// it left. A request whose completion was not signalled stays with the device.
pub fn finish_io(vq: &mut Virtqueue, head: u16, completed: bool, status: u8) -> (r: Result<
    (),
    BlockError,
>)
    requires
        old(vq).valid(),
        old(vq).in_flight().dom().contains(head),
    ensures
        final(vq).valid(),
        r == if completed && status == STATUS_OK {
            Ok::<(), BlockError>(())
        } else {
            Err(BlockError::IoError)
        },
        if completed {
            gave_back(*old(vq), *final(vq), head)
        } else {
            *final(vq) == *old(vq)
        },
{
    if !completed {
        return Err(BlockError::IoError);
    }
    vq.free_chain(head);
    if status != STATUS_OK {
        return Err(BlockError::IoError);
    }
    Ok(())
}

/// The status byte before the device has written it.
pub const STATUS_PENDING: u8 = 0xFF;

/// A request on its way to the device. The header, which holds the direction and the sector,
/// and the status byte are written first; then what the submission says; then the queue is
/// notified.
pub struct IoRequest {
    pub transfer: Transfer,
    pub sector: u64,
    pub status: u8,
    pub submission: Submission,
    pub queue: u16,
}

/// The engine: its buffers, its queue, and the page of headers and status bytes.
pub struct VirtioBlkEngine {
    pub buffers: BlkBuffers,
    pub vq: Virtqueue,
    pub req_pa: u64,
}

impl VirtioBlkEngine {
    pub open spec fn valid(&self) -> bool {
        self.buffers.valid() && self.vq.valid() && self.req_pa + HEADER_SIZE <= u64::MAX
    }

    /// Whether `after` is the engine once it was asked for a transfer, and `r` what it said.
    pub open spec fn transferred(
        self,
        after: Self,
        transfer: Transfer,
        sector: u64,
        count: u64,
        ps: PageSetHandle,
        r: Result<IoRequest, BlockError>,
    ) -> bool {
        &&& after.buffers == self.buffers
        &&& after.req_pa == self.req_pa
        &&& match checked(self.buffers@, self.buffers.sectors(), sector, count, ps) {
            Err(e) => r == Err::<IoRequest, BlockError>(e) && after.vq == self.vq,
            Ok(buf) => if self.vq.free_list().len() < 3 {
                r == Err::<IoRequest, BlockError>(BlockError::AllocFailed) && after.vq == self.vq
            } else {
                &&& r is Ok
                &&& r->Ok_0.transfer == transfer
                &&& r->Ok_0.sector == sector
                &&& r->Ok_0.status == STATUS_PENDING
                &&& r->Ok_0.queue == 0
                &&& took(
                    self.vq,
                    after.vq,
                    request_segments(transfer, self.req_pa, buf.pa, count),
                    r->Ok_0.submission,
                )
            },
        }
    }

    fn transfer(&mut self, transfer: Transfer, sector: u64, count: u64, ps: PageSetHandle) -> (r:
        Result<IoRequest, BlockError>)
        requires
            old(self).valid(),
        ensures
            final(self).valid(),
            old(self).transferred(*final(self), transfer, sector, count, ps, r),
    {
        match self.buffers.check_transfer(sector, count, ps) {
            Err(e) => Err(e),
            Ok(buf) => {
                proof {
                    lemma_buffer_from(self.buffers@, ps, 0);
                    let i = buffer_from(self.buffers@, ps, 0);
                    assert(self.buffers@[i] is Some);
                    assert(count * SECTOR_SIZE <= (self.buffers@[i]->0).sector_count * SECTOR_SIZE)
                        by (nonlinear_arith)
                        requires
                            count <= (self.buffers@[i]->0).sector_count,
                    ;
                }
                match do_io(&mut self.vq, transfer, self.req_pa, buf.pa, count) {
                    Ok(submission) => Ok(
                        IoRequest {
                            transfer,
                            sector,
                            status: STATUS_PENDING,
                            submission,
                            queue: 0,
                        },
                    ),
                    Err(e) => Err(e),
                }
            },
        }
    }

    /// Asks the device for sectors.
    pub fn read(&mut self, sector: u64, count: u64, ps: PageSetHandle) -> (r: Result<
        IoRequest,
        BlockError,
    >)
        requires
            old(self).valid(),
        ensures
            final(self).valid(),
            old(self).transferred(*final(self), Transfer::In, sector, count, ps, r),
    {
        self.transfer(Transfer::In, sector, count, ps)
    }

    /// Hands sectors to the device.
    pub fn write(&mut self, sector: u64, count: u64, ps: PageSetHandle) -> (r: Result<
        IoRequest,
        BlockError,
    >)
        requires
            old(self).valid(),
        ensures
            final(self).valid(),
            old(self).transferred(*final(self), Transfer::Out, sector, count, ps, r),
    {
        self.transfer(Transfer::Out, sector, count, ps)
    }

    /// Ends a transfer, given whether the device signalled its completion, and the status
    /// byte.
    pub fn finish(&mut self, head: u16, completed: bool, status: u8) -> (r: Result<(), BlockError>)
        requires
            old(self).valid(),
            old(self).vq.in_flight().dom().contains(head),
        ensures
            final(self).valid(),
            final(self).buffers == old(self).buffers,
            final(self).req_pa == old(self).req_pa,
            r == if completed && status == STATUS_OK {
                Ok::<(), BlockError>(())
            } else {
                Err(BlockError::IoError)
            },
            if completed {
                gave_back(old(self).vq, final(self).vq, head)
            } else {
                final(self).vq == old(self).vq
            },
    {
        finish_io(&mut self.vq, head, completed, status)
    }
}

/// A transfer that the device completed leaves the queue's free descriptors as they were.
pub proof fn lemma_transfer_returns_descriptors(
    before: Virtqueue,
    between: Virtqueue,
    after: Virtqueue,
    segments: Seq<Segment>,
    s: Submission,
)
    requires
        before.valid(),
        took(before, between, segments, s),
        gave_back(between, after, s.head),
    ensures
        after.free_list() == before.free_list(),
        after.in_flight() == before.in_flight(),
{
    let n = segments.len() as int;
    crate::virtqueue::lemma_submit_then_free(before.free_list(), n);
    before.lemma_free_starts_none(0);
    assert(after.in_flight() =~= before.in_flight());
}

proof fn lemma_buffer_with(s: Seq<Option<DmaBuffer>>, b: DmaBuffer, ps: PageSetHandle, i: int)
    requires
        0 <= i <= s.len(),
        first_free(s) < s.len(),
        ps != b.ps || buffer_from(s, ps, i) == s.len(),
    ensures
        buffer_from(s.update(first_free(s), Some(b)), ps, i) == if ps == b.ps && i <= first_free(
            s,
        ) {
            first_free(s)
        } else {
            buffer_from(s, ps, i)
        },
    decreases s.len() - i,
{
    crate::slots::lemma_first_free(s, 0);
    if i < s.len() {
        lemma_buffer_with(s, b, ps, i + 1);
    }
}

/// A buffer that was kept is found under its page set until it is freed; then the engine has
/// the buffers that it had before. What other page sets lead to does not change.
pub proof fn lemma_buffer_until_freed(s: Seq<Option<DmaBuffer>>, b: DmaBuffer)
    requires
        first_free(s) < s.len(),
        buffer_from(s, b.ps, 0) == s.len(),
    ensures
        ({
            let t = s.update(first_free(s), Some(b));
            let i = buffer_from(t, b.ps, 0);
            &&& i < t.len() && t[i] == Some(b)
            &&& t.update(i, None) == s
            &&& forall|other: PageSetHandle|
                other != b.ps ==> #[trigger] buffer_from(t, other, 0) == buffer_from(s, other, 0)
        }),
{
    let t = s.update(first_free(s), Some(b));
    crate::slots::lemma_first_free(s, 0);
    lemma_buffer_with(s, b, b.ps, 0);
    assert(t.update(first_free(s), None) =~= s);
    assert forall|other: PageSetHandle| other != b.ps implies #[trigger] buffer_from(t, other, 0)
        == buffer_from(s, other, 0) by {
        lemma_buffer_with(s, b, other, 0);
    }
}

/// No request reaches beyond the device or beyond its buffer.
pub proof fn lemma_within_device(
    s: Seq<Option<DmaBuffer>>,
    sectors: u64,
    sector: u64,
    count: u64,
    ps: PageSetHandle,
)
    ensures
        checked(s, sectors, sector, count, ps) matches Ok(buf) ==> sector + count <= sectors
            && count <= buf.sector_count,
{
}

/// The size of the queue, given the largest that the device can have.
pub fn queue_size(max: u16) -> (r: u16)
    ensures
        r == if QUEUE_SIZE <= max {
            QUEUE_SIZE
        } else {
            max
        },
{
    if QUEUE_SIZE <= max {
        QUEUE_SIZE
    } else {
        max
    }
}

/// The pages that hold a queue.
pub fn queue_pages(total_size: u64) -> (r: u64)
    requires
        total_size + PAGE_SIZE <= u64::MAX,
    ensures
        r == (total_size + PAGE_SIZE - 1) / PAGE_SIZE as int,
{
    (total_size + PAGE_SIZE - 1) / PAGE_SIZE
}

/// How a request is laid out for the device: sixteen bytes of header that it reads, then 512
/// bytes a sector of data, which it writes where data comes in and reads where data goes out, then
/// one byte of status right behind the header, which it writes.
pub proof fn lemma_request_layout(transfer: Transfer, req_pa: u64, data_pa: u64, count: u64)
    requires
        count * 512 <= u32::MAX,
        req_pa + 16 <= u64::MAX,
    ensures
        ({
            let s = request_segments(transfer, req_pa, data_pa, count);
            &&& s.len() == 3
            &&& s[0].pa == req_pa && s[0].len == 16 && s[0].direction == Direction::DeviceReadable
            &&& s[1].pa == data_pa && s[1].len == count * 512
            &&& transfer == Transfer::In ==> s[1].direction == Direction::DeviceWritable
            &&& transfer == Transfer::Out ==> s[1].direction == Direction::DeviceReadable
            &&& s[2].pa == req_pa + 16 && s[2].len == 1 && s[2].direction
                == Direction::DeviceWritable
        }),
{
}

/// The pages for so many sectors hold them, and one page less does not.
pub proof fn lemma_pages_for(sectors: u64)
    ensures
        pages_for(sectors) * 4096 >= sectors * 512,
        (pages_for(sectors) - 1) * 4096 < sectors * 512,
{
}

/// A transfer that lies within the device and within a buffer that the engine keeps is made with
/// that buffer; any other is refused.
pub proof fn lemma_checked(
    s: Seq<Option<DmaBuffer>>,
    sectors: u64,
    sector: u64,
    count: u64,
    b: DmaBuffer,
    i: int,
)
    requires
        0 <= i < s.len(),
        s[i] == Some(b),
        forall|j: int| 0 <= j < i ==> !((#[trigger] s[j]) is Some && (s[j]->0).ps == b.ps),
    ensures
        checked(s, sectors, sector, count, b.ps) is Ok <==> count <= b.sector_count && sector
            + count <= sectors,
        checked(s, sectors, sector, count, b.ps) matches Ok(got) ==> got == b,
        checked(s, sectors, sector, count, b.ps) matches Err(e) ==> e
            == BlockError::InvalidParameter,
{
    lemma_first_buffer(s, b.ps, 0, i);
}

proof fn lemma_first_buffer(s: Seq<Option<DmaBuffer>>, ps: PageSetHandle, i: int, k: int)
    requires
        0 <= i <= k < s.len(),
        s[k] is Some && (s[k]->0).ps == ps,
        forall|j: int| i <= j < k ==> !((#[trigger] s[j]) is Some && (s[j]->0).ps == ps),
    ensures
        buffer_from(s, ps, i) == k,
    decreases k - i,
{
    if i < k {
        lemma_first_buffer(s, ps, i + 1, k);
    }
}

} // verus!
