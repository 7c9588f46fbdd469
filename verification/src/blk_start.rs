//! How the block driver starts: it negotiates with the device, sets up its queue, and reads
//! the first sector to see that the device works.

use crate::block::BlockError;
use crate::dma::Mapping;
use crate::driver_runtime::DriverCtx;
use crate::handle::PageSetHandle;
use crate::numerals::{dec, decimal};
use crate::startup::{exit, go, say_do, say_exit, say_serve, serve, Next, Said, StartStep};
use crate::syscall::{Request, SyscallError};
use crate::virtio::{
    queue_limit, DriverSelected, FeaturesAccepted, FeaturesWritten, QueueWrites, StatusWrite,
    VirtioTransport, VirtioTransportInit, STATUS_ACKNOWLEDGE, STATUS_DRIVER, STATUS_DRIVER_OK,
    STATUS_FAILED, STATUS_FEATURES_OK, VIRTIO_MMIO_MAGIC_VALUE,
};
use crate::virtio_blk::{queue_pages, queue_size, PAGE_SIZE, QUEUE_SIZE};
use crate::virtqueue::QueueLayout;
use crate::writer::put3;
use vstd::prelude::*;

verus! {

/// The queue that requests are made through.
pub const VQ_INDEX: u16 = 0;

/// The bytes of the first sector that are printed.
pub const REPORTED_BYTES: usize = 16;

/// What the driver is set up with.
#[derive(Clone, Copy, Debug, PartialEq, Eq, Structural)]
pub struct BlkConfig {
    pub ctx: DriverCtx,
    /// The features that the driver wants.
    pub wanted: u64,
}

/// Where the parts of a queue lie in physical memory.
#[derive(Clone, Copy, Debug, PartialEq, Eq, Structural)]
pub struct QueuePlace {
    pub desc: u64,
    pub avail: u64,
    pub used: u64,
}

/// What the driver does next.
#[derive(Clone, Copy, Debug, PartialEq, Eq, Structural)]
pub enum BlkAction {
    /// Read the magic and the version register.
    ReadIdentity,
    /// Write the status register three times, and read the features that are offered.
    Greet(StatusWrite, StatusWrite, StatusWrite),
    /// Write the features that were chosen, and read the status register.
    WriteFeatures(u64),
    /// Write the status register, and read it back.
    Propose(StatusWrite),
    /// Write the status register for the last time.
    Refuse(StatusWrite),
    /// Select a queue, and read the most descriptors that it can have.
    SelectQueue { index: u16 },
    /// Find out how a queue of so many descriptors is laid out.
    LayOut { queue_size: u16 },
    /// Map pages that are contiguous in memory, and make a queue of them.
    MakeQueue { layout: QueueLayout, pages: u64 },
    /// Write the registers of the queue and then the status register, and read the capacity.
    StartDevice(QueueWrites, StatusWrite),
    /// Map one page and zero it.
    AllocPage,
    /// Have the engine make a buffer.
    AllocBuffer { sector_count: u64 },
    MapExisting { pageset: PageSetHandle, pages: u64 },
    Kernel(Request),
    /// Have the engine read sectors.
    Read { sector: u64, count: u64, buffer: PageSetHandle },
    /// Read bytes of a mapped page.
    Peek { va: u64, bytes: usize },
    Unmap(Mapping),
    /// Have the engine free a buffer.
    FreeBuffer(PageSetHandle),
}

/// What came of it.
pub enum BlkEvent {
    Started,
    Identity { magic: u32, version: u32 },
    Features(u64),
    Status(u32),
    QueueMax(u32),
    Layout(QueueLayout),
    Queue(Result<QueuePlace, SyscallError>),
    Capacity(u64),
    Mapped(Result<Mapping, SyscallError>),
    Buffer(Result<PageSetHandle, BlockError>),
    Read(Result<(), BlockError>),
    Bytes(Vec<u8>),
    Done,
}

/// What the driver has once it started.
#[derive(Clone, Copy, Debug, PartialEq, Eq, Structural)]
pub struct BlkReady {
    pub ctx: DriverCtx,
    pub transport: VirtioTransport,
    pub capacity: u64,
    /// The page of the requests' headers and status bytes.
    pub req_page: Mapping,
}

/// What the driver waits for.
#[derive(Clone, Copy, Debug, PartialEq, Eq, Structural)]
pub enum BlkStage {
    Begin,
    Identifying,
    Negotiating,
    Writing,
    Confirming,
    Selecting,
    LayingOut,
    MakingQueue(QueueLayout),
    Measuring,
    Paging { capacity: u64 },
    Buffering(BlkReady),
    MappingTest(BlkReady, PageSetHandle),
    Zeroing(BlkReady, PageSetHandle, Mapping),
    Reading(BlkReady, PageSetHandle, Mapping),
    Peeking(BlkReady, PageSetHandle, Mapping),
    Unmapping(BlkReady, PageSetHandle),
    Freeing(BlkReady),
    /// The device was told that its features were not agreed on.
    Refusing,
    Over,
}

/// Whether an event is one that the driver waits for.
pub open spec fn awaits(stage: BlkStage, event: BlkEvent) -> bool {
    match stage {
        BlkStage::Begin => event is Started,
        BlkStage::Identifying => event is Identity,
        BlkStage::Negotiating => event is Features,
        BlkStage::Writing => event is Status,
        BlkStage::Confirming => event is Status,
        BlkStage::Selecting => event is QueueMax,
        BlkStage::LayingOut => event matches BlkEvent::Layout(l) && l.total_size + PAGE_SIZE
            <= u64::MAX,
        BlkStage::MakingQueue(_) => event is Queue,
        BlkStage::Measuring => event is Capacity,
        BlkStage::Paging { .. } => event is Mapped,
        BlkStage::Buffering(_) => event is Buffer,
        BlkStage::MappingTest(_, _) => event is Mapped,
        BlkStage::Zeroing(_, _, _) => event is Done,
        BlkStage::Reading(_, _, _) => event is Read,
        BlkStage::Peeking(_, _, _) => event is Bytes,
        BlkStage::Unmapping(_, _) => event is Done,
        BlkStage::Freeing(_) => event is Done,
        BlkStage::Refusing => event is Done,
        BlkStage::Over => false,
    }
}

// ---------------------------------------------------------------------------
// Texts
// ---------------------------------------------------------------------------

/// A half byte as a digit.
pub open spec fn digit_text(d: int) -> char {
    if d < 10 {
        (0x30 + d) as char
    } else {
        (0x57 + d) as char
    }
}

/// The first `n` bytes as digits, with blanks between them.
pub open spec fn bytes_text(b: Seq<u8>, n: nat) -> Seq<char>
    decreases n,
{
    if n == 0 {
        Seq::empty()
    } else {
        let head = bytes_text(b, (n - 1) as nat);
        (if n > 1 {
            head.push(' ')
        } else {
            head
        }).push(digit_text(b[n - 1] as int / 16)).push(digit_text(b[n - 1] as int % 16))
    }
}

/// The line that reports the first bytes of the first sector.
pub open spec fn sector_text(b: Seq<u8>) -> Seq<char> {
    "blk: selftest read OK, sector 0 = ["@ + bytes_text(b, b.len()) + "]\n"@
}

/// The line that reports the capacity.
pub open spec fn capacity_text(capacity: u64) -> Seq<char> {
    "blk: initialized, capacity="@ + decimal(capacity as nat) + " sectors\n"@
}

fn digit(d: u8) -> (r: char)
    requires
        d < 16,
    ensures
        r == digit_text(d as int),
{
    if d < 10 {
        (0x30 + d) as char
    } else {
        (0x57 + d) as char
    }
}

/// The line that reports the first bytes of the first sector.
pub fn sector_line(b: &Vec<u8>) -> (out: String)
    ensures
        out@ == sector_text(b@),
{
    let mut digits: Vec<char> = Vec::new();
    let mut i: usize = 0;
    while i < b.len()
        invariant
            i <= b@.len(),
            digits@ == bytes_text(b@, i as nat),
        decreases b@.len() - i,
    {
        if i > 0 {
            digits.push(' ');
        }
        digits.push(digit(b[i] / 16));
        digits.push(digit(b[i] % 16));
        i += 1;
    }
    let text = crate::text::string_of(&digits);
    let mut out = String::new();
    put3(&mut out, "blk: selftest read OK, sector 0 = [", text.as_str(), "]\n");
    assert(out@ =~= sector_text(b@));
    out
}

fn capacity_line(capacity: u64) -> (out: String)
    ensures
        out@ == capacity_text(capacity),
{
    let digits = dec(capacity);
    let mut out = String::new();
    put3(&mut out, "blk: initialized, capacity=", digits.as_str(), " sectors\n");
    assert(out@ =~= capacity_text(capacity));
    out
}

// ---------------------------------------------------------------------------
// The start
// ---------------------------------------------------------------------------

/// The driver gives up.
pub open spec fn blk_exit(say: Seq<char>) -> (BlkStage, Said<BlkAction, BlkReady>) {
    (BlkStage::Over, say_exit(say))
}

/// What the driver writes to the registers of its queue.
pub open spec fn writes_for(layout: QueueLayout, place: QueuePlace) -> QueueWrites {
    QueueWrites {
        num: layout.queue_size as u32,
        desc: place.desc,
        driver: place.avail,
        device: place.used,
        ready: 1,
    }
}

/// The number of descriptors, given the most that the queue can have.
pub open spec fn descriptors(max: u32) -> u16 {
    if QUEUE_SIZE <= max {
        QUEUE_SIZE
    } else {
        max as u16
    }
}

/// What the driver does once an event has come.
pub open spec fn blk_next(config: BlkConfig, stage: BlkStage, event: BlkEvent) -> (
    BlkStage,
    Said<BlkAction, BlkReady>,
) {
    match (stage, event) {
        (BlkStage::Begin, _) => (BlkStage::Identifying, say_do(""@, BlkAction::ReadIdentity)),
        (BlkStage::Identifying, BlkEvent::Identity { magic, version }) => if magic
            == VIRTIO_MMIO_MAGIC_VALUE && version == 2 {
            (
                BlkStage::Negotiating,
                say_do(
                    ""@,
                    BlkAction::Greet(
                        StatusWrite(0),
                        StatusWrite(STATUS_ACKNOWLEDGE),
                        StatusWrite(STATUS_ACKNOWLEDGE | STATUS_DRIVER),
                    ),
                ),
            )
        } else {
            blk_exit("blk: not virtio\n"@)
        },
        (BlkStage::Negotiating, BlkEvent::Features(offered)) => if config.wanted & !offered == 0 {
            (BlkStage::Writing, say_do(""@, BlkAction::WriteFeatures(config.wanted)))
        } else {
            blk_exit("blk: feature negotiation FAILED\n"@)
        },
        (BlkStage::Writing, BlkEvent::Status(status)) => (
            BlkStage::Confirming,
            say_do(""@, BlkAction::Propose(StatusWrite(status | STATUS_FEATURES_OK))),
        ),
        (BlkStage::Confirming, BlkEvent::Status(status)) => if status & STATUS_FEATURES_OK
            == STATUS_FEATURES_OK {
            (BlkStage::Selecting, say_do(""@, BlkAction::SelectQueue { index: VQ_INDEX }))
        } else {
            (BlkStage::Refusing, say_do(""@, BlkAction::Refuse(StatusWrite(STATUS_FAILED))))
        },
        (BlkStage::Refusing, _) => blk_exit("blk: FEATURES_OK rejected\n"@),
        (BlkStage::Selecting, BlkEvent::QueueMax(max)) => if max != 0 {
            (
                BlkStage::LayingOut,
                say_do(""@, BlkAction::LayOut { queue_size: descriptors(max) }),
            )
        } else {
            blk_exit("blk: setup_queue FAILED\n"@)
        },
        (BlkStage::LayingOut, BlkEvent::Layout(layout)) => (
            BlkStage::MakingQueue(layout),
            say_do(
                ""@,
                BlkAction::MakeQueue {
                    layout,
                    pages: ((layout.total_size + PAGE_SIZE - 1) / PAGE_SIZE as int) as u64,
                },
            ),
        ),
        (BlkStage::MakingQueue(layout), BlkEvent::Queue(Ok(place))) => (
            BlkStage::Measuring,
            say_do(
                ""@,
                BlkAction::StartDevice(
                    writes_for(layout, place),
                    StatusWrite(
                        STATUS_ACKNOWLEDGE | STATUS_DRIVER | STATUS_FEATURES_OK
                            | STATUS_DRIVER_OK,
                    ),
                ),
            ),
        ),
        (BlkStage::MakingQueue(_), _) => blk_exit("blk: setup_queue FAILED\n"@),
        (BlkStage::Measuring, BlkEvent::Capacity(capacity)) => (
            BlkStage::Paging { capacity },
            say_do(capacity_text(capacity), BlkAction::AllocPage),
        ),
        (BlkStage::Paging { capacity }, BlkEvent::Mapped(Ok(req_page))) => (
            BlkStage::Buffering(
                BlkReady {
                    ctx: config.ctx,
                    transport: VirtioTransport::started(config.ctx.regs_va),
                    capacity,
                    req_page,
                },
            ),
            say_do(""@, BlkAction::AllocBuffer { sector_count: 1 }),
        ),
        (BlkStage::Paging { .. }, _) => blk_exit("blk: alloc req page FAILED\n"@),
        (BlkStage::Buffering(ready), BlkEvent::Buffer(Ok(pageset))) => (
            BlkStage::MappingTest(ready, pageset),
            say_do(""@, BlkAction::MapExisting { pageset, pages: 1 }),
        ),
        (BlkStage::Buffering(_), _) => blk_exit("blk: PANIC\n"@),
        (BlkStage::MappingTest(ready, pageset), BlkEvent::Mapped(Ok(m))) => (
            BlkStage::Zeroing(ready, pageset, m),
            say_do(""@, BlkAction::Kernel(Request::Zero { va: m.va, bytes: PAGE_SIZE })),
        ),
        (BlkStage::MappingTest(_, _), _) => blk_exit("blk: selftest map FAILED\n"@),
        (BlkStage::Zeroing(ready, pageset, m), _) => (
            BlkStage::Reading(ready, pageset, m),
            say_do(""@, BlkAction::Read { sector: 0, count: 1, buffer: pageset }),
        ),
        (BlkStage::Reading(ready, pageset, m), BlkEvent::Read(Ok(_))) => (
            BlkStage::Peeking(ready, pageset, m),
            say_do(""@, BlkAction::Peek { va: m.va, bytes: REPORTED_BYTES }),
        ),
        (BlkStage::Reading(ready, pageset, m), _) => (
            BlkStage::Unmapping(ready, pageset),
            say_do("blk: selftest read FAILED\n"@, BlkAction::Unmap(m)),
        ),
        (BlkStage::Peeking(ready, pageset, m), BlkEvent::Bytes(b)) => (
            BlkStage::Unmapping(ready, pageset),
            say_do(sector_text(b@), BlkAction::Unmap(m)),
        ),
        (BlkStage::Unmapping(ready, pageset), _) => (
            BlkStage::Freeing(ready),
            say_do(""@, BlkAction::FreeBuffer(pageset)),
        ),
        (BlkStage::Freeing(ready), _) => (
            BlkStage::Over,
            say_serve("blk: serving\n"@, ready),
        ),
        _ => blk_exit(""@),
    }
}

/// How far the negotiation with the device has come.
pub enum Negotiation {
    Unneeded,
    Selected(VirtioTransportInit<DriverSelected>),
    Written(VirtioTransportInit<FeaturesWritten>),
    Accepted(VirtioTransportInit<FeaturesAccepted>),
    Started(VirtioTransport),
}

/// The block driver's start.
pub struct BlkStart {
    pub config: BlkConfig,
    pub stage: BlkStage,
    pub negotiation: Negotiation,
}

/// What a step of the start comes to.
pub type BlkTurn = (BlkStart, StartStep<BlkAction, BlkReady>);

impl BlkStart {
    /// Whether the negotiation is as far as the stage needs it, with the driver's registers.
    pub open spec fn valid(&self) -> bool {
        let regs_va = self.config.ctx.regs_va;
        match self.stage {
            BlkStage::Negotiating => self.negotiation matches Negotiation::Selected(i)
                && i.regs() == regs_va,
            BlkStage::Writing => self.negotiation matches Negotiation::Written(i) && i.regs()
                == regs_va,
            BlkStage::Confirming => self.negotiation matches Negotiation::Written(i) && i.regs()
                == regs_va,
            BlkStage::Selecting => self.negotiation matches Negotiation::Accepted(i) && i.regs()
                == regs_va,
            BlkStage::LayingOut => self.negotiation matches Negotiation::Accepted(i) && i.regs()
                == regs_va,
            BlkStage::MakingQueue(_) => self.negotiation matches Negotiation::Accepted(i)
                && i.regs() == regs_va,
            BlkStage::Measuring => self.negotiation matches Negotiation::Started(t) && t
                == VirtioTransport::started(regs_va),
            BlkStage::Paging { .. } => self.negotiation matches Negotiation::Started(t)
                && t == VirtioTransport::started(regs_va),
            _ => true,
        }
    }

    pub fn new(config: BlkConfig) -> (r: Self)
        ensures
            r.valid(),
            r.config == config,
            r.stage == BlkStage::Begin,
    {
        BlkStart { config, stage: BlkStage::Begin, negotiation: Negotiation::Unneeded }
    }

    fn give_up(config: BlkConfig, say: &str) -> (r: BlkTurn)
        ensures
            r.0.valid(),
            r.0.config == config,
            (r.0.stage, r.1@) == blk_exit(say@),
    {
        (
            BlkStart { config, stage: BlkStage::Over, negotiation: Negotiation::Unneeded },
            exit(say),
        )
    }

    fn wait(
        config: BlkConfig,
        stage: BlkStage,
        negotiation: Negotiation,
        say: &str,
        action: BlkAction,
    ) -> (r: BlkTurn)
        ensures
            r.0 == (BlkStart { config, stage, negotiation }),
            r.1@ == say_do::<BlkAction, BlkReady>(say@, action),
    {
        (BlkStart { config, stage, negotiation }, go(say, action))
    }

    fn test(config: BlkConfig, stage: BlkStage, say: &str, action: BlkAction) -> (r: BlkTurn)
        ensures
            r.0 == (BlkStart { config, stage, negotiation: Negotiation::Unneeded }),
            r.1@ == say_do::<BlkAction, BlkReady>(say@, action),
    {
        Self::wait(config, stage, Negotiation::Unneeded, say, action)
    }

    /// The device answers: its first three states are written, in this order.
    fn identified(config: BlkConfig, magic: u32, version: u32) -> (r: BlkTurn)
        ensures
            r.0.valid(),
            r.0.config == config,
            (r.0.stage, r.1@) == blk_next(
                config,
                BlkStage::Identifying,
                (BlkEvent::Identity { magic, version }),
            ),
    {
        match VirtioTransportInit::reset(config.ctx.regs_va, magic, version) {
            Err(_) => Self::give_up(config, "blk: not virtio\n"),
            Ok((init, reset)) => {
                let (init, noticed) = init.acknowledge();
                let (init, driven) = init.driver();
                Self::wait(
                    config,
                    BlkStage::Negotiating,
                    Negotiation::Selected(init),
                    "",
                    BlkAction::Greet(reset, noticed, driven),
                )
            },
        }
    }

    /// How the negotiation goes on.
    fn negotiate(self, event: BlkEvent) -> (r: BlkTurn)
        requires
            self.valid(),
            awaits(self.stage, event),
            self.stage is Negotiating || self.stage is Writing || self.stage is Confirming
                || self.stage is Selecting || self.stage is LayingOut
                || self.stage is MakingQueue,
        ensures
            r.0.valid(),
            r.0.config == self.config,
            (r.0.stage, r.1@) == blk_next(self.config, self.stage, event),
    {
        let config = self.config;
        match (self.stage, self.negotiation, event) {
            (
                BlkStage::Negotiating,
                Negotiation::Selected(init),
                BlkEvent::Features(offered),
            ) => match init.negotiate(offered, config.wanted) {
                Ok((init, chosen)) => Self::wait(
                    config,
                    BlkStage::Writing,
                    Negotiation::Written(init),
                    "",
                    BlkAction::WriteFeatures(chosen),
                ),
                Err(_) => Self::give_up(config, "blk: feature negotiation FAILED\n"),
            },
            (BlkStage::Writing, Negotiation::Written(init), BlkEvent::Status(status)) => {
                let proposal = init.propose(status);
                Self::wait(
                    config,
                    BlkStage::Confirming,
                    Negotiation::Written(init),
                    "",
                    BlkAction::Propose(proposal),
                )
            },
            (BlkStage::Confirming, Negotiation::Written(init), BlkEvent::Status(status)) =>
                match init.features_ok(status) {
                    Ok(init) => Self::wait(
                        config,
                        BlkStage::Selecting,
                        Negotiation::Accepted(init),
                        "",
                        BlkAction::SelectQueue { index: VQ_INDEX },
                    ),
                    Err((_, failed)) => Self::test(
                        config,
                        BlkStage::Refusing,
                        "",
                        BlkAction::Refuse(failed),
                    ),
                },
            (BlkStage::Selecting, Negotiation::Accepted(init), BlkEvent::QueueMax(max)) =>
                match queue_limit(VQ_INDEX, max) {
                    Ok(limit) => Self::wait(
                        config,
                        BlkStage::LayingOut,
                        Negotiation::Accepted(init),
                        "",
                        BlkAction::LayOut { queue_size: queue_size(limit) },
                    ),
                    Err(_) => Self::give_up(config, "blk: setup_queue FAILED\n"),
                },
            (BlkStage::LayingOut, Negotiation::Accepted(init), BlkEvent::Layout(layout)) =>
                Self::wait(
                    config,
                    BlkStage::MakingQueue(layout),
                    Negotiation::Accepted(init),
                    "",
                    BlkAction::MakeQueue { layout, pages: queue_pages(layout.total_size) },
                ),
            (
                BlkStage::MakingQueue(layout),
                Negotiation::Accepted(init),
                BlkEvent::Queue(Ok(place)),
            ) => {
                let (init, writes) = init.setup_queue(
                    layout.queue_size,
                    place.desc,
                    place.avail,
                    place.used,
                );
                let (transport, started) = init.driver_ok();
                Self::wait(
                    config,
                    BlkStage::Measuring,
                    Negotiation::Started(transport),
                    "",
                    BlkAction::StartDevice(writes, started),
                )
            },
            (BlkStage::MakingQueue(_), _, _) => Self::give_up(
                config,
                "blk: setup_queue FAILED\n",
            ),
            _ => Self::give_up(config, ""),
        }
    }

    /// What the driver does once an event has come.
    pub fn virtio_blk_main(self, event: BlkEvent) -> (r: BlkTurn)
        requires
            self.valid(),
            awaits(self.stage, event),
        ensures
            r.0.valid(),
            r.0.config == self.config,
            (r.0.stage, r.1@) == blk_next(self.config, self.stage, event),
    {
        let config = self.config;
        match (self.stage, event) {
            (BlkStage::Begin, _) => Self::test(
                config,
                BlkStage::Identifying,
                "",
                BlkAction::ReadIdentity,
            ),
            (BlkStage::Identifying, BlkEvent::Identity { magic, version }) => Self::identified(
                config,
                magic,
                version,
            ),
            (BlkStage::Negotiating, event) => self.negotiate(event),
            (BlkStage::Writing, event) => self.negotiate(event),
            (BlkStage::Confirming, event) => self.negotiate(event),
            (BlkStage::Selecting, event) => self.negotiate(event),
            (BlkStage::LayingOut, event) => self.negotiate(event),
            (BlkStage::MakingQueue(_), event) => self.negotiate(event),
            (BlkStage::Refusing, _) => Self::give_up(config, "blk: FEATURES_OK rejected\n"),
            (BlkStage::Measuring, BlkEvent::Capacity(capacity)) => {
                let line = capacity_line(capacity);
                Self::wait(
                    config,
                    BlkStage::Paging { capacity },
                    self.negotiation,
                    line.as_str(),
                    BlkAction::AllocPage,
                )
            },
            (BlkStage::Paging { capacity }, BlkEvent::Mapped(Ok(req_page))) =>
                match self.negotiation {
                    Negotiation::Started(transport) => Self::test(
                        config,
                        BlkStage::Buffering(
                            BlkReady { ctx: config.ctx, transport, capacity, req_page },
                        ),
                        "",
                        BlkAction::AllocBuffer { sector_count: 1 },
                    ),
                    _ => Self::give_up(config, ""),
                },
            (BlkStage::Paging { .. }, _) => Self::give_up(config, "blk: alloc req page FAILED\n"),
            (BlkStage::Buffering(ready), BlkEvent::Buffer(Ok(pageset))) => Self::test(
                config,
                BlkStage::MappingTest(ready, pageset),
                "",
                BlkAction::MapExisting { pageset, pages: 1 },
            ),
            (BlkStage::Buffering(_), _) => Self::give_up(config, "blk: PANIC\n"),
            (BlkStage::MappingTest(ready, pageset), BlkEvent::Mapped(Ok(m))) => Self::test(
                config,
                BlkStage::Zeroing(ready, pageset, m),
                "",
                BlkAction::Kernel(Request::Zero { va: m.va, bytes: PAGE_SIZE }),
            ),
            (BlkStage::MappingTest(_, _), _) => Self::give_up(
                config,
                "blk: selftest map FAILED\n",
            ),
            (BlkStage::Zeroing(ready, pageset, m), _) => Self::test(
                config,
                BlkStage::Reading(ready, pageset, m),
                "",
                BlkAction::Read { sector: 0, count: 1, buffer: pageset },
            ),
            (BlkStage::Reading(ready, pageset, m), BlkEvent::Read(Ok(_))) => Self::test(
                config,
                BlkStage::Peeking(ready, pageset, m),
                "",
                BlkAction::Peek { va: m.va, bytes: REPORTED_BYTES },
            ),
            (BlkStage::Reading(ready, pageset, m), _) => Self::test(
                config,
                BlkStage::Unmapping(ready, pageset),
                "blk: selftest read FAILED\n",
                BlkAction::Unmap(m),
            ),
            (BlkStage::Peeking(ready, pageset, m), BlkEvent::Bytes(b)) => {
                let line = sector_line(&b);
                Self::test(
                    config,
                    BlkStage::Unmapping(ready, pageset),
                    line.as_str(),
                    BlkAction::Unmap(m),
                )
            },
            (BlkStage::Unmapping(ready, pageset), _) => Self::test(
                config,
                BlkStage::Freeing(ready),
                "",
                BlkAction::FreeBuffer(pageset),
            ),
            (BlkStage::Freeing(ready), _) => (
                BlkStart { config, stage: BlkStage::Over, negotiation: Negotiation::Unneeded },
                serve("blk: serving\n", ready),
            ),
            _ => Self::give_up(config, ""),
        }
    }
}

// ---------------------------------------------------------------------------
// Laws
// ---------------------------------------------------------------------------

/// The driver serves only once the test buffer was freed.
pub proof fn lemma_blk_serves_clean(config: BlkConfig, stage: BlkStage, event: BlkEvent)
    ensures
        blk_next(config, stage, event).1.next matches Next::Serve(ready) ==> stage
            == BlkStage::Freeing(ready),
{
}

/// A test that the device fails is reported and no more: whatever comes of the read, the test
/// buffer is unmapped and freed, and the driver serves.
pub proof fn lemma_failed_read_is_harmless(
    config: BlkConfig,
    ready: BlkReady,
    pageset: PageSetHandle,
    m: Mapping,
    outcome: Result<(), BlockError>,
)
    ensures
        outcome is Err ==> blk_next(
            config,
            BlkStage::Reading(ready, pageset, m),
            BlkEvent::Read(outcome),
        ) == (
            BlkStage::Unmapping(ready, pageset),
            say_do::<BlkAction, BlkReady>("blk: selftest read FAILED\n"@, BlkAction::Unmap(m)),
        ),
        blk_next(config, BlkStage::Unmapping(ready, pageset), BlkEvent::Done) == (
            BlkStage::Freeing(ready),
            say_do::<BlkAction, BlkReady>(""@, BlkAction::FreeBuffer(pageset)),
        ),
        blk_next(config, BlkStage::Freeing(ready), BlkEvent::Done) == (
            BlkStage::Over,
            say_serve::<BlkAction, BlkReady>("blk: serving\n"@, ready),
        ),
{
}

/// The queue that is asked for has no more descriptors than the device can have.
pub proof fn lemma_queue_within_limit(max: u32)
    requires
        max > 0,
    ensures
        0 < descriptors(max) <= max,
{
}

/// How the device is started: it is reset and told that the driver knows it, the features that
/// the driver wants are written, and the device's agreement is read back before anything else.
pub proof fn lemma_blk_negotiates(config: BlkConfig, version: u32, offered: u64, status: u32, back: u32)
    requires
        version == 2,
        config.wanted & !offered == 0,
        back & 8 == 8,
    ensures
        ({
            let (s1, d1) = blk_next(config, BlkStage::Begin, BlkEvent::Started);
            let (s2, d2) = blk_next(
                config,
                s1,
                (BlkEvent::Identity { magic: 0x7472_6976, version }),
            );
            let (s3, d3) = blk_next(config, s2, BlkEvent::Features(offered));
            let (s4, d4) = blk_next(config, s3, BlkEvent::Status(status));
            let (s5, d5) = blk_next(config, s4, BlkEvent::Status(back));
            &&& d1.next == Next::<BlkAction, BlkReady>::Do(BlkAction::ReadIdentity)
            &&& d2.next == Next::<BlkAction, BlkReady>::Do(
                BlkAction::Greet(StatusWrite(0), StatusWrite(1), StatusWrite(1u32 | 2u32)),
            )
            &&& d3.next == Next::<BlkAction, BlkReady>::Do(
                BlkAction::WriteFeatures(config.wanted),
            )
            &&& d4.next == Next::<BlkAction, BlkReady>::Do(
                BlkAction::Propose(StatusWrite(status | 8)),
            )
            &&& d5.next == Next::<BlkAction, BlkReady>::Do(BlkAction::SelectQueue { index: 0 })
            &&& s5 == BlkStage::Selecting
        }),
{
}

/// How the queue and the pages are set up: with as many descriptors as the device can have, up to
/// 128, on pages that hold the whole layout; the device is told where its three parts lie; and the
/// driver keeps the capacity and the page for its requests.
pub proof fn lemma_blk_sets_up(
    config: BlkConfig,
    max: u32,
    layout: QueueLayout,
    place: QueuePlace,
    capacity: u64,
    page: Mapping,
)
    requires
        max > 0,
        layout.total_size + 4096 <= u64::MAX,
    ensures
        ({
            let (s1, d1) = blk_next(config, BlkStage::Selecting, BlkEvent::QueueMax(max));
            let (s2, d2) = blk_next(config, s1, BlkEvent::Layout(layout));
            let (s3, d3) = blk_next(config, s2, BlkEvent::Queue(Ok(place)));
            let (s4, d4) = blk_next(config, s3, BlkEvent::Capacity(capacity));
            let (s5, d5) = blk_next(config, s4, BlkEvent::Mapped(Ok(page)));
            &&& d1.next matches Next::Do(BlkAction::LayOut { queue_size })
            &&& max >= 128 ==> queue_size == 128
            &&& max < 128 ==> queue_size == max
            &&& d2.next matches Next::Do(BlkAction::MakeQueue { layout: l, pages })
            &&& l == layout
            &&& layout.total_size <= pages * 4096
            &&& pages * 4096 < layout.total_size + 4096
            &&& d3.next matches Next::Do(BlkAction::StartDevice(w, status))
            &&& w.num == layout.queue_size
            &&& w.desc == place.desc
            &&& w.driver == place.avail
            &&& w.device == place.used
            &&& w.ready == 1
            &&& status == StatusWrite(1u32 | 2u32 | 8u32 | 4u32)
            &&& d4.next == Next::<BlkAction, BlkReady>::Do(BlkAction::AllocPage)
            &&& d5.next == Next::<BlkAction, BlkReady>::Do(
                BlkAction::AllocBuffer { sector_count: 1 },
            )
            &&& s5 matches BlkStage::Buffering(ready)
            &&& ready.capacity == capacity
            &&& ready.req_page == page
            &&& ready.ctx == config.ctx
        }),
{
}

/// How the driver tests its device: the first sector is read into a page that was cleared, and
/// its first sixteen bytes are reported; then the page is unmapped and the buffer freed.
pub proof fn lemma_blk_tests(
    config: BlkConfig,
    ready: BlkReady,
    pageset: PageSetHandle,
    m: Mapping,
    bytes: Vec<u8>,
)
    ensures
        ({
            let (s1, d1) = blk_next(
                config,
                BlkStage::Buffering(ready),
                BlkEvent::Buffer(Ok(pageset)),
            );
            let (s2, d2) = blk_next(config, s1, BlkEvent::Mapped(Ok(m)));
            let (s3, d3) = blk_next(config, s2, BlkEvent::Done);
            let (s4, d4) = blk_next(config, s3, BlkEvent::Read(Ok(())));
            let (s5, d5) = blk_next(config, s4, BlkEvent::Bytes(bytes));
            &&& d1.next == Next::<BlkAction, BlkReady>::Do(
                BlkAction::MapExisting { pageset, pages: 1 },
            )
            &&& d2.next == Next::<BlkAction, BlkReady>::Do(
                BlkAction::Kernel(Request::Zero { va: m.va, bytes: 4096 }),
            )
            &&& d3.next == Next::<BlkAction, BlkReady>::Do(
                BlkAction::Read { sector: 0, count: 1, buffer: pageset },
            )
            &&& d4.next == Next::<BlkAction, BlkReady>::Do(
                BlkAction::Peek { va: m.va, bytes: 16 },
            )
            &&& d5.next == Next::<BlkAction, BlkReady>::Do(BlkAction::Unmap(m))
            &&& s5 == BlkStage::Unmapping(ready, pageset)
        }),
{
}

/// What is no such device, offers too little, takes the features back or has no queue ends the
/// driver; a device that takes them back is told so first.
pub proof fn lemma_blk_ends(config: BlkConfig, magic: u32, version: u32, offered: u64, back: u32)
    ensures
        magic != 0x7472_6976 || version != 2 ==> blk_next(
            config,
            BlkStage::Identifying,
            (BlkEvent::Identity { magic, version }),
        ).1 == say_exit::<BlkAction, BlkReady>("blk: not virtio\n"@),
        config.wanted & !offered != 0 ==> blk_next(
            config,
            BlkStage::Negotiating,
            BlkEvent::Features(offered),
        ).1 == say_exit::<BlkAction, BlkReady>("blk: feature negotiation FAILED\n"@),
        back & 8 != 8 ==> blk_next(config, BlkStage::Confirming, BlkEvent::Status(back)).1.next
            == Next::<BlkAction, BlkReady>::Do(BlkAction::Refuse(StatusWrite(128))),
        blk_next(config, BlkStage::Refusing, BlkEvent::Done).1 == say_exit::<BlkAction, BlkReady>(
            "blk: FEATURES_OK rejected\n"@,
        ),
        blk_next(config, BlkStage::Selecting, BlkEvent::QueueMax(0)).1 == say_exit::<
            BlkAction,
            BlkReady,
        >("blk: setup_queue FAILED\n"@),
{
}

/// Every byte is reported as its two digits in base sixteen, in order: the characters at its
/// place read as the byte.
pub proof fn lemma_bytes_text(b: Seq<u8>, n: nat, k: int)
    requires
        0 <= k < n <= b.len(),
    ensures
        bytes_text(b, n).len() == 3 * n - 1,
        crate::text::digit_value(bytes_text(b, n)[3 * k], 16) * 16 + crate::text::digit_value(
            bytes_text(b, n)[3 * k + 1],
            16,
        ) == b[k],
        k + 1 < n ==> bytes_text(b, n)[3 * k + 2] == ' ',
    decreases n,
{
    let head = bytes_text(b, (n - 1) as nat);
    if n > 1 {
        lemma_bytes_text(b, (n - 1) as nat, if k < n - 1 { k } else { n - 2 });
    } else {
        assert(bytes_text(b, 0) =~= Seq::empty());
    }
    lemma_digit_text(b[n - 1] as int / 16);
    lemma_digit_text(b[n - 1] as int % 16);
}

proof fn lemma_digit_text(d: int)
    requires
        0 <= d < 16,
    ensures
        crate::text::digit_value(digit_text(d), 16) == d,
{
}

} // verus!
