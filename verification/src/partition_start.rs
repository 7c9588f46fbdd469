//! How the partition server starts: it reads the first sector of a disk through another
//! block server, and chooses what to serve.

use crate::block::{
    buffer_of, info_of, outcome_of, AllocatedBuffer, BlockClient, BlockCodes, BlockInfo,
};
use crate::handle::{EndpointHandle, ReplyHandle};
use crate::partition::{choose_partition, chosen_part, BootstrapBuf, DiskLayout, SECTOR_SIZE};
use crate::startup::{exit, go, say_do, say_exit, say_serve, serve, Next, Said, StartStep};
use crate::syscall::{MapAttribute, Message, Reply, Request, Words};
use vstd::prelude::*;

verus! {

/// What the server is set up with.
#[derive(Clone, Copy, Debug, PartialEq, Eq, Structural)]
pub struct PartitionConfig {
    /// Where the program that started the server is asked.
    pub bootstrap_ep: u64,
    pub codes: BlockCodes,
}

/// What the server does next.
#[derive(Clone, Copy, Debug, PartialEq, Eq, Structural)]
pub enum PartitionAction {
    Kernel(Request),
    AllocVa { pages: u64 },
    FreeVa { va: u64, pages: u64 },
    /// Find out what the sector at the address says of a disk of so many sectors.
    ReadLayout { va: u64, capacity_sectors: u64 },
}

/// What came of it.
pub enum PartitionEvent {
    Started,
    Kernel(Reply),
    Answer(Message),
    /// The answer that describes the device, and what its third word says of the attribute.
    Info(Message, Option<MapAttribute>),
    Va(Option<u64>),
    /// The layout of the disk; `None` where the sector makes no sense.
    Layout(Option<DiskLayout>),
    Done,
}

/// The server's own endpoint, and the block server behind it.
#[derive(Clone, Copy, Debug, PartialEq, Eq, Structural)]
pub struct Link {
    pub server_ep: EndpointHandle,
    pub upstream: BlockClient,
}

/// What is served: the part of the disk, and how buffers are mapped.
#[derive(Clone, Copy, Debug, PartialEq, Eq, Structural)]
pub struct Served {
    pub link: Link,
    pub start_lba: u64,
    pub sector_count: u64,
    pub buffer_attribute: MapAttribute,
}

/// What the server waits for.
#[derive(Clone, Copy, Debug, PartialEq, Eq, Structural)]
pub enum PartitionStage {
    Begin,
    ReplyPage,
    ReplyMaking,
    Bootstrapping { reply: u64 },
    Asking(Link),
    Allocating(Link, BlockInfo),
    Addressing(Link, BlockInfo, AllocatedBuffer),
    Mapping(Link, BlockInfo, AllocatedBuffer, u64),
    Reading(Link, BlockInfo, AllocatedBuffer, u64),
    Parsing(Link, BlockInfo, AllocatedBuffer, u64),
    /// What is served is known; the buffer is taken down.
    Unmapping(Served, AllocatedBuffer, u64),
    FreeingAddress(Served, AllocatedBuffer),
    FreeingUpstream(Served, AllocatedBuffer),
    Closing(Served),
    Over,
}

/// Whether an event is one that the server waits for.
pub open spec fn awaits(stage: PartitionStage, event: PartitionEvent) -> bool {
    match stage {
        PartitionStage::Begin => event is Started,
        PartitionStage::ReplyPage => event is Kernel,
        PartitionStage::ReplyMaking => event is Kernel,
        PartitionStage::Bootstrapping { .. } => event is Answer,
        PartitionStage::Asking(_) => event is Info,
        PartitionStage::Allocating(_, _) => event is Answer,
        PartitionStage::Addressing(_, _, _) => event is Va,
        PartitionStage::Mapping(_, _, _, _) => event is Kernel,
        PartitionStage::Reading(_, _, _, _) => event is Answer,
        PartitionStage::Parsing(_, _, _, _) => event is Layout,
        PartitionStage::Unmapping(_, _, _) => event is Kernel,
        PartitionStage::FreeingAddress(_, _) => event is Done,
        PartitionStage::FreeingUpstream(_, _) => event is Answer,
        PartitionStage::Closing(_) => event is Kernel,
        PartitionStage::Over => false,
    }
}

/// The server gives up.
pub open spec fn partition_exit(say: Seq<char>) -> (
    PartitionStage,
    Said<PartitionAction, Served>,
) {
    (PartitionStage::Over, say_exit(say))
}

pub open spec fn kernel(request: Request) -> PartitionAction {
    PartitionAction::Kernel(request)
}

/// The requests that end the buffer once it is unmapped.
pub open spec fn ended(served: Served, buffer: AllocatedBuffer) -> (Request, Request) {
    BootstrapBuf { pageset: buffer.pageset, buffer_id: buffer.buffer_id, va: 0 }.finishing(
        served.link.upstream,
    )
}

/// The buffer is freed at the server behind.
pub open spec fn free_upstream(served: Served, buffer: AllocatedBuffer) -> (
    PartitionStage,
    Said<PartitionAction, Served>,
) {
    (
        PartitionStage::FreeingUpstream(served, buffer),
        say_do(""@, kernel(ended(served, buffer).0)),
    )
}

/// What is served, of a disk of the given layout.
pub open spec fn served_of(link: Link, info: BlockInfo, layout: DiskLayout) -> Option<Served> {
    match chosen_part(layout) {
        Some((start_lba, sector_count)) => Some(
            Served {
                link,
                start_lba,
                sector_count,
                buffer_attribute: info.buffer_attribute,
            },
        ),
        None => None,
    }
}

/// What the server does with the layout of the disk.
pub open spec fn with_layout(
    link: Link,
    info: BlockInfo,
    buffer: AllocatedBuffer,
    va: u64,
    layout: Option<DiskLayout>,
) -> (PartitionStage, Said<PartitionAction, Served>) {
    let unmap = kernel(Request::UnmapPages { pageset: buffer.pageset.0, va });
    match layout {
        None => partition_exit("partmgr: parse_disk failed, halting\n"@),
        Some(l) => match served_of(link, info, l) {
            None => partition_exit("partmgr: MBR has no FAT32 partition, halting\n"@),
            Some(served) => (
                PartitionStage::Unmapping(served, buffer, va),
                say_do(
                    if l is BareFat {
                        "partmgr: bare FAT32 disk\n"@
                    } else {
                        "partmgr: MBR FAT32 partition found\n"@
                    },
                    unmap,
                ),
            ),
        },
    }
}

/// What the server does once an event has come.
pub open spec fn partition_next(
    config: PartitionConfig,
    stage: PartitionStage,
    event: PartitionEvent,
) -> (PartitionStage, Said<PartitionAction, Served>) {
    match (stage, event) {
        (PartitionStage::Begin, _) => (
            PartitionStage::ReplyPage,
            say_do("partmgr: starting\n"@, kernel(Request::AllocPages { count: 1 })),
        ),
        (PartitionStage::ReplyPage, PartitionEvent::Kernel(Ok(pageset))) => (
            PartitionStage::ReplyMaking,
            say_do(""@, kernel(Request::CreateReply { pageset })),
        ),
        (PartitionStage::ReplyPage, _) => partition_exit("partmgr: create reply FAILED\n"@),
        (PartitionStage::ReplyMaking, PartitionEvent::Kernel(Ok(reply))) => (
            PartitionStage::Bootstrapping { reply },
            say_do(
                ""@,
                kernel(
                    Request::Call {
                        endpoint: config.bootstrap_ep,
                        reply,
                        message: Words(0, 0, 0, 0),
                    },
                ),
            ),
        ),
        (PartitionStage::ReplyMaking, _) => partition_exit("partmgr: create reply FAILED\n"@),
        (PartitionStage::Bootstrapping { reply }, PartitionEvent::Answer(Ok(w))) => {
            let upstream = BlockClient {
                endpoint: EndpointHandle(w.1),
                reply: ReplyHandle(reply),
                codes: config.codes,
            };
            (
                PartitionStage::Asking(Link { server_ep: EndpointHandle(w.0), upstream }),
                say_do(
                    "partmgr: bootstrapped\n"@,
                    kernel(upstream.command(Words(config.codes.get_info, 0, 0, 0))),
                ),
            )
        },
        (PartitionStage::Bootstrapping { .. }, _) => partition_exit(
            "partmgr: bootstrap FAILED\n"@,
        ),
        (PartitionStage::Asking(link), PartitionEvent::Info(message, attribute)) => match info_of(
            message,
            attribute,
        ) {
            Err(_) => partition_exit("partmgr: get_info FAILED\n"@),
            Ok(info) => if info.sector_size != SECTOR_SIZE {
                partition_exit("partmgr: upstream sector_size != 512, halting\n"@)
            } else {
                (
                    PartitionStage::Allocating(link, info),
                    say_do(
                        ""@,
                        kernel(
                            link.upstream.command(
                                Words(link.upstream.codes.alloc_buffer, 1, 0, 0),
                            ),
                        ),
                    ),
                )
            },
        },
        (PartitionStage::Asking(_), _) => partition_exit(""@),
        (PartitionStage::Allocating(link, info), PartitionEvent::Answer(message)) =>
            match buffer_of(link.upstream.codes, message) {
                Ok(buffer) => (
                    PartitionStage::Addressing(link, info, buffer),
                    say_do(""@, PartitionAction::AllocVa { pages: 1 }),
                ),
                Err(_) => partition_exit("partmgr: alloc bootstrap buffer FAILED\n"@),
            },
        (PartitionStage::Allocating(_, _), _) => partition_exit(""@),
        (PartitionStage::Addressing(link, info, buffer), PartitionEvent::Va(Some(va))) => (
            PartitionStage::Mapping(link, info, buffer, va),
            say_do(
                ""@,
                kernel(
                    Request::MapPages {
                        pageset: buffer.pageset.0,
                        va,
                        attribute: info.buffer_attribute,
                    },
                ),
            ),
        ),
        (PartitionStage::Addressing(_, _, _), _) => partition_exit("partmgr: VMEM alloc FAILED\n"@),
        (PartitionStage::Mapping(link, info, buffer, va), PartitionEvent::Kernel(Ok(_))) => (
            PartitionStage::Reading(link, info, buffer, va),
            say_do(
                ""@,
                kernel(
                    link.upstream.command(
                        Words(link.upstream.codes.read, 0, 1, buffer.buffer_id as u64),
                    ),
                ),
            ),
        ),
        (PartitionStage::Mapping(_, _, _, _), _) => partition_exit("partmgr: map bpb FAILED\n"@),
        (PartitionStage::Reading(link, info, buffer, va), PartitionEvent::Answer(message)) =>
            match outcome_of(link.upstream.codes, message) {
                Ok(_) => (
                    PartitionStage::Parsing(link, info, buffer, va),
                    say_do(
                        ""@,
                        PartitionAction::ReadLayout {
                            va,
                            capacity_sectors: info.capacity_sectors,
                        },
                    ),
                ),
                Err(_) => partition_exit("partmgr: read LBA 0 FAILED\n"@),
            },
        (PartitionStage::Reading(_, _, _, _), _) => partition_exit(""@),
        (PartitionStage::Parsing(link, info, buffer, va), PartitionEvent::Layout(layout)) =>
            with_layout(link, info, buffer, va, layout),
        (PartitionStage::Parsing(_, _, _, _), _) => partition_exit(""@),
        (PartitionStage::Unmapping(served, buffer, va), PartitionEvent::Kernel(Ok(_))) => (
            PartitionStage::FreeingAddress(served, buffer),
            say_do(""@, PartitionAction::FreeVa { va, pages: 1 }),
        ),
        (PartitionStage::Unmapping(served, buffer, _), _) => free_upstream(served, buffer),
        (PartitionStage::FreeingAddress(served, buffer), _) => free_upstream(served, buffer),
        (PartitionStage::FreeingUpstream(served, buffer), _) => (
            PartitionStage::Closing(served),
            say_do(""@, kernel(ended(served, buffer).1)),
        ),
        (PartitionStage::Closing(served), _) => (
            PartitionStage::Over,
            say_serve("partmgr: serving\n"@, served),
        ),
        (PartitionStage::Over, _) => partition_exit(""@),
    }
}

/// The partition server's start.
pub struct PartitionStart {
    pub config: PartitionConfig,
    pub stage: PartitionStage,
}

impl PartitionStart {
    pub fn new(config: PartitionConfig) -> (r: Self)
        ensures
            r.config == config,
            r.stage == PartitionStage::Begin,
    {
        PartitionStart { config, stage: PartitionStage::Begin }
    }

    fn give_up(&mut self, say: &str) -> (r: StartStep<PartitionAction, Served>)
        ensures
            final(self).config == old(self).config,
            (final(self).stage, r@) == partition_exit(say@),
    {
        self.stage = PartitionStage::Over;
        exit(say)
    }

    fn wait(&mut self, stage: PartitionStage, say: &str, action: PartitionAction) -> (r: StartStep<
        PartitionAction,
        Served,
    >)
        ensures
            final(self).config == old(self).config,
            final(self).stage == stage,
            r@ == say_do::<PartitionAction, Served>(say@, action),
    {
        self.stage = stage;
        go(say, action)
    }

    fn ask(&mut self, stage: PartitionStage, request: Request) -> (r: StartStep<
        PartitionAction,
        Served,
    >)
        ensures
            final(self).config == old(self).config,
            final(self).stage == stage,
            r@ == say_do::<PartitionAction, Served>(""@, kernel(request)),
    {
        self.wait(stage, "", PartitionAction::Kernel(request))
    }

    fn free(&mut self, served: Served, buffer: AllocatedBuffer) -> (r: StartStep<
        PartitionAction,
        Served,
    >)
        ensures
            final(self).config == old(self).config,
            (final(self).stage, r@) == free_upstream(served, buffer),
    {
        let request = served.link.upstream.free_buffer(buffer.buffer_id);
        self.ask(PartitionStage::FreeingUpstream(served, buffer), request)
    }

    fn layout(
        &mut self,
        link: Link,
        info: BlockInfo,
        buffer: AllocatedBuffer,
        va: u64,
        layout: Option<DiskLayout>,
    ) -> (r: StartStep<PartitionAction, Served>)
        ensures
            final(self).config == old(self).config,
            (final(self).stage, r@) == with_layout(link, info, buffer, va, layout),
    {
        match layout {
            None => self.give_up("partmgr: parse_disk failed, halting\n"),
            Some(l) => match choose_partition(&l) {
                None => self.give_up("partmgr: MBR has no FAT32 partition, halting\n"),
                Some((start_lba, sector_count)) => {
                    let served = Served {
                        link,
                        start_lba,
                        sector_count,
                        buffer_attribute: info.buffer_attribute,
                    };
                    let say = match l {
                        DiskLayout::BareFat { .. } => "partmgr: bare FAT32 disk\n",
                        DiskLayout::Mbr { .. } => "partmgr: MBR FAT32 partition found\n",
                    };
                    self.wait(
                        PartitionStage::Unmapping(served, buffer, va),
                        say,
                        PartitionAction::Kernel(
                            Request::UnmapPages { pageset: buffer.pageset.0, va },
                        ),
                    )
                },
            },
        }
    }

    /// What the server does once an event has come.
    pub fn step(&mut self, event: PartitionEvent) -> (r: StartStep<PartitionAction, Served>)
        requires
            awaits(old(self).stage, event),
        ensures
            final(self).config == old(self).config,
            (final(self).stage, r@) == partition_next(old(self).config, old(self).stage, event),
    {
        match (self.stage, event) {
            (PartitionStage::Begin, _) => self.wait(
                PartitionStage::ReplyPage,
                "partmgr: starting\n",
                PartitionAction::Kernel(Request::AllocPages { count: 1 }),
            ),
            (PartitionStage::ReplyPage, PartitionEvent::Kernel(Ok(pageset))) => self.ask(
                PartitionStage::ReplyMaking,
                Request::CreateReply { pageset },
            ),
            (PartitionStage::ReplyPage, _) => self.give_up("partmgr: create reply FAILED\n"),
            (PartitionStage::ReplyMaking, PartitionEvent::Kernel(Ok(reply))) => {
                let call = Request::Call {
                    endpoint: self.config.bootstrap_ep,
                    reply,
                    message: Words(0, 0, 0, 0),
                };
                self.ask(PartitionStage::Bootstrapping { reply }, call)
            },
            (PartitionStage::ReplyMaking, _) => self.give_up("partmgr: create reply FAILED\n"),
            (PartitionStage::Bootstrapping { reply }, PartitionEvent::Answer(Ok(w))) => {
                let upstream = BlockClient::new(
                    EndpointHandle(w.1),
                    ReplyHandle(reply),
                    self.config.codes,
                );
                self.wait(
                    PartitionStage::Asking(Link { server_ep: EndpointHandle(w.0), upstream }),
                    "partmgr: bootstrapped\n",
                    PartitionAction::Kernel(upstream.get_info()),
                )
            },
            (PartitionStage::Bootstrapping { .. }, _) => self.give_up(
                "partmgr: bootstrap FAILED\n",
            ),
            (PartitionStage::Asking(link), PartitionEvent::Info(message, attribute)) =>
                match link.upstream.info_answer(message, attribute) {
                    Err(_) => self.give_up("partmgr: get_info FAILED\n"),
                    Ok(info) => {
                        if info.sector_size != SECTOR_SIZE {
                            self.give_up("partmgr: upstream sector_size != 512, halting\n")
                        } else {
                            self.ask(
                                PartitionStage::Allocating(link, info),
                                link.upstream.alloc_buffer(1),
                            )
                        }
                    },
                },
            (PartitionStage::Asking(_), _) => self.give_up(""),
            (PartitionStage::Allocating(link, info), PartitionEvent::Answer(message)) =>
                match link.upstream.buffer_answer(message) {
                    Ok(buffer) => self.wait(
                        PartitionStage::Addressing(link, info, buffer),
                        "",
                        PartitionAction::AllocVa { pages: 1 },
                    ),
                    Err(_) => self.give_up("partmgr: alloc bootstrap buffer FAILED\n"),
                },
            (PartitionStage::Allocating(_, _), _) => self.give_up(""),
            (PartitionStage::Addressing(link, info, buffer), PartitionEvent::Va(Some(va))) =>
                self.ask(
                    PartitionStage::Mapping(link, info, buffer, va),
                    Request::MapPages {
                        pageset: buffer.pageset.0,
                        va,
                        attribute: info.buffer_attribute,
                    },
                ),
            (PartitionStage::Addressing(_, _, _), _) => self.give_up(
                "partmgr: VMEM alloc FAILED\n",
            ),
            (PartitionStage::Mapping(link, info, buffer, va), PartitionEvent::Kernel(Ok(_))) =>
                self.ask(
                    PartitionStage::Reading(link, info, buffer, va),
                    link.upstream.read(0, 1, buffer.buffer_id),
                ),
            (PartitionStage::Mapping(_, _, _, _), _) => self.give_up("partmgr: map bpb FAILED\n"),
            (PartitionStage::Reading(link, info, buffer, va), PartitionEvent::Answer(message)) =>
                match link.upstream.status_answer(message) {
                    Ok(_) => self.wait(
                        PartitionStage::Parsing(link, info, buffer, va),
                        "",
                        PartitionAction::ReadLayout {
                            va,
                            capacity_sectors: info.capacity_sectors,
                        },
                    ),
                    Err(_) => self.give_up("partmgr: read LBA 0 FAILED\n"),
                },
            (PartitionStage::Reading(_, _, _, _), _) => self.give_up(""),
            (PartitionStage::Parsing(link, info, buffer, va), PartitionEvent::Layout(layout)) =>
                self.layout(link, info, buffer, va, layout),
            (PartitionStage::Parsing(_, _, _, _), _) => self.give_up(""),
            (PartitionStage::Unmapping(served, buffer, va), PartitionEvent::Kernel(Ok(_))) =>
                self.wait(
                    PartitionStage::FreeingAddress(served, buffer),
                    "",
                    PartitionAction::FreeVa { va, pages: 1 },
                ),
            (PartitionStage::Unmapping(served, buffer, _), _) => self.free(served, buffer),
            (PartitionStage::FreeingAddress(served, buffer), _) => self.free(served, buffer),
            (PartitionStage::FreeingUpstream(served, buffer), _) => self.ask(
                PartitionStage::Closing(served),
                Request::CloseHandle { handle: buffer.pageset.0 },
            ),
            (PartitionStage::Closing(served), _) => {
                self.stage = PartitionStage::Over;
                serve("partmgr: serving\n", served)
            },
            (PartitionStage::Over, _) => self.give_up(""),
        }
    }
}

// ---------------------------------------------------------------------------
// Laws
// ---------------------------------------------------------------------------

/// What is served, where that is known.
pub open spec fn settled(stage: PartitionStage) -> Option<Served> {
    match stage {
        PartitionStage::Unmapping(s, _, _) => Some(s),
        PartitionStage::FreeingAddress(s, _) => Some(s),
        PartitionStage::FreeingUpstream(s, _) => Some(s),
        PartitionStage::Closing(s) => Some(s),
        _ => None,
    }
}

/// What is served is what the layout of the disk says, and it does not change any more while
/// the buffer is taken down. The server serves it only once the buffer's page set was asked
/// to be closed.
pub proof fn lemma_serves_chosen(
    config: PartitionConfig,
    stage: PartitionStage,
    event: PartitionEvent,
)
    ensures
        ({
            let (after, said) = partition_next(config, stage, event);
            &&& settled(after) is Some ==> settled(after) == settled(stage) || (stage matches
                PartitionStage::Parsing(link, info, _, _) && event matches PartitionEvent::Layout(
                Some(layout),
            ) && settled(after) == served_of(link, info, layout))
            &&& said.next matches Next::Serve(served) ==> stage == PartitionStage::Closing(served)
        }),
{
}

/// The address of the buffer is free again only where the kernel unmapped it.
pub proof fn lemma_freed_if_unmapped(
    config: PartitionConfig,
    stage: PartitionStage,
    event: PartitionEvent,
)
    ensures
        partition_next(config, stage, event).1.next matches Next::Do(
            PartitionAction::FreeVa { va, pages },
        ) ==> pages == 1 && event is Kernel && event->Kernel_0 is Ok && stage is Unmapping
            && stage->Unmapping_2 == va,
{
}

/// How the server finds out what it serves: it asks the server behind what the disk is, has it
/// make a buffer of one sector, maps that with the attribute that the answer named, and has the
/// first sector read into it.
pub proof fn lemma_reads_first_sector(
    config: PartitionConfig,
    page: u64,
    reply: u64,
    w: Words,
    info: Words,
    attribute: MapAttribute,
    answer: Message,
    buffer: AllocatedBuffer,
    va: u64,
    x: u64,
    outcome: Message,
)
    requires
        info.1 == 512,
        buffer_of(config.codes, answer) == Ok::<AllocatedBuffer, crate::block::BlockError>(buffer),
        outcome_of(config.codes, outcome) is Ok,
    ensures
        ({
            let (s1, _) = partition_next(config, PartitionStage::Begin, PartitionEvent::Started);
            let (s2, d2) = partition_next(config, s1, PartitionEvent::Kernel(Ok(page)));
            let (s3, d3) = partition_next(config, s2, PartitionEvent::Kernel(Ok(reply)));
            let (s4, d4) = partition_next(config, s3, PartitionEvent::Answer(Ok(w)));
            let (s5, d5) = partition_next(
                config,
                s4,
                PartitionEvent::Info(Ok(info), Some(attribute)),
            );
            let (s6, d6) = partition_next(config, s5, PartitionEvent::Answer(answer));
            let (s7, d7) = partition_next(config, s6, PartitionEvent::Va(Some(va)));
            let (s8, d8) = partition_next(config, s7, PartitionEvent::Kernel(Ok(x)));
            let (s9, d9) = partition_next(config, s8, PartitionEvent::Answer(outcome));
            let asked = |m: Words|
                Next::<PartitionAction, Served>::Do(
                    PartitionAction::Kernel(Request::Call { endpoint: w.1, reply, message: m }),
                );
            &&& d2.next == Next::<PartitionAction, Served>::Do(
                PartitionAction::Kernel(Request::CreateReply { pageset: page }),
            )
            &&& d3.next == Next::<PartitionAction, Served>::Do(
                PartitionAction::Kernel(
                    Request::Call {
                        endpoint: config.bootstrap_ep,
                        reply,
                        message: Words(0, 0, 0, 0),
                    },
                ),
            )
            &&& d4.next == asked(Words(config.codes.get_info, 0, 0, 0))
            &&& d5.next == asked(Words(config.codes.alloc_buffer, 1, 0, 0))
            &&& d6.next == Next::<PartitionAction, Served>::Do(
                PartitionAction::AllocVa { pages: 1 },
            )
            &&& d7.next == Next::<PartitionAction, Served>::Do(
                PartitionAction::Kernel(
                    Request::MapPages { pageset: buffer.pageset.0, va, attribute },
                ),
            )
            &&& d8.next == asked(Words(config.codes.read, 0, 1, buffer.buffer_id as u64))
            &&& d9.next == Next::<PartitionAction, Served>::Do(
                PartitionAction::ReadLayout { va, capacity_sectors: info.0 },
            )
            &&& s9 matches PartitionStage::Parsing(link, _, b, at)
            &&& link.server_ep.0 == w.0
            &&& b == buffer
            &&& at == va
        }),
{
}

/// How the buffer is taken down before the server serves: unmapped, its address freed, freed at
/// the server behind, and closed; and what is then served is the part that the layout names.
pub proof fn lemma_taken_down(
    config: PartitionConfig,
    link: Link,
    info: BlockInfo,
    buffer: AllocatedBuffer,
    va: u64,
    layout: DiskLayout,
    part: (u64, u64),
    x: u64,
    y: u64,
    answer: Message,
)
    requires
        chosen_part(layout) == Some(part),
    ensures
        ({
            let (s1, d1) = partition_next(
                config,
                PartitionStage::Parsing(link, info, buffer, va),
                PartitionEvent::Layout(Some(layout)),
            );
            let (s2, d2) = partition_next(config, s1, PartitionEvent::Kernel(Ok(x)));
            let (s3, d3) = partition_next(config, s2, PartitionEvent::Done);
            let (s4, d4) = partition_next(config, s3, PartitionEvent::Answer(answer));
            let (_, d5) = partition_next(config, s4, PartitionEvent::Kernel(Ok(y)));
            &&& d1.next == Next::<PartitionAction, Served>::Do(
                PartitionAction::Kernel(Request::UnmapPages { pageset: buffer.pageset.0, va }),
            )
            &&& d2.next == Next::<PartitionAction, Served>::Do(
                PartitionAction::FreeVa { va, pages: 1 },
            )
            &&& d3.next == Next::<PartitionAction, Served>::Do(
                PartitionAction::Kernel(
                    Request::Call {
                        endpoint: link.upstream.endpoint.0,
                        reply: link.upstream.reply.0,
                        message: Words(
                            link.upstream.codes.free_buffer,
                            buffer.buffer_id as u64,
                            0,
                            0,
                        ),
                    },
                ),
            )
            &&& d4.next == Next::<PartitionAction, Served>::Do(
                PartitionAction::Kernel(Request::CloseHandle { handle: buffer.pageset.0 }),
            )
            &&& d5.next matches Next::Serve(served)
            &&& served.start_lba == part.0
            &&& served.sector_count == part.1
            &&& served.link == link
            &&& served.buffer_attribute == info.buffer_attribute
        }),
{
}

/// A disk with sectors of another size, one whose first sector makes no sense, and one without a
/// file system end the server, each with its line.
pub proof fn lemma_partition_ends(
    config: PartitionConfig,
    link: Link,
    info: BlockInfo,
    w: Words,
    attribute: MapAttribute,
    buffer: AllocatedBuffer,
    va: u64,
    layout: DiskLayout,
)
    ensures
        w.1 != 512 ==> partition_next(
            config,
            PartitionStage::Asking(link),
            PartitionEvent::Info(Ok(w), Some(attribute)),
        ).1 == say_exit::<PartitionAction, Served>(
            "partmgr: upstream sector_size != 512, halting\n"@,
        ),
        partition_next(
            config,
            PartitionStage::Parsing(link, info, buffer, va),
            PartitionEvent::Layout(None),
        ).1 == say_exit::<PartitionAction, Served>("partmgr: parse_disk failed, halting\n"@),
        chosen_part(layout) is None ==> partition_next(
            config,
            PartitionStage::Parsing(link, info, buffer, va),
            PartitionEvent::Layout(Some(layout)),
        ).1 == say_exit::<PartitionAction, Served>(
            "partmgr: MBR has no FAT32 partition, halting\n"@,
        ),
        partition_next(config, PartitionStage::Addressing(link, info, buffer), PartitionEvent::Va(None)).1
            == say_exit::<PartitionAction, Served>("partmgr: VMEM alloc FAILED\n"@),
{
}

} // verus!
