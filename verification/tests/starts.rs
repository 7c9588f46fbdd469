use lockjaw::blk_start::{
    sector_line, BlkAction, BlkConfig, BlkEvent, BlkStage, BlkStart, QueuePlace,
};
use lockjaw::block::{BlockCodes, BlockError};
use lockjaw::canary_start::{CanaryAction, CanaryConfig, CanaryEvent, CanaryStart};
use lockjaw::devmgr::{ClaimError, ClaimedDevice};
use lockjaw::dma::Mapping;
use lockjaw::driver_init::{
    driver_main, starting, virtio_driver_main, InitAction, InitEvent, StandardInit,
    VirtioDriverInitError, VirtioInit, VirtioWanted,
};
use lockjaw::driver_runtime::{
    BootstrapError, BoundIrq, DriverBootstrap, DriverCtx, DriverInitError, IrqBindError, MmioProbe,
    ProbeError,
};
use lockjaw::handle::{EndpointHandle, NotificationHandle, PageSetHandle, ReplyHandle};
use lockjaw::partition::{DiskLayout, Partition};
use lockjaw::partition_start::{
    PartitionAction, PartitionConfig, PartitionEvent, PartitionStart, Served,
};
use lockjaw::ramfb::Scanout;
use lockjaw::ramfb_start::{RamfbAction, RamfbEvent, RamfbReady, RamfbStart};
use lockjaw::sleep_test::{elapsed_ticks, within_tolerance, SleepAction, SleepEvent, SleepTest};
use lockjaw::startup::{Next, StartStep};
use lockjaw::syscall::{MapAttribute, Request, SyscallError, Words};
use lockjaw::time::MonoTicks;
use lockjaw::virtio::{QueueWrites, StatusWrite};
use lockjaw::virtqueue::QueueLayout;

const E: SyscallError = SyscallError::Kernel(9);
const NO_WORDS: Words = Words(0, 0, 0, 0);

fn acts<A: PartialEq + std::fmt::Debug, R>(s: StartStep<A, R>, say: &str, action: A) {
    assert_eq!(s.say, say);
    match s.next {
        Next::Do(a) => assert_eq!(a, action),
        _ => panic!("{action:?} expected"),
    }
}

fn serves<A, R>(s: StartStep<A, R>, say: &str) -> R {
    assert_eq!(s.say, say);
    match s.next {
        Next::Serve(r) => r,
        _ => panic!("a server expected"),
    }
}

fn exits<A, R>(s: StartStep<A, R>, say: &str) {
    assert_eq!(s.say, say);
    assert!(matches!(s.next, Next::Exit));
}

// --- the canary ---

fn canary_at_child() -> CanaryStart {
    let mut c = CanaryStart::new(CanaryConfig { bootstrap_ep: 1, child_entry: 0x4000 });
    let page = CanaryAction::Kernel(Request::AllocPages { count: 1 });
    acts(c.step(CanaryEvent::Started), "neon-canary: starting\n", page);
    acts(c.step(CanaryEvent::Kernel(Ok(10))), "", CanaryAction::Kernel(Request::CreateReply { pageset: 10 }));
    acts(
        c.step(CanaryEvent::Kernel(Ok(11))),
        "neon-canary: bootstrapping...\n",
        CanaryAction::Kernel(Request::Call { endpoint: 1, reply: 11, message: NO_WORDS }),
    );
    acts(
        c.step(CanaryEvent::Answer(Ok(NO_WORDS))),
        "neon-canary: bootstrapped\n",
        CanaryAction::AllocVa { pages: 1 },
    );
    acts(c.step(CanaryEvent::Va(Some(0x1000))), "", page);
    let map = |pageset, va| {
        CanaryAction::Kernel(Request::MapPages { pageset, va, attribute: MapAttribute::Normal })
    };
    acts(c.step(CanaryEvent::Kernel(Ok(20))), "", map(20, 0x1000));
    acts(c.step(CanaryEvent::Kernel(Ok(0))), "", CanaryAction::AllocVa { pages: 1 });
    acts(c.step(CanaryEvent::Va(Some(0x2000))), "", page);
    acts(c.step(CanaryEvent::Kernel(Ok(21))), "", map(21, 0x2000));
    acts(c.step(CanaryEvent::Kernel(Ok(0))), "", page);
    acts(c.step(CanaryEvent::Kernel(Ok(22))), "", page);
    c
}

#[test]
fn the_canary_spawns_its_child_on_a_mapped_stack() {
    let mut c = canary_at_child();
    acts(
        c.step(CanaryEvent::Kernel(Ok(23))),
        "",
        CanaryAction::Spawn {
            entry: 0x4000,
            stack_top: 0x3000,
            stack_base: 0x2000,
            arg: 1,
            kernel_stack: 22,
            thread_block: 23,
        },
    );
    assert_eq!(serves(c.step(CanaryEvent::Kernel(Ok(0))), ""), 0x1000);
}

#[test]
fn the_canary_gives_up_when_a_step_fails() {
    let mut c = canary_at_child();
    exits(c.step(CanaryEvent::Kernel(Err(E))), "neon-canary: tcb alloc FAILED\n");
    let mut c = CanaryStart::new(CanaryConfig { bootstrap_ep: 1, child_entry: 0 });
    c.step(CanaryEvent::Started);
    exits(c.step(CanaryEvent::Kernel(Err(E))), "neon-canary: create reply FAILED\n");
}

// --- the sleep test ---

fn sleep_at_clock() -> SleepTest {
    let mut t = SleepTest::new(1);
    acts(
        t.step(SleepEvent::Started),
        "sleep-test: starting\n",
        SleepAction::Kernel(Request::AllocPages { count: 1 }),
    );
    acts(t.step(SleepEvent::Kernel(Ok(5))), "", SleepAction::Kernel(Request::CreateReply { pageset: 5 }));
    acts(
        t.step(SleepEvent::Kernel(Ok(6))),
        "sleep-test: bootstrapping...\n",
        SleepAction::Kernel(Request::Call { endpoint: 1, reply: 6, message: NO_WORDS }),
    );
    acts(
        t.step(SleepEvent::Answer(Ok(NO_WORDS))),
        "sleep-test: bootstrapped\n",
        SleepAction::ReadFrequency,
    );
    acts(
        t.step(SleepEvent::Frequency(62_500_000)),
        "[SLEEP-TEST] cntfreq_hz=62500000\n",
        SleepAction::ReadClock,
    );
    acts(t.step(SleepEvent::Clock(MonoTicks(100))), "", SleepAction::SleepFor { nanos: 50_000_000 });
    t
}

#[test]
fn a_sleep_is_measured_and_judged() {
    let mut t = sleep_at_clock();
    acts(t.step(SleepEvent::Kernel(Ok(0))), "", SleepAction::ReadClock);
    acts(
        t.step(SleepEvent::Clock(MonoTicks(4_000_100))),
        "",
        SleepAction::ToNanos { ticks: 4_000_000, hz: 62_500_000 },
    );
    exits(
        t.step(SleepEvent::Nanos(64_000_000)),
        "[SLEEP-TEST] requested_ns=50000000 elapsed_ns=64000000\n\
         [SLEEP-TEST] elapsed within tolerance\n",
    );
}

#[test]
fn a_sleep_that_fails_is_reported() {
    let mut t = sleep_at_clock();
    exits(t.step(SleepEvent::Kernel(Err(E))), "[SLEEP-TEST] sleep_for FAILED\n");
    let mut t = sleep_at_clock();
    t.step(SleepEvent::Kernel(Ok(0)));
    acts(
        t.step(SleepEvent::Clock(MonoTicks(50))),
        "",
        SleepAction::ToNanos { ticks: 0, hz: 62_500_000 },
    );
    exits(
        t.step(SleepEvent::Nanos(0)),
        "[SLEEP-TEST] requested_ns=50000000 elapsed_ns=0\n\
         [SLEEP-TEST] elapsed OUT OF TOLERANCE\n",
    );
}

#[test]
fn the_tolerance_has_two_ends() {
    assert_eq!(elapsed_ticks(MonoTicks(10), MonoTicks(25)), 15);
    assert_eq!(elapsed_ticks(MonoTicks(25), MonoTicks(10)), 0);
    assert!(!within_tolerance(49_999_999));
    assert!(within_tolerance(50_000_000));
    assert!(within_tolerance(200_000_000));
    assert!(!within_tolerance(200_000_001));
}

// --- the partition server ---

fn codes() -> BlockCodes {
    BlockCodes {
        get_info: 1,
        alloc_buffer: 2,
        read: 3,
        write: 4,
        free_buffer: 5,
        ok: 0,
        err_io: 101,
        err_unsupported: 102,
        err_invalid: 103,
        err_alloc: 104,
    }
}

fn upstream(words: Words) -> PartitionAction {
    PartitionAction::Kernel(Request::Call { endpoint: 8, reply: 11, message: words })
}

fn partition_at_info() -> PartitionStart {
    let mut p = PartitionStart::new(PartitionConfig { bootstrap_ep: 1, codes: codes() });
    acts(
        p.step(PartitionEvent::Started),
        "partmgr: starting\n",
        PartitionAction::Kernel(Request::AllocPages { count: 1 }),
    );
    acts(
        p.step(PartitionEvent::Kernel(Ok(10))),
        "",
        PartitionAction::Kernel(Request::CreateReply { pageset: 10 }),
    );
    acts(
        p.step(PartitionEvent::Kernel(Ok(11))),
        "",
        PartitionAction::Kernel(Request::Call { endpoint: 1, reply: 11, message: NO_WORDS }),
    );
    acts(
        p.step(PartitionEvent::Answer(Ok(Words(7, 8, 0, 0)))),
        "partmgr: bootstrapped\n",
        upstream(Words(1, 0, 0, 0)),
    );
    p
}

fn partition_at_layout() -> PartitionStart {
    let mut p = partition_at_info();
    acts(
        p.step(PartitionEvent::Info(Ok(Words(1000, 512, 1, 0)), Some(MapAttribute::Device))),
        "",
        upstream(Words(2, 1, 0, 0)),
    );
    acts(
        p.step(PartitionEvent::Answer(Ok(Words(0, 30, 4, 0)))),
        "",
        PartitionAction::AllocVa { pages: 1 },
    );
    acts(
        p.step(PartitionEvent::Va(Some(0x5000))),
        "",
        PartitionAction::Kernel(Request::MapPages {
            pageset: 30,
            va: 0x5000,
            attribute: MapAttribute::Device,
        }),
    );
    acts(p.step(PartitionEvent::Kernel(Ok(0))), "", upstream(Words(3, 0, 1, 4)));
    acts(
        p.step(PartitionEvent::Answer(Ok(NO_WORDS))),
        "",
        PartitionAction::ReadLayout { va: 0x5000, capacity_sectors: 1000 },
    );
    p
}

fn take_down(p: &mut PartitionStart) -> Served {
    acts(p.step(PartitionEvent::Kernel(Ok(0))), "", PartitionAction::FreeVa { va: 0x5000, pages: 1 });
    acts(p.step(PartitionEvent::Done), "", upstream(Words(5, 4, 0, 0)));
    acts(
        p.step(PartitionEvent::Answer(Ok(NO_WORDS))),
        "",
        PartitionAction::Kernel(Request::CloseHandle { handle: 30 }),
    );
    serves(p.step(PartitionEvent::Kernel(Ok(0))), "partmgr: serving\n")
}

fn unmap() -> PartitionAction {
    PartitionAction::Kernel(Request::UnmapPages { pageset: 30, va: 0x5000 })
}

#[test]
fn a_bare_disk_is_served_whole() {
    let mut p = partition_at_layout();
    acts(
        p.step(PartitionEvent::Layout(Some(DiskLayout::BareFat { sector_count: 900 }))),
        "partmgr: bare FAT32 disk\n",
        unmap(),
    );
    let s = take_down(&mut p);
    assert_eq!((s.start_lba, s.sector_count), (0, 900));
    assert_eq!(s.buffer_attribute, MapAttribute::Device);
    assert_eq!(s.link.server_ep, EndpointHandle(7));
    assert_eq!(s.link.upstream.endpoint, EndpointHandle(8));
}

#[test]
fn the_first_matching_partition_is_served() {
    let mut p = partition_at_layout();
    let partitions = vec![
        Partition { is_fat32: false, start_lba: 1, sector_count: 2 },
        Partition { is_fat32: true, start_lba: 64, sector_count: 100 },
        Partition { is_fat32: true, start_lba: 200, sector_count: 300 },
    ];
    acts(
        p.step(PartitionEvent::Layout(Some(DiskLayout::Mbr { partitions }))),
        "partmgr: MBR FAT32 partition found\n",
        unmap(),
    );
    let s = take_down(&mut p);
    assert_eq!((s.start_lba, s.sector_count), (64, 100));
}

#[test]
fn an_address_that_stays_mapped_is_not_freed() {
    let mut p = partition_at_layout();
    p.step(PartitionEvent::Layout(Some(DiskLayout::BareFat { sector_count: 900 })));
    acts(p.step(PartitionEvent::Kernel(Err(E))), "", upstream(Words(5, 4, 0, 0)));
}

#[test]
fn the_partition_server_gives_up_when_a_step_fails() {
    let mut p = partition_at_layout();
    exits(p.step(PartitionEvent::Layout(None)), "partmgr: parse_disk failed, halting\n");
    let mut p = partition_at_layout();
    let partitions = vec![Partition { is_fat32: false, start_lba: 1, sector_count: 2 }];
    exits(
        p.step(PartitionEvent::Layout(Some(DiskLayout::Mbr { partitions }))),
        "partmgr: MBR has no FAT32 partition, halting\n",
    );
    let mut p = partition_at_info();
    exits(
        p.step(PartitionEvent::Info(Ok(Words(1000, 4096, 1, 0)), Some(MapAttribute::Normal))),
        "partmgr: upstream sector_size != 512, halting\n",
    );
    let mut p = partition_at_info();
    exits(p.step(PartitionEvent::Info(Err(E), None)), "partmgr: get_info FAILED\n");
    let mut p = partition_at_info();
    p.step(PartitionEvent::Info(Ok(Words(1000, 512, 1, 0)), Some(MapAttribute::Normal)));
    exits(
        p.step(PartitionEvent::Answer(Ok(Words(104, 0, 0, 0)))),
        "partmgr: alloc bootstrap buffer FAILED\n",
    );
}

// --- the display driver ---

fn device() -> ClaimedDevice {
    ClaimedDevice {
        regs_va: 0x9000,
        irq_intid: 3,
        mmio_pageset: PageSetHandle(40),
        mmio_addr: 0x902_0000,
        page_va: 0x9000,
    }
}

fn mapping(pageset: u64, va: u64, pages: u64) -> Mapping {
    Mapping { pageset: PageSetHandle(pageset), va, pa: 0x8000_0000 + va, pages }
}

fn boot(server_ep: Option<EndpointHandle>) -> DriverBootstrap {
    DriverBootstrap { devmgr_ep: EndpointHandle(2), reply_obj: ReplyHandle(3), server_ep }
}

fn ramfb_at_picture() -> RamfbStart {
    let mut r = RamfbStart::new(0xabcd);
    acts(r.ramfb_entry(RamfbEvent::Started), "ramfb: starting\n", RamfbAction::Bootstrap);
    let b = boot(Some(EndpointHandle(4)));
    acts(
        r.ramfb_entry(RamfbEvent::Booted(Ok(b))),
        "ramfb: bootstrapped\n",
        RamfbAction::Probe { boot: b, compatible_hash: 0xabcd, skip: 0 },
    );
    acts(
        r.ramfb_entry(RamfbEvent::Probed(Ok(MmioProbe { mmio_addr: 0x902_0000, intid: 3 }))),
        "",
        RamfbAction::Claim {
            devmgr_ep: EndpointHandle(2),
            reply_obj: ReplyHandle(3),
            mmio_addr: 0x902_0000,
        },
    );
    acts(
        r.ramfb_entry(RamfbEvent::Claimed(Ok(device()))),
        "ramfb: claimed fw_cfg\n",
        RamfbAction::FindFile { regs_va: 0x9000 },
    );
    acts(r.ramfb_entry(RamfbEvent::Found(Some(25))), "ramfb: found etc/ramfb\n", RamfbAction::AllocPage);
    acts(
        r.ramfb_entry(RamfbEvent::Mapped(Ok(mapping(50, 0xa000, 1)))),
        "",
        RamfbAction::AllocBacking { pages: 75 },
    );
    r
}

fn ramfb_ready() -> RamfbReady {
    RamfbReady {
        display_ep: EndpointHandle(4),
        device: device(),
        selector: 25,
        dma_page: mapping(50, 0xa000, 1),
    }
}

#[test]
fn the_display_driver_shows_its_test_picture() {
    let mut r = ramfb_at_picture();
    acts(
        r.ramfb_entry(RamfbEvent::Backed(Ok((PageSetHandle(60), 0x4000_0000)))),
        "",
        RamfbAction::MapExisting { pageset: PageSetHandle(60), pages: 75 },
    );
    let m = mapping(60, 0x10_0000, 75);
    acts(r.ramfb_entry(RamfbEvent::Mapped(Ok(m))), "", RamfbAction::Draw { va: 0x10_0000 });
    acts(r.ramfb_entry(RamfbEvent::Done), "", RamfbAction::Unmap(m));
    acts(
        r.ramfb_entry(RamfbEvent::Done),
        "",
        RamfbAction::Show {
            regs_va: 0x9000,
            dma_page: mapping(50, 0xa000, 1),
            selector: 25,
            picture: Scanout { phys_addr: 0x4000_0000, width: 320, height: 240, stride: 1280 },
        },
    );
    let ready = serves(
        r.ramfb_entry(RamfbEvent::Shown(true)),
        "ramfb: display configured\nramfb: entering display server loop\n",
    );
    assert_eq!(ready, ramfb_ready());
}

#[test]
fn the_display_driver_serves_without_a_picture() {
    let mut r = ramfb_at_picture();
    let ready = serves(
        r.ramfb_entry(RamfbEvent::Backed(Err(E))),
        "ramfb: self-test alloc FAILED\nramfb: entering display server loop\n",
    );
    assert_eq!(ready, ramfb_ready());
    let mut r = ramfb_at_picture();
    r.ramfb_entry(RamfbEvent::Backed(Ok((PageSetHandle(60), 0x4000_0000))));
    acts(
        r.ramfb_entry(RamfbEvent::Mapped(Err(E))),
        "",
        RamfbAction::Kernel(Request::CloseHandle { handle: 60 }),
    );
    serves(
        r.ramfb_entry(RamfbEvent::Done),
        "ramfb: self-test map FAILED\nramfb: entering display server loop\n",
    );
}

#[test]
fn the_display_driver_gives_up_without_a_device() {
    let mut r = RamfbStart::new(1);
    r.ramfb_entry(RamfbEvent::Started);
    exits(
        r.ramfb_entry(RamfbEvent::Booted(Ok(boot(None)))),
        "ramfb: bootstrapped\nramfb: no server endpoint\n",
    );
    let mut r = RamfbStart::new(1);
    r.ramfb_entry(RamfbEvent::Started);
    r.ramfb_entry(RamfbEvent::Booted(Ok(boot(Some(EndpointHandle(4))))));
    exits(r.ramfb_entry(RamfbEvent::Probed(Err(ProbeError::NotFound))), "ramfb: probe FAILED\n");
}

// --- the block driver ---

fn ctx() -> DriverCtx {
    DriverCtx {
        regs_va: 0x7000,
        irq_intid: 48,
        irq_notif: NotificationHandle(70),
        irq_initial_threshold: 1,
        server_ep: EndpointHandle(71),
        devmgr_ep: EndpointHandle(72),
        reply_obj: ReplyHandle(73),
        mmio_pageset: PageSetHandle(74),
    }
}

fn blk_step(b: BlkStart, event: BlkEvent, say: &str, action: BlkAction) -> BlkStart {
    let (b, s) = b.virtio_blk_main(event);
    acts(s, say, action);
    b
}

fn blk_end(b: BlkStart, event: BlkEvent, say: &str) {
    let (b, s) = b.virtio_blk_main(event);
    exits(s, say);
    assert_eq!(b.stage, BlkStage::Over);
}

fn blk_start() -> BlkStart {
    let b = BlkStart::new(BlkConfig { ctx: ctx(), wanted: 0x1_0000_0000 });
    blk_step(b, BlkEvent::Started, "", BlkAction::ReadIdentity)
}

fn blk_at_status() -> BlkStart {
    let b = blk_step(
        blk_start(),
        BlkEvent::Identity { magic: 0x7472_6976, version: 2 },
        "",
        BlkAction::Greet(StatusWrite(0), StatusWrite(1), StatusWrite(3)),
    );
    let b = blk_step(
        b,
        BlkEvent::Features(0x1_0000_0001),
        "",
        BlkAction::WriteFeatures(0x1_0000_0000),
    );
    blk_step(b, BlkEvent::Status(3), "", BlkAction::Propose(StatusWrite(11)))
}

fn blk_at_buffer() -> BlkStart {
    let b = blk_step(blk_at_status(), BlkEvent::Status(11), "", BlkAction::SelectQueue { index: 0 });
    let b = blk_step(b, BlkEvent::QueueMax(1024), "", BlkAction::LayOut { queue_size: 128 });
    let layout = QueueLayout {
        queue_size: 128,
        desc_offset: 0,
        avail_offset: 2048,
        used_offset: 4096,
        total_size: 5126,
    };
    let b = blk_step(b, BlkEvent::Layout(layout), "", BlkAction::MakeQueue { layout, pages: 2 });
    let b = blk_step(
        b,
        BlkEvent::Queue(Ok(QueuePlace { desc: 0x100, avail: 0x200, used: 0x300 })),
        "",
        BlkAction::StartDevice(
            QueueWrites { num: 128, desc: 0x100, driver: 0x200, device: 0x300, ready: 1 },
            StatusWrite(15),
        ),
    );
    let b = blk_step(
        b,
        BlkEvent::Capacity(2048),
        "blk: initialized, capacity=2048 sectors\n",
        BlkAction::AllocPage,
    );
    blk_step(
        b,
        BlkEvent::Mapped(Ok(mapping(80, 0xb000, 1))),
        "",
        BlkAction::AllocBuffer { sector_count: 1 },
    )
}

fn blk_at_read() -> BlkStart {
    let b = blk_step(
        blk_at_buffer(),
        BlkEvent::Buffer(Ok(PageSetHandle(81))),
        "",
        BlkAction::MapExisting { pageset: PageSetHandle(81), pages: 1 },
    );
    let b = blk_step(
        b,
        BlkEvent::Mapped(Ok(mapping(81, 0xc000, 1))),
        "",
        BlkAction::Kernel(Request::Zero { va: 0xc000, bytes: 4096 }),
    );
    blk_step(
        b,
        BlkEvent::Done,
        "",
        BlkAction::Read { sector: 0, count: 1, buffer: PageSetHandle(81) },
    )
}

fn blk_finish(b: BlkStart) {
    let b = blk_step(b, BlkEvent::Done, "", BlkAction::FreeBuffer(PageSetHandle(81)));
    let (_, s) = b.virtio_blk_main(BlkEvent::Done);
    let ready = serves(s, "blk: serving\n");
    assert_eq!(ready.ctx, ctx());
    assert_eq!(ready.transport.regs_va(), 0x7000);
    assert_eq!(ready.capacity, 2048);
    assert_eq!(ready.req_page, mapping(80, 0xb000, 1));
}

#[test]
fn the_block_driver_serves_after_its_test() {
    let b = blk_step(
        blk_at_read(),
        BlkEvent::Read(Ok(())),
        "",
        BlkAction::Peek { va: 0xc000, bytes: 16 },
    );
    let bytes: Vec<u8> = (0..16).map(|i| i * 17).collect();
    let b = blk_step(
        b,
        BlkEvent::Bytes(bytes),
        "blk: selftest read OK, sector 0 = [00 11 22 33 44 55 66 77 88 99 aa bb cc dd ee ff]\n",
        BlkAction::Unmap(mapping(81, 0xc000, 1)),
    );
    blk_finish(b);
}

#[test]
fn the_block_driver_serves_after_a_failed_read() {
    let b = blk_step(
        blk_at_read(),
        BlkEvent::Read(Err(BlockError::IoError)),
        "blk: selftest read FAILED\n",
        BlkAction::Unmap(mapping(81, 0xc000, 1)),
    );
    blk_finish(b);
}

#[test]
fn the_block_driver_refuses_other_devices() {
    blk_end(blk_start(), BlkEvent::Identity { magic: 0, version: 2 }, "blk: not virtio\n");
    blk_end(blk_start(), BlkEvent::Identity { magic: 0x7472_6976, version: 1 }, "blk: not virtio\n");
    let (b, _) = blk_start().virtio_blk_main(BlkEvent::Identity { magic: 0x7472_6976, version: 2 });
    blk_end(b, BlkEvent::Features(1), "blk: feature negotiation FAILED\n");
    let b = blk_step(blk_at_status(), BlkEvent::Status(3), "", BlkAction::Refuse(StatusWrite(128)));
    blk_end(b, BlkEvent::Done, "blk: FEATURES_OK rejected\n");
}

#[test]
fn the_block_driver_gives_up_without_memory() {
    let (b, _) = blk_at_status().virtio_blk_main(BlkEvent::Status(11));
    blk_end(b, BlkEvent::QueueMax(0), "blk: setup_queue FAILED\n");
    blk_end(blk_at_buffer(), BlkEvent::Buffer(Err(BlockError::AllocFailed)), "blk: PANIC\n");
    let (b, _) = blk_at_buffer().virtio_blk_main(BlkEvent::Buffer(Ok(PageSetHandle(81))));
    blk_end(b, BlkEvent::Mapped(Err(E)), "blk: selftest map FAILED\n");
}

#[test]
fn a_small_queue_is_taken_as_it_is() {
    let (b, _) = blk_at_status().virtio_blk_main(BlkEvent::Status(11));
    blk_step(b, BlkEvent::QueueMax(16), "", BlkAction::LayOut { queue_size: 16 });
}

#[test]
fn sector_bytes_are_printed_with_blanks_between() {
    assert_eq!(
        sector_line(&vec![0xeb, 0x0f, 0x90]),
        "blk: selftest read OK, sector 0 = [eb 0f 90]\n"
    );
}

// --- getting a device ---

fn probed() -> InitEvent {
    InitEvent::Probed(Ok(MmioProbe { mmio_addr: 0x902_0000, intid: 3 }))
}

fn bound() -> BoundIrq {
    BoundIrq { notif: NotificationHandle(90), initial_threshold: 1 }
}

fn bind() -> InitAction {
    InitAction::BindIrq { intid: 3, flags: 1 }
}

fn has_device(ctx: DriverCtx) {
    assert_eq!((ctx.regs_va, ctx.irq_intid), (0x9000, 3));
    assert_eq!((ctx.irq_notif, ctx.irq_initial_threshold), (NotificationHandle(90), 1));
    assert_eq!((ctx.server_ep, ctx.devmgr_ep), (EndpointHandle(4), EndpointHandle(2)));
    assert_eq!((ctx.reply_obj, ctx.mmio_pageset), (ReplyHandle(3), PageSetHandle(40)));
}

fn standard_booted() -> StandardInit {
    let mut d = StandardInit::new("uart", 0x77);
    acts(d.standard_driver_init(InitEvent::Started), "", InitAction::Bootstrap);
    let b = boot(Some(EndpointHandle(4)));
    acts(
        d.standard_driver_init(InitEvent::Booted(Ok(b))),
        "uart: bootstrapped\n",
        InitAction::Probe { boot: b, compatible_hash: 0x77, skip: 0 },
    );
    d
}

#[test]
fn a_driver_gets_its_device() {
    let mut d = standard_booted();
    let b = boot(Some(EndpointHandle(4)));
    acts(
        d.standard_driver_init(probed()),
        "",
        InitAction::Claim { boot: b, mmio_addr: 0x902_0000 },
    );
    acts(d.standard_driver_init(InitEvent::Claimed(Ok(device()))), "", bind());
    let r = serves(d.standard_driver_init(InitEvent::Bound(Ok(bound()))), "uart: IRQ bound\n");
    has_device(r.unwrap());
}

#[test]
fn a_driver_reports_its_first_error() {
    let mut d = StandardInit::new("uart", 0x77);
    d.standard_driver_init(InitEvent::Started);
    let r = serves(d.standard_driver_init(InitEvent::Booted(Err(BootstrapError::IpcFailed))), "");
    assert_eq!(r, Err(DriverInitError::Bootstrap(BootstrapError::IpcFailed)));
    let mut d = StandardInit::new("uart", 0x77);
    d.standard_driver_init(InitEvent::Started);
    let r = serves(d.standard_driver_init(InitEvent::Booted(Ok(boot(None)))), "uart: bootstrapped\n");
    assert_eq!(r, Err(DriverInitError::NoServerEndpoint));
    let mut d = standard_booted();
    let r = serves(d.standard_driver_init(InitEvent::Probed(Err(ProbeError::NotFound))), "");
    assert_eq!(r, Err(DriverInitError::Probe(ProbeError::NotFound)));
    let mut d = standard_booted();
    d.standard_driver_init(probed());
    let r = serves(d.standard_driver_init(InitEvent::Claimed(Err(ClaimError::Rejected))), "");
    assert_eq!(r, Err(DriverInitError::Claim(ClaimError::Rejected)));
    let mut d = standard_booted();
    d.standard_driver_init(probed());
    d.standard_driver_init(InitEvent::Claimed(Ok(device())));
    let r = serves(d.standard_driver_init(InitEvent::Bound(Err(IrqBindError::BindFailed))), "");
    assert_eq!(r, Err(DriverInitError::IrqBind(IrqBindError::BindFailed)));
}

fn virtio_booted() -> VirtioInit {
    let mut d = VirtioInit::new("blk", VirtioWanted { compatible_hash: 0x88, device_id: 2 });
    acts(d.virtio_driver_init(InitEvent::Started), "", InitAction::Bootstrap);
    acts(
        d.virtio_driver_init(InitEvent::Booted(Ok(boot(Some(EndpointHandle(4)))))),
        "blk: bootstrapped\n",
        probe(0),
    );
    d
}

fn probe(skip: u64) -> InitAction {
    InitAction::Probe { boot: boot(Some(EndpointHandle(4))), compatible_hash: 0x88, skip }
}

#[test]
fn other_devices_are_given_back() {
    let mut d = virtio_booted();
    let b = boot(Some(EndpointHandle(4)));
    let release = InitAction::Release { boot: b, device: device() };
    let identity = InitAction::ReadIdentity { regs_va: 0x9000 };
    for (skip, magic, device_id) in [(1, 0, 2), (2, 0x7472_6976, 1)] {
        acts(
            d.virtio_driver_init(probed()),
            "",
            InitAction::Claim { boot: b, mmio_addr: 0x902_0000 },
        );
        acts(d.virtio_driver_init(InitEvent::Claimed(Ok(device()))), "", identity);
        acts(d.virtio_driver_init(InitEvent::Identity { magic, device_id }), "", release);
        acts(d.virtio_driver_init(InitEvent::Released), "", probe(skip));
    }
    d.virtio_driver_init(probed());
    d.virtio_driver_init(InitEvent::Claimed(Ok(device())));
    acts(
        d.virtio_driver_init(InitEvent::Identity { magic: 0x7472_6976, device_id: 2 }),
        "",
        bind(),
    );
    let r = serves(d.virtio_driver_init(InitEvent::Bound(Ok(bound()))), "blk: IRQ bound\n");
    has_device(r.unwrap());
}

#[test]
fn a_search_ends_with_the_slots() {
    let mut d = virtio_booted();
    let r = serves(d.virtio_driver_init(InitEvent::Probed(Err(ProbeError::NotFound))), "");
    assert_eq!(r, Err(VirtioDriverInitError::NoMatchingDeviceId(2)));
    let mut d = virtio_booted();
    let r = serves(d.virtio_driver_init(InitEvent::Probed(Err(ProbeError::IpcFailed))), "");
    assert_eq!(r, Err(VirtioDriverInitError::Probe(ProbeError::IpcFailed)));
}

#[test]
fn a_driver_without_its_device_says_so_and_ends() {
    assert_eq!(starting("uart"), "uart: starting\n");
    let r = driver_main("uart", Err(DriverInitError::NoServerEndpoint));
    assert_eq!(r.say, "uart: init failed\n");
    assert!(matches!(r.next, Next::Exit));
    let r = virtio_driver_main("blk", Err(VirtioDriverInitError::NoMatchingDeviceId(2)));
    assert_eq!(r.say, "blk: init failed\n");
    assert!(matches!(r.next, Next::Exit));
    let r = driver_main("uart", Ok(ctx()));
    assert_eq!(r.say, "");
    match r.next {
        Next::Serve(c) => assert_eq!(c, ctx()),
        other => panic!("{other:?}"),
    }
    let r = virtio_driver_main("blk", Ok(ctx()));
    assert_eq!(r.say, "");
    assert!(matches!(r.next, Next::Serve(_)));
}
