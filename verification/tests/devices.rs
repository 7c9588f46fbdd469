use lockjaw::block::BlockError;
use lockjaw::dma::{
    alloc_dma_backing_dma_pool, BuddyOrigin, DmaBacking, DmaPoolOrigin, OwnedDmaMapping,
};
use lockjaw::dma_transfer::{DmaDir, DmaRegion};
use lockjaw::handle::{NotificationHandle, PageSetHandle};
use lockjaw::irq::IrqWaitError;
use lockjaw::sdhci::{
    configure_clock, enable_irq_signaling, init_adma2_32, set_bus_width_4bit,
    set_int_enable_masks, set_power_on, set_power_on_and_settle, set_timeout_dat_counter, soft_reset_all, BusWidth, CardCommand, ClockAction, ClockStage,
    CommandAction, CommandEvent, DataAction, DataDirection, DataEvent, IntStatus, MmcCard,
    MmcCardError, OcrRegister, PowerUp, Present, Response, ResponseShape, SdCommand, SdhciCommandError,
    SdhciCommandInit, SdhciDataCompletion, SdhciDataCompletionError, SdhciDataTransfer,
    SdhciDataTransferError, SdhciInitError, SdhciWrite, Select, TransferDo, TransferSaw,
};
use lockjaw::syscall::{Request, Step, SyscallError};
use lockjaw::virtio::{
    queue_limit, StatusWrite, VirtioInitError, VirtioTransportInit, VIRTIO_MMIO_MAGIC_VALUE,
};
use lockjaw::virtio_blk::{do_io, finish_io, BlkBuffers, Placed, Transfer, VirtioBlkEngine};
use lockjaw::virtqueue::{
    completion, CompletionWait, QueueLayout, Segment, Virtqueue, VirtqueueError, WaitEvent,
    WaitStep,
};
use lockjaw::virtual_memory::VirtualMemory;

fn page() -> OwnedDmaMapping<BuddyOrigin> {
    let mut vm = VirtualMemory::with_region(0x10_0000, 16);
    let mut p = OwnedDmaMapping::<BuddyOrigin>::alloc_page().0;
    for reply in [7, 0x8000, 0, 0] {
        match p.resume(Ok(reply), &mut vm) {
            Step::Ask(next, _) => p = next,
            Step::Done(m) => return m.unwrap(),
        }
    }
    panic!("not mapped")
}

fn queue(queue_size: u16) -> Virtqueue {
    let layout = QueueLayout {
        queue_size,
        desc_offset: 0,
        avail_offset: 0x100,
        used_offset: 0x200,
        total_size: 0x300,
    };
    Virtqueue::new(page(), layout)
}

// --- queues --------------------------------------------------------------------------

#[test]
fn a_queue_may_have_no_descriptors() {
    let mut q = queue(0);
    assert_eq!(q.queue_size(), 0);
    assert!(q.submit_chain(&vec![Segment::readable(0x1000, 16)]).is_none());
    assert_eq!(q.poll_used(0), None);
}

#[test]
fn requests_take_free_descriptors_in_order() {
    let mut q = queue(4);
    assert_eq!((q.desc_phys(), q.avail_phys(), q.used_phys()), (0x8000, 0x8100, 0x8200));
    let a = q
        .submit_chain(&vec![Segment::readable(0x1000, 16), Segment::writable(0x2000, 512)])
        .unwrap();
    assert_eq!((a.head, a.ring_slot, a.avail_idx), (0, 0, 1));
    assert_eq!(a.written, vec![0, 1]);
    let d = q.descriptor(0);
    assert_eq!((d.addr, d.len, d.device_writes, d.more, d.next), (0x1000, 16, false, true, 1));
    let d = q.descriptor(1);
    assert_eq!((d.addr, d.len, d.device_writes, d.more), (0x2000, 512, true, false));
    assert!(q.is_in_flight(0));
    assert!(!q.is_in_flight(1));
    let three = vec![
        Segment::readable(1, 1),
        Segment::readable(2, 1),
        Segment::readable(3, 1),
    ];
    assert!(q.submit_chain(&three).is_none());
    assert!(q.submit_chain(&vec![]).is_none());
    assert!(q.submit_chain(&vec![Segment::readable(0x3000, 1); 65537]).is_none());
    let b = q.submit_chain(&vec![Segment::readable(0x3000, 1)]).unwrap();
    assert_eq!((b.head, b.ring_slot, b.avail_idx), (2, 1, 2));
    q.free_chain(0);
    assert!(!q.is_in_flight(0));
    let c = q.submit_chain(&three).unwrap();
    assert_eq!(c.written, vec![0, 1, 3]);
    assert_eq!(q.queue_size(), 4);
}

#[test]
fn completions_are_seen_once() {
    let mut q = queue(2);
    assert_eq!(q.poll_used(0), None);
    assert_eq!(q.poll_used(2), Some(0));
    assert_eq!(q.poll_used(2), Some(1));
    assert_eq!(q.poll_used(2), None);
    assert_eq!(q.poll_used(3), Some(0));
    assert_eq!(completion(0x1_0003, 9), (3, 9));
}

#[test]
fn a_wait_polls_before_and_after_the_interrupt() {
    let mut w = CompletionWait::new(NotificationHandle(8), 5);
    let wait = |threshold| WaitStep::Wait(Request::WaitNotification { notification: 8, threshold });
    assert_eq!(w.wait_for_completion(WaitEvent::Polled(None)), wait(5));
    assert_eq!(w.wait_for_completion(WaitEvent::Woken(Ok(1))), WaitStep::Acknowledge);
    assert_eq!(w.wait_for_completion(WaitEvent::Acknowledged), WaitStep::Poll);
    assert_eq!(w.wait_for_completion(WaitEvent::Polled(None)), wait(6));
    assert_eq!(
        w.wait_for_completion(WaitEvent::Woken(Err(SyscallError::Kernel(1)))),
        WaitStep::Failed(VirtqueueError::IrqWaitFailed)
    );
    assert_eq!(w.threshold, 6);
    assert_eq!(
        w.wait_for_completion(WaitEvent::Polled(Some((3, 512)))),
        WaitStep::Completed(3, 512)
    );
}

#[test]
fn a_transfer_goes_through_the_engine() {
    let mut e = VirtioBlkEngine { buffers: BlkBuffers::new(100), vq: queue(4), req_pa: 0x9000 };
    let ps = PageSetHandle(50);
    assert!(matches!(e.buffers.place(ps, 0xA000, 8), Placed::Kept(_)));
    let r = e.read(92, 8, ps).ok().unwrap();
    assert_eq!((r.transfer, r.sector, r.status, r.queue), (Transfer::In, 92, 0xFF, 0));
    assert_eq!(r.submission.written, vec![0, 1, 2]);
    assert_eq!(e.vq.descriptor(1).addr, 0xA000);
    assert_eq!(e.vq.descriptor(1).len, 4096);
    assert!(matches!(e.write(0, 1, ps), Err(BlockError::AllocFailed)));
    assert_eq!(e.finish(r.submission.head, true, 0), Ok(()));
    assert!(matches!(e.read(93, 8, ps), Err(BlockError::InvalidParameter)));
    assert!(matches!(e.write(0, 9, ps), Err(BlockError::InvalidParameter)));
    assert!(matches!(e.read(0, 1, PageSetHandle(51)), Err(BlockError::InvalidBuffer)));
    let r = e.write(1, 2, ps).ok().unwrap();
    assert_eq!((r.transfer, r.sector), (Transfer::Out, 1));
    assert_eq!(e.finish(r.submission.head, true, 1), Err(BlockError::IoError));
}

#[test]
fn a_block_request_has_three_parts() {
    let mut q = queue(4);
    let s = do_io(&mut q, Transfer::In, 0x9000, 0xA000, 2).unwrap();
    assert_eq!(s.written, vec![0, 1, 2]);
    let part = |q: &Virtqueue, i| {
        let d = q.descriptor(i);
        (d.addr, d.len, d.device_writes)
    };
    assert_eq!(part(&q, 0), (0x9000, 16, false));
    assert_eq!(part(&q, 1), (0xA000, 1024, true));
    assert_eq!(part(&q, 2), (0x9010, 1, true));
    assert!(matches!(
        do_io(&mut q, Transfer::In, 0x9000, 0xA000, 2),
        Err(BlockError::AllocFailed)
    ));
    assert_eq!(finish_io(&mut q, 0, true, 0), Ok(()));
    assert!(!q.is_in_flight(0));
    do_io(&mut q, Transfer::Out, 0x9000, 0xA000, 1).unwrap();
    assert_eq!(part(&q, 1), (0xA000, 512, false));
    assert_eq!(finish_io(&mut q, 0, true, 1), Err(BlockError::IoError));
    let s = do_io(&mut q, Transfer::Out, 0x9000, 0xA000, 1).unwrap();
    assert_eq!(finish_io(&mut q, s.head, false, 0), Err(BlockError::IoError));
}

// --- virtio --------------------------------------------------------------------------

#[test]
fn a_device_is_started_step_by_step() {
    let (t, w) = VirtioTransportInit::reset(0x5000, VIRTIO_MMIO_MAGIC_VALUE, 2).ok().unwrap();
    assert_eq!(w, StatusWrite(0));
    let (t, w) = t.acknowledge();
    assert_eq!(w, StatusWrite(1));
    let (t, w) = t.driver();
    assert_eq!(w, StatusWrite(3));
    let (t, features) = t.negotiate(0b1101, 0b0101).ok().unwrap();
    assert_eq!(features, 0b0101);
    assert_eq!(t.propose(3), StatusWrite(11));
    let t = t.features_ok(11).ok().unwrap();
    let (t, q) = t.setup_queue(64, 1, 2, 3);
    assert_eq!((q.num, q.desc, q.driver, q.device, q.ready), (64, 1, 2, 3, 1));
    let (t, q) = t.setup_additional_queue(32, 4, 5, 6);
    assert_eq!((q.num, q.desc), (32, 4));
    let (device, w) = t.driver_ok();
    assert_eq!((device.regs_va(), w), (0x5000, StatusWrite(15)));
}

#[test]
fn a_device_that_does_not_fit_is_refused() {
    assert_eq!(
        VirtioTransportInit::reset(0, 1, 2).err(),
        Some(VirtioInitError::NotVirtio { magic: 1 })
    );
    assert_eq!(
        VirtioTransportInit::reset(0, VIRTIO_MMIO_MAGIC_VALUE, 1).err(),
        Some(VirtioInitError::UnsupportedVersion(1))
    );
    let start = || {
        let (t, _) = VirtioTransportInit::reset(0, VIRTIO_MMIO_MAGIC_VALUE, 2).ok().unwrap();
        t.acknowledge().0.driver().0
    };
    assert_eq!(
        start().negotiate(0b01, 0b11).err(),
        Some(VirtioInitError::UnsupportedFeatures { wanted: 0b11, offered: 0b01 })
    );
    let (t, _) = start().negotiate(1, 1).ok().unwrap();
    assert_eq!(
        t.features_ok(3).err(),
        Some((VirtioInitError::DeviceRejectedFeatures, StatusWrite(128)))
    );
    assert_eq!(queue_limit(3, 0), Err(VirtioInitError::QueueUnavailable { index: 3 }));
    assert_eq!(queue_limit(0, 256), Ok(256));
    assert_eq!(queue_limit(0, 0x1_0000), Ok(u16::MAX));
}

// --- cards ---------------------------------------------------------------------------

fn present(cmd_inhibit: bool, dat_inhibit: bool, expired: bool) -> Present {
    Present { cmd_inhibit, dat_inhibit, bits: 0x77, expired }
}

fn status(error: bool, cmd_complete: bool, data_complete: bool, expired: bool) -> IntStatus {
    IntStatus { error, cmd_complete, data_complete, expired }
}

fn command() -> CardCommand {
    CardCommand { cmd: SdCommand::SendCsd, arg: 5, shape: ResponseShape::R2 }
}

#[test]
fn a_command_waits_for_the_line() {
    let (mut c, a) = SdhciCommandInit::issue_no_data(command());
    assert!(matches!(a, CommandAction::PollPresent { budget_ms: 100 }));
    let a = c.step(CommandEvent::Present(present(true, false, false)));
    assert!(matches!(a, CommandAction::PollPresent { .. }));
    let a = c.step(CommandEvent::Present(present(false, true, false)));
    assert!(matches!(a, CommandAction::Issue { budget_ms: 1000, .. }));
    let a = c.step(CommandEvent::Status(status(false, false, false, false)));
    assert!(matches!(a, CommandAction::PollStatus));
    let a = c.step(CommandEvent::Status(status(false, true, false, true)));
    assert!(matches!(a, CommandAction::ReadResponse { long: true }));
    let r = Response(1, 2, 3, 4);
    let a = c.step(CommandEvent::Response(r));
    assert!(matches!(a, CommandAction::Finish(Ok(Response(1, 2, 3, 4)))));
}

#[test]
fn a_command_fails_in_three_ways() {
    let (mut c, _) = SdhciCommandInit::issue_no_data(command());
    let a = c.step(CommandEvent::Present(present(true, false, true)));
    assert!(matches!(
        a,
        CommandAction::Finish(Err(SdhciCommandError::InhibitStuck { present_state: 0x77 }))
    ));
    let (mut c, _) = SdhciCommandInit::issue_no_data(command());
    c.step(CommandEvent::Present(present(false, false, false)));
    let a = c.step(CommandEvent::Status(status(false, false, false, true)));
    assert!(matches!(a, CommandAction::Finish(Err(SdhciCommandError::NoResponse))));
    let (mut c, _) = SdhciCommandInit::issue_no_data(command());
    c.step(CommandEvent::Present(present(false, false, false)));
    let a = c.step(CommandEvent::Status(status(true, true, false, false)));
    assert!(matches!(a, CommandAction::CollectError));
    let a = c.step(CommandEvent::ErrorBits(0x11));
    assert!(matches!(
        a,
        CommandAction::Finish(Err(SdhciCommandError::ControllerError { err_int_status: 0x11 }))
    ));
}

#[test]
fn a_transfer_drains_before_it_ends() {
    let (mut d, a) = SdhciDataCompletion::await_complete();
    assert!(matches!(a, DataAction::WaitIrq { budget_ms: 1000 }));
    assert!(matches!(d.step(DataEvent::Irq(Ok(()))), DataAction::ReadStatus));
    let a = d.step(DataEvent::Status(status(false, true, false, false)));
    assert!(matches!(
        a,
        DataAction::Acknowledge { cmd_complete: true, data_complete: false }
    ));
    assert!(matches!(d.step(DataEvent::Acknowledged), DataAction::WaitIrq { .. }));
    d.step(DataEvent::Irq(Ok(())));
    d.step(DataEvent::Status(status(false, false, true, false)));
    assert!(matches!(
        d.step(DataEvent::Acknowledged),
        DataAction::PollPresent { budget_ms: 10 }
    ));
    assert!(matches!(
        d.step(DataEvent::Present(present(false, true, false))),
        DataAction::PollPresent { .. }
    ));
    assert!(matches!(
        d.step(DataEvent::Present(present(true, false, false))),
        DataAction::Finish(Ok(()))
    ));
}

fn fails(events: Vec<DataEvent>) -> SdhciDataCompletionError {
    let (mut d, mut a) = SdhciDataCompletion::await_complete();
    for e in events {
        a = d.step(e);
    }
    match a {
        DataAction::Finish(Err(e)) => e,
        a => panic!("{a:?}"),
    }
}

#[test]
fn a_transfer_fails_in_five_ways() {
    let late = || DataEvent::Irq(Err(IrqWaitError::Timeout));
    let irq = || DataEvent::Irq(Ok(()));
    let cmd = || DataEvent::Status(status(false, true, false, false));
    assert!(matches!(fails(vec![late()]), SdhciDataCompletionError::CmdCompleteTimeout));
    assert!(matches!(
        fails(vec![irq(), cmd(), DataEvent::Acknowledged, late()]),
        SdhciDataCompletionError::TransferCompleteTimeout
    ));
    let bad = || DataEvent::Status(status(true, false, false, false));
    assert!(matches!(
        fails(vec![irq(), bad(), DataEvent::ErrorBits(3)]),
        SdhciDataCompletionError::CmdError { err_int_status: 3 }
    ));
    assert!(matches!(
        fails(vec![
            irq(),
            cmd(),
            DataEvent::Acknowledged,
            irq(),
            bad(),
            DataEvent::ErrorBits(4)
        ]),
        SdhciDataCompletionError::DataError { err_int_status: 4 }
    ));
    let all = DataEvent::Status(status(false, true, true, false));
    assert!(matches!(
        fails(vec![
            irq(),
            all,
            DataEvent::Acknowledged,
            DataEvent::Present(present(false, true, true))
        ]),
        SdhciDataCompletionError::DatInhibitStuck { present_state: 0x77 }
    ));
}

fn pool_pages() -> DmaBacking<DmaPoolOrigin> {
    let (p, _) = alloc_dma_backing_dma_pool(1);
    let p = match p.resume(Ok(7)) {
        Step::Ask(p, _) => p,
        Step::Done(_) => panic!("no pages"),
    };
    match p.resume(Ok(0x9000)) {
        Step::Done(Ok(pages)) => pages,
        _ => panic!("no address"),
    }
}

fn block_read(regions: Vec<DmaRegion>, events: Vec<TransferSaw>) -> TransferDo {
    let (mut t, mut a) = SdhciCommandInit::issue_data_transfer(
        SdhciDataTransfer {
            cmd: SdCommand::ReadSingleBlock,
            arg: 9,
            direction: DataDirection::Read,
            adma_descriptor_pa: 0x4000,
        },
        regions,
    );
    for e in events {
        let (next, action) = t.step(e);
        t = next;
        a = action;
    }
    a
}

fn read_regions() -> Vec<DmaRegion> {
    let pages = pool_pages();
    vec![
        pages.dma_region(0, 8, DmaDir::ToDevice),
        pages.dma_region(64, 512, DmaDir::FromDevice),
    ]
}

#[test]
fn a_transfer_starts_on_free_lines() {
    let poll = |p: Present| block_read(Vec::new(), vec![TransferSaw::Present(p)]);
    assert!(matches!(block_read(Vec::new(), vec![]), TransferDo::PollPresent { budget_ms: 100 }));
    assert!(matches!(poll(present(false, true, false)), TransferDo::PollPresent { .. }));
    assert!(matches!(
        poll(present(true, false, true)),
        TransferDo::Finish(Err(SdhciDataTransferError::InhibitStuck { present_state: 0x77 }))
    ));
    match poll(present(false, false, true)) {
        TransferDo::Kick(k) => {
            assert_eq!((k.adma_address, k.block_size, k.block_count), (0x4000, 512, 1));
            assert_eq!((k.argument, k.command), (9, SdCommand::ReadSingleBlock));
            assert!(k.moves_data && k.reads_card && k.with_data);
            assert_eq!(k.select, SdhciWrite::SelectAdma32);
            assert_eq!(k.shape, ResponseShape::R1);
        }
        other => panic!("{:?}", other),
    }
}

#[test]
fn a_block_is_read_between_clean_and_invalidate() {
    let free = || TransferSaw::Present(present(false, false, false));
    let synced = || TransferSaw::Synced(Ok(0));
    let wait = |e: DataEvent| TransferSaw::Data(e);
    let mut seen = vec![free()];
    assert!(matches!(
        block_read(read_regions(), seen.clone()),
        TransferDo::Sync(Request::SyncForDevice { pageset: 7, offset: 0, len: 8 })
    ));
    seen.push(synced());
    assert!(matches!(
        block_read(read_regions(), seen.clone()),
        TransferDo::Sync(Request::SyncForDevice { pageset: 7, offset: 64, len: 512 })
    ));
    seen.push(synced());
    assert!(matches!(block_read(read_regions(), seen.clone()), TransferDo::Kick(_)));
    seen.push(TransferSaw::Kicked);
    assert!(matches!(
        block_read(read_regions(), seen.clone()),
        TransferDo::Wait(DataAction::WaitIrq { budget_ms: 1000 })
    ));
    seen.push(wait(DataEvent::Irq(Ok(()))));
    seen.push(wait(DataEvent::Status(status(false, true, true, false))));
    seen.push(wait(DataEvent::Acknowledged));
    assert!(matches!(
        block_read(read_regions(), seen.clone()),
        TransferDo::Wait(DataAction::PollPresent { budget_ms: 10 })
    ));
    seen.push(wait(DataEvent::Present(present(false, false, false))));
    assert!(matches!(
        block_read(read_regions(), seen.clone()),
        TransferDo::Sync(Request::SyncForCpu { pageset: 7, offset: 64, len: 512 })
    ));
    seen.push(synced());
    assert!(matches!(block_read(read_regions(), seen.clone()), TransferDo::Finish(Ok(()))));
}

#[test]
fn a_block_read_says_where_it_failed() {
    let free = || TransferSaw::Present(present(false, false, false));
    let synced = || TransferSaw::Synced(Ok(0));
    let lost = || TransferSaw::Synced(Err(SyscallError::Kernel(1)));
    let wait = |e: DataEvent| TransferSaw::Data(e);
    assert!(matches!(
        block_read(read_regions(), vec![free(), lost()]),
        TransferDo::Finish(Err(SdhciDataTransferError::CleanFailed(SyscallError::Kernel(1))))
    ));
    let mut kicked = vec![free(), synced(), synced(), TransferSaw::Kicked];
    let mut failed = kicked.clone();
    failed.push(wait(DataEvent::Irq(Err(IrqWaitError::Timeout))));
    assert!(matches!(
        block_read(read_regions(), failed),
        TransferDo::Finish(Err(SdhciDataTransferError::Completion(
            SdhciDataCompletionError::CmdCompleteTimeout
        )))
    ));
    kicked.push(wait(DataEvent::Irq(Ok(()))));
    kicked.push(wait(DataEvent::Status(status(false, true, true, false))));
    kicked.push(wait(DataEvent::Acknowledged));
    kicked.push(wait(DataEvent::Present(present(false, false, false))));
    kicked.push(lost());
    assert!(matches!(
        block_read(read_regions(), kicked),
        TransferDo::Finish(Err(SdhciDataTransferError::InvalidateFailed(SyscallError::Kernel(1))))
    ));
}

#[test]
fn the_controller_is_set_up() {
    assert_eq!(soft_reset_all(false, true), Some(Ok(())));
    assert_eq!(soft_reset_all(true, false), None);
    assert_eq!(soft_reset_all(true, true), Some(Err(SdhciInitError::ResetTimeout)));
    let (s, a) = configure_clock(ClockStage::Gating, (4, 1), false, false);
    assert!(matches!(a, ClockAction::WriteDivisor { lo: 4, hi: 1 }));
    let (s, a) = configure_clock(s, (4, 1), false, false);
    assert!(matches!(a, ClockAction::PollStable { budget_ms: 100 }));
    assert!(matches!(
        configure_clock(s, (4, 1), false, true).1,
        ClockAction::Finish(Err(SdhciInitError::ClockUnstable))
    ));
    let (s, a) = configure_clock(s, (4, 1), true, true);
    assert!(matches!(a, ClockAction::GateOn));
    assert!(matches!(
        configure_clock(s, (4, 1), true, false).1,
        ClockAction::Finish(Ok(()))
    ));
    assert_eq!(
        enable_irq_signaling(3, 0xff),
        vec![
            SdhciWrite::ClearNormalStatus(0xFFFF),
            SdhciWrite::ClearErrorStatus(0xFFFF),
            SdhciWrite::NormalSignalEnable(3),
            SdhciWrite::ErrorSignalEnable(0xff),
        ]
    );
    assert_eq!(set_power_on(7), SdhciWrite::PowerOn { voltage: 7 });
    assert_eq!(set_power_on_and_settle(7), (SdhciWrite::PowerOn { voltage: 7 }, 2));
    assert_eq!(set_timeout_dat_counter(14), SdhciWrite::DataTimeout(14));
    assert_eq!(set_bus_width_4bit(), SdhciWrite::FourDataLines);
    assert_eq!(
        set_int_enable_masks(1, 2),
        vec![SdhciWrite::NormalStatusEnable(1), SdhciWrite::ErrorStatusEnable(2)]
    );
    assert_eq!(
        init_adma2_32(0x4000),
        vec![SdhciWrite::SelectAdma32, SdhciWrite::AdmaAddress(0x4000)]
    );
}

const ECHO: Response = Response(0x1AA, 0, 0, 0);

#[test]
fn a_card_is_brought_up() {
    let (card, c) = MmcCard::uninit();
    assert_eq!((c.cmd, c.shape), (SdCommand::GoIdleState, ResponseShape::R0));
    let (card, c) = card.go_idle(Ok(Response(0, 0, 0, 0))).ok().unwrap();
    assert_eq!((c.cmd, c.arg, c.shape), (SdCommand::SendIfCond, 0x1AA, ResponseShape::R7));
    let (card, c) = card.verify_sdv2_if_cond(Ok(ECHO)).ok().unwrap();
    assert_eq!((c.cmd, c.shape), (SdCommand::AppCmd, ResponseShape::R1));
    let (card, c) = card.announce_power_up(Ok(ECHO), 0x51FF_8000).ok().unwrap();
    assert_eq!((c.cmd, c.arg), (SdCommand::SdSendOpCond, 0x51FF_8000));
    assert_eq!(c.shape, ResponseShape::R3);
    let busy = OcrRegister { raw: 0, power_up_done: false };
    let (card, c) = match card.power_up_to_ready(Ok(busy), false) {
        PowerUp::Again(card, c, pause_ms) => {
            assert_eq!(pause_ms, 10);
            (card, c)
        }
        _ => panic!("not again"),
    };
    assert_eq!((c.cmd, c.shape), (SdCommand::AppCmd, ResponseShape::R1));
    let (card, _) = card.announce_power_up(Ok(ECHO), 0x51FF_8000).ok().unwrap();
    let ocr = OcrRegister { raw: 0xC000_0000, power_up_done: true };
    let (card, c) = match card.power_up_to_ready(Ok(ocr), true) {
        PowerUp::Ready(card, c) => (card, c),
        _ => panic!("not ready"),
    };
    assert_eq!((c.cmd, c.shape), (SdCommand::AllSendCid, ResponseShape::R2));
    let (card, c) = card.identify(Ok(Response(1, 2, 3, 4))).ok().unwrap();
    assert_eq!((c.cmd, c.shape), (SdCommand::SendRelativeAddr, ResponseShape::R6));
    let (card, c) = card.publish_rca(Ok(0x1234)).ok().unwrap();
    assert_eq!((c.cmd, c.arg), (SdCommand::SendCsd, 0x1234_0000));
    assert_eq!(c.shape, ResponseShape::R2);
    let (card, c) = card.read_csd(Ok(Response(5, 6, 7, 8)), None).ok().unwrap();
    assert_eq!((c.cmd, c.arg), (SdCommand::SelectCard, 0x1234_0000));
    assert_eq!(c.shape, ResponseShape::R1b);
    let card = card.selected(Ok(ECHO)).ok().unwrap();
    let card = match card.select(present(false, true, false)) {
        Select::Again(card) => card,
        _ => panic!("not again"),
    };
    let card = match card.select(present(false, false, false)) {
        Select::Selected(card) => card,
        _ => panic!("not selected"),
    };
    let c = card.announce_bus_width();
    assert_eq!((c.cmd, c.arg), (SdCommand::AppCmd, 0x1234_0000));
    let (card, c) = card.bus_width_command(Ok(ECHO)).ok().unwrap();
    assert_eq!((c.cmd, c.arg, c.shape), (SdCommand::SetBusWidth, 2, ResponseShape::R1));
    let (card, widen) = card.set_bus_width_4bit(Ok(ECHO)).ok().unwrap();
    assert_eq!(widen, SdhciWrite::FourDataLines);
    let info = card.into_parts();
    assert_eq!((info.rca(), info.bus_width()), (0x1234, BusWidth::Bit4));
    assert_eq!((info.cid(), info.csd()), (Response(1, 2, 3, 4), Response(5, 6, 7, 8)));
    assert_eq!(info.ocr(), ocr);
}

#[test]
fn a_card_that_answers_wrongly_is_refused() {
    let idle = || MmcCard::uninit().0.go_idle(Ok(ECHO)).ok().unwrap().0;
    assert!(matches!(
        MmcCard::uninit().0.go_idle(Err(SdhciCommandError::NoResponse)),
        Err(MmcCardError::Sdhci(SdhciCommandError::NoResponse))
    ));
    assert!(matches!(
        idle().verify_sdv2_if_cond(Ok(Response(0x155, 0, 0, 0))),
        Err(MmcCardError::Cmd8EchoMismatch { echo: 0x155 })
    ));
    let busy = OcrRegister { raw: 0, power_up_done: false };
    assert!(matches!(
        idle().announce_power_up(Err(SdhciCommandError::NoResponse), 0),
        Err(MmcCardError::Sdhci(SdhciCommandError::NoResponse))
    ));
    let announced = || idle().announce_power_up(Ok(ECHO), 0).ok().unwrap().0;
    assert!(matches!(
        announced().power_up_to_ready(Ok(busy), true),
        PowerUp::Failed(MmcCardError::Acmd41Timeout)
    ));
    let ocr = OcrRegister { raw: 0, power_up_done: true };
    let ready = match announced().power_up_to_ready(Ok(ocr), false) {
        PowerUp::Ready(card, _) => card,
        _ => panic!("not ready"),
    };
    let (card, _) = ready.identify(Ok(ECHO)).ok().unwrap();
    let (card, _) = card.publish_rca(Ok(1)).ok().unwrap();
    assert!(matches!(
        card.read_csd(Ok(ECHO), Some(0)),
        Err(MmcCardError::Cmd9NotV2 { csd_structure: 0 })
    ));
}

#[test]
fn a_card_that_stays_busy_is_refused() {
    let idle = MmcCard::uninit().0.go_idle(Ok(ECHO)).ok().unwrap().0;
    let ocr = OcrRegister { raw: 0, power_up_done: true };
    let (announced, _) = idle.announce_power_up(Ok(ECHO), 0).ok().unwrap();
    let ready = match announced.power_up_to_ready(Ok(ocr), false) {
        PowerUp::Ready(card, _) => card,
        _ => panic!("not ready"),
    };
    let (card, _) = ready.identify(Ok(ECHO)).ok().unwrap();
    let (card, _) = card.publish_rca(Ok(1)).ok().unwrap();
    let (card, _) = card.read_csd(Ok(ECHO), None).ok().unwrap();
    let card = card.selected(Ok(ECHO)).ok().unwrap();
    assert!(matches!(
        card.select(present(false, true, true)),
        Select::Failed(MmcCardError::Cmd7BusyStuck { present_state: 0x77 })
    ));
}
