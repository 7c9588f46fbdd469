use lockjaw::clock::{
    clock_request, decode_answer, run_clock_server, ClockClient, ClockCodes, ClockError,
    ServerAction, ServerEvent,
};
use lockjaw::devmgr::{claim_typed, ClaimCodes, ClaimError, ClaimedDevice, Manager};
use lockjaw::display::DisplayError;
use lockjaw::dma::{
    alloc_dma_backing, alloc_dma_backing_dma_pool, close_dma_backing, BorrowedDmaMapping,
    BuddyOrigin, DmaMappingView, DmaPoolOrigin, OwnedDmaMapping, OwnedDmaPending,
};
use lockjaw::dma_transfer::{
    resume_transfer, run_dma_transfer, DmaDir, DmaRegion, DmaTransferError, TransferAction,
    TransferEvent,
};
use lockjaw::driver_runtime::{
    bind_irq, boot_puts_and_halt, driver_bootstrap, probe_by_hash, BootstrapError,
    DriverBootstrap, EventServer, EventTurn, IrqBindError, MmioProbe, ProbeCodes, ProbeError,
};
use lockjaw::fwcfg::{
    directory_count, dma_poll, dma_write, find_file, read_enough, FwCfgDmaError, FwCfgTransfer,
};
use lockjaw::handle::{
    bootstrap_endpoint, close, EndpointHandle, NotificationGuard, NotificationHandle,
    PageSetGuard, PageSetHandle, ReplyHandle,
};
use lockjaw::irq::{bind_irq_edge, bind_irq_level, BindIrqError, IrqWaitError};
use lockjaw::ramfb::{
    has_picture_size, program_ramfb, program_result, self_test, self_test_pages, EngineBuffer,
    RamfbEngine, Scanout,
};
use lockjaw::syscall::{
    decode_boot_info, decode_mapping, decode_reply, MapAttribute, Reply, Request, SchedTelemetry,
    Step, SyscallError, Words,
};
use lockjaw::time::{
    sleep_for, sleep_until, slept, spin_until_or_deadline, write_byte_deadline, MonoTicks, TxStep,
    NO_DEADLINE,
};
use lockjaw::virtual_memory::VirtualMemory;

fn memory() -> VirtualMemory {
    VirtualMemory::with_region(0x10_0000, 16)
}

fn asks<S, T>(s: Step<S, T>) -> (S, Request) {
    match s {
        Step::Ask(next, request) => (next, request),
        Step::Done(_) => panic!("done"),
    }
}

fn done<S, T>(s: Step<S, T>) -> T {
    match s {
        Step::Done(value) => value,
        Step::Ask(_, request) => panic!("{request:?}"),
    }
}

const LOST: Reply = Err(SyscallError::Kernel(9));

// --- the kernel's answers ------------------------------------------------------------

#[test]
fn registers_hold_an_error_or_a_value() {
    assert_eq!(decode_reply(0, 7), Ok(7));
    assert_eq!(decode_reply(3, 7), Err(SyscallError::Kernel(3)));
    let info = decode_boot_info(0, 12, 0x1_0000_0040).unwrap();
    assert_eq!((info.dtb_pageset, info.dtb_in_page_offset), (12, 0x40));
    assert_eq!(decode_boot_info(1, 12, 0).unwrap_err(), SyscallError::Kernel(1));
    assert_eq!(decode_mapping(0, 1, 4), Ok((true, 4)));
    assert_eq!(decode_mapping(0, 0, 4), Ok((false, 4)));
    assert_eq!(decode_mapping(2, 0, 4), Err(SyscallError::Kernel(2)));
}

#[test]
fn counters_do_not_go_back() {
    let t = |ticks, ctx_switches| SchedTelemetry {
        ticks,
        ctx_switches,
        ttbr0_writes: 0,
        tick_max_cycles: 0,
    };
    let d = t(10, 3).delta_from(&t(4, 5));
    assert_eq!((d.ticks, d.ctx_switches), (6, 0));
}

#[test]
fn guards_close_what_is_not_taken() {
    assert_eq!(bootstrap_endpoint(), EndpointHandle(0));
    assert_eq!(close(&PageSetHandle(4)), Request::CloseHandle { handle: 4 });
    assert_eq!(PageSetGuard::new(PageSetHandle(4)).take(), PageSetHandle(4));
    assert_eq!(
        PageSetGuard::new(PageSetHandle(4)).release(),
        Request::CloseHandle { handle: 4 }
    );
    let g = NotificationGuard::new(NotificationHandle(5));
    assert_eq!(g.handle(), NotificationHandle(5));
    assert_eq!(g.release(), Request::CloseHandle { handle: 5 });
}

// --- deadlines -----------------------------------------------------------------------

#[test]
fn a_deadline_passes_once() {
    assert!(!MonoTicks(10).has_expired(MonoTicks(9)));
    assert!(MonoTicks(10).has_expired(MonoTicks(10)));
    assert!(!MonoTicks(NO_DEADLINE).has_expired(MonoTicks(NO_DEADLINE)));
    assert_eq!(MonoTicks(5).deadline_in(10), MonoTicks(15));
    assert_eq!(MonoTicks(5).deadline_in(u64::MAX), MonoTicks(NO_DEADLINE - 1));
    assert_eq!(sleep_until(MonoTicks(8)), Request::Sleep { deadline: 8 });
    assert_eq!(sleep_for(MonoTicks(8), 2), Request::Sleep { deadline: 10 });
    assert_eq!(
        sleep_for(MonoTicks(8), u64::MAX),
        Request::Sleep { deadline: NO_DEADLINE - 1 }
    );
    assert_eq!(slept(Ok(0)), Ok(()));
    assert_eq!(slept(LOST), Err(SyscallError::Kernel(9)));
}

#[test]
fn a_spin_ends_at_its_deadline() {
    let look = |ready, now| spin_until_or_deadline(ready, MonoTicks(now), MonoTicks(10));
    assert!(matches!(look(true, 99), Some(Ok(()))));
    assert!(look(false, 9).is_none());
    assert!(matches!(look(false, 10), Some(Err(_))));
    let byte = |full, now| write_byte_deadline(full, 0x41, MonoTicks(now), MonoTicks(10));
    assert!(matches!(byte(false, 99), TxStep::Write(0x41)));
    assert!(matches!(byte(true, 9), TxStep::Again));
    assert!(matches!(byte(true, 10), TxStep::Failed(_)));
}

// --- interrupts ----------------------------------------------------------------------

#[test]
fn an_interrupt_is_bound_and_waited_for() {
    let (p, r) = bind_irq_edge(40);
    assert_eq!(r, Request::AllocPages { count: 1 });
    let (p, r) = asks(p.resume(Ok(7)));
    assert_eq!(r, Request::CreateNotification { pageset: 7 });
    let (p, r) = asks(p.resume(Ok(8)));
    assert_eq!(r, Request::BindIrq { intid: 40, notification: 8, flags: 1 });
    let mut irq = done(p.resume(Ok(0))).unwrap();
    assert_eq!(
        irq.wait_until(100),
        Request::WaitUntil { notification: 8, threshold: 1, deadline: 100 }
    );
    assert!(irq.waited(Ok(1)).is_ok());
    assert_eq!(irq.threshold, 2);
    assert!(matches!(irq.waited(Ok(0)), Err(IrqWaitError::Timeout)));
    assert!(matches!(irq.waited(LOST), Err(IrqWaitError::Syscall(_))));
    assert_eq!(irq.threshold, 2);
    assert_eq!(irq.unmask(), Request::UnmaskIrq { intid: 40 });
}

#[test]
fn a_binding_says_where_it_failed() {
    let (p, _) = bind_irq_level(40);
    assert!(matches!(done(p.resume(LOST)), Err(BindIrqError::AllocNotificationPage(_))));
    let (p, _) = asks(bind_irq_level(40).0.resume(Ok(7)));
    assert!(matches!(done(p.resume(LOST)), Err(BindIrqError::CreateNotification(_))));
    let (p, r) = asks(p.resume(Ok(8)));
    assert_eq!(r, Request::BindIrq { intid: 40, notification: 8, flags: 0 });
    assert!(matches!(done(p.resume(LOST)), Err(BindIrqError::BindIrq(_))));
}

// --- memory for devices --------------------------------------------------------------

fn mapped(
    p: OwnedDmaPending<BuddyOrigin>,
    vm: &mut VirtualMemory,
) -> OwnedDmaMapping<BuddyOrigin> {
    let (p, r) = asks(p.resume(Ok(7), vm));
    assert_eq!(r, Request::QueryPhys { pageset: 7, page: 0 });
    let (p, r) = asks(p.resume(Ok(0x8000_0000), vm));
    assert!(matches!(
        r,
        Request::MapPages { pageset: 7, attribute: MapAttribute::Normal, .. }
    ));
    match p.resume(Ok(0), vm) {
        Step::Done(m) => m.unwrap(),
        Step::Ask(p, r) => {
            assert!(matches!(r, Request::Zero { .. }));
            done(p.resume(Ok(0), vm)).unwrap()
        }
    }
}

#[test]
fn a_page_is_mapped_and_given_back() {
    let mut vm = memory();
    let (p, r) = OwnedDmaMapping::<BuddyOrigin>::alloc_contiguous(2);
    assert_eq!(r, Request::AllocContiguous { count: 2 });
    let m = mapped(p, &mut vm);
    assert_eq!((m.va(), m.pa(), m.size_bytes()), (0x10_0000, 0x8000_0000, 0x2000));
    assert_eq!(m.pageset(), PageSetHandle(7));
    assert_eq!(m.pa_offset(0x10), 0x8000_0010);
    assert_eq!(m.slice(8, 4, 8, 8), Some(0x10_0008));
    assert_eq!(m.slice(4, 4, 8, 8), None);
    assert_eq!(m.slice(0, 1025, 8, 8), None);
    assert_eq!(m.slice(0, u64::MAX, 8, 8), None);
    assert_eq!(m.cell(0x1ffc, 4, 4), Some(0x10_1ffc));
    assert_eq!(m.cell(0x2000, 4, 4), None);
    assert_eq!(m.zero(), Request::Zero { va: 0x10_0000, bytes: 0x2000 });
    assert_eq!(m.zero_range(0x10, 0x20), Some(Request::Zero { va: 0x10_0010, bytes: 0x20 }));
    assert_eq!(m.zero_range(0x1ff0, 0x20), None);
    assert_eq!(vm.free_regions(), vec![(0x10_2000, 14)]);
    let (u, r) = m.unmap();
    assert_eq!(r, Request::UnmapPages { pageset: 7, va: 0x10_0000 });
    let (result, r) = u.resume(Ok(0), &mut vm);
    assert_eq!((result, r), (Ok(()), Request::CloseHandle { handle: 7 }));
    assert_eq!(vm.free_regions(), vec![(0x10_0000, 16)]);
}

#[test]
fn a_mapping_that_fails_leaves_nothing() {
    let mut vm = memory();
    let (p, r) = OwnedDmaMapping::<BuddyOrigin>::alloc_page();
    assert_eq!(r, Request::AllocPages { count: 1 });
    assert_eq!(done(p.resume(LOST, &mut vm)).err(), Some(SyscallError::Kernel(9)));
    let (p, _) = OwnedDmaMapping::<BuddyOrigin>::alloc_page();
    let (p, _) = asks(p.resume(Ok(7), &mut vm));
    let (p, _) = asks(p.resume(Ok(0x8000_0000), &mut vm));
    let (p, r) = asks(p.resume(LOST, &mut vm));
    assert_eq!(r, Request::CloseHandle { handle: 7 });
    assert_eq!(done(p.resume(Ok(0), &mut vm)).err(), Some(SyscallError::Kernel(9)));
    assert_eq!(vm.free_regions(), vec![(0x10_0000, 16)]);
    let (p, _) = OwnedDmaMapping::<BuddyOrigin>::alloc_contiguous(17);
    let (p, _) = asks(p.resume(Ok(7), &mut vm));
    let (p, r) = asks(p.resume(Ok(0x8000_0000), &mut vm));
    assert_eq!(r, Request::CloseHandle { handle: 7 });
    assert_eq!(done(p.resume(Ok(0), &mut vm)).err(), Some(SyscallError::OutOfMemory));
}

#[test]
fn a_borrowed_mapping_keeps_the_pages() {
    let mut vm = memory();
    let (p, r) = BorrowedDmaMapping::map_existing(PageSetHandle(5), 1);
    assert_eq!(r, Request::QueryPhys { pageset: 5, page: 0 });
    let (p, r) = asks(p.resume(Ok(0x9000), &mut vm));
    assert!(matches!(r, Request::MapPages { pageset: 5, va: 0x10_0000, .. }));
    let m = done(p.resume(Ok(0), &mut vm)).unwrap();
    assert_eq!((m.pageset(), m.pa()), (PageSetHandle(5), 0x9000));
    let (u, r) = m.unmap();
    assert_eq!(r, Request::UnmapPages { pageset: 5, va: 0x10_0000 });
    assert_eq!(u.resume(LOST, &mut vm), Err(SyscallError::Kernel(9)));
    assert_eq!(vm.free_regions(), vec![(0x10_1000, 15)]);
}

#[test]
fn pages_without_a_mapping() {
    let (p, r) = alloc_dma_backing(3);
    assert_eq!(r, Request::AllocContiguous { count: 3 });
    let (p, r) = asks(p.resume(Ok(7)));
    assert_eq!(r, Request::QueryPhys { pageset: 7, page: 0 });
    let b = done(p.resume(Ok(0x9000))).unwrap();
    assert_eq!((b.pageset(), b.pa(), b.pages()), (PageSetHandle(7), 0x9000, 3));
    assert_eq!(close_dma_backing(b.pageset()), Request::CloseHandle { handle: 7 });
    let (p, r) = alloc_dma_backing_dma_pool(1);
    assert_eq!(r, Request::AllocDmaPages { count: 1 });
    let (p, _) = asks(p.resume(Ok(7)));
    let (p, r) = asks(p.resume(LOST));
    assert_eq!(r, Request::CloseHandle { handle: 7 });
    assert_eq!(done(p.resume(Ok(0))).err(), Some(SyscallError::Kernel(9)));
}

// --- transfers -----------------------------------------------------------------------

type Action = TransferAction<u32, u8, u16>;

#[test]
fn a_transfer_cleans_kicks_waits_and_invalidates() {
    let (p, _) = OwnedDmaMapping::<DmaPoolOrigin>::alloc_dma_pool();
    let mut vm = memory();
    let (p, _) = asks(p.resume(Ok(7), &mut vm));
    let (p, _) = asks(p.resume(Ok(0x9000), &mut vm));
    let m = match p.resume(Ok(0), &mut vm) {
        Step::Done(m) => m.unwrap(),
        Step::Ask(p, _) => done(p.resume(Ok(0), &mut vm)).unwrap(),
    };
    let regions: Vec<DmaRegion> = vec![
        m.dma_region(0, 16, DmaDir::ToDevice),
        m.dma_region(64, 512, DmaDir::FromDevice),
    ];
    let (stage, a): (_, Action) = run_dma_transfer(&regions);
    assert!(matches!(
        a,
        TransferAction::Sync(Request::SyncForDevice { pageset: 7, offset: 0, len: 16 })
    ));
    let (stage, a): (_, Action) = resume_transfer(&regions, stage, TransferEvent::Synced(Ok(0)));
    assert!(matches!(
        a,
        TransferAction::Sync(Request::SyncForDevice { pageset: 7, offset: 64, len: 512 })
    ));
    let (stage, a): (_, Action) = resume_transfer(&regions, stage, TransferEvent::Synced(Ok(0)));
    assert!(matches!(a, TransferAction::Kick));
    let (stage, a): (_, Action) = resume_transfer(&regions, stage, TransferEvent::Kicked(Ok(5)));
    assert!(matches!(a, TransferAction::Await));
    let (stage, a): (_, Action) =
        resume_transfer(&regions, stage, TransferEvent::Completed(Ok(())));
    assert!(matches!(
        a,
        TransferAction::Sync(Request::SyncForCpu { pageset: 7, offset: 64, len: 512 })
    ));
    let (_, a): (_, Action) = resume_transfer(&regions, stage, TransferEvent::Synced(Ok(0)));
    assert!(matches!(a, TransferAction::Finish(Ok(5))));
}

#[test]
fn a_transfer_says_where_it_failed() {
    let (p, _) = alloc_dma_backing_dma_pool(1);
    let (p, _) = asks(p.resume(Ok(1)));
    let pages = done(p.resume(Ok(0x9000))).unwrap();
    let regions = vec![pages.dma_region(0, 4, DmaDir::FromDevice)];
    let run = |events: Vec<TransferEvent<u32, u8, u16>>| -> Action {
        let (mut stage, mut a): (_, Action) = run_dma_transfer(&regions);
        for e in events {
            let (s, b) = resume_transfer(&regions, stage, e);
            stage = s;
            a = b;
        }
        a
    };
    let synced = || TransferEvent::Synced(Ok(0));
    assert!(matches!(
        run(vec![TransferEvent::Synced(LOST)]),
        TransferAction::Finish(Err(DmaTransferError::CleanFailed(SyscallError::Kernel(9))))
    ));
    assert!(matches!(
        run(vec![synced(), TransferEvent::Kicked(Err(3))]),
        TransferAction::Finish(Err(DmaTransferError::Kick(3)))
    ));
    assert!(matches!(
        run(vec![synced(), TransferEvent::Kicked(Ok(1)), TransferEvent::Completed(Err(4))]),
        TransferAction::Finish(Err(DmaTransferError::Completion(4)))
    ));
    assert!(matches!(
        run(vec![
            synced(),
            TransferEvent::Kicked(Ok(1)),
            TransferEvent::Completed(Ok(())),
            TransferEvent::Synced(LOST)
        ]),
        TransferAction::Finish(Err(DmaTransferError::InvalidateFailed(_)))
    ));
    let none: Vec<DmaRegion> = Vec::new();
    let (_, a): (_, Action) = run_dma_transfer(&none);
    assert!(matches!(a, TransferAction::Kick));
}

// --- the device manager --------------------------------------------------------------

fn manager() -> Manager {
    Manager {
        endpoint: EndpointHandle(3),
        reply: ReplyHandle(4),
        codes: ClaimCodes { claim_by_addr: 20, release_by_addr: 21, claim_ok: 0 },
    }
}

fn tells(code: u64) -> Request {
    Request::Call { endpoint: 3, reply: 4, message: Words(code, 0xfe20_1200, 0, 0) }
}

#[test]
fn a_device_is_claimed_and_released() {
    let mut vm = memory();
    let (p, r) = claim_typed(manager(), 0xfe20_1200, 0x100, 4).unwrap();
    assert_eq!(r, tells(20));
    let (p, r) = asks(p.resume(Ok(Words(0, 7, 33, 0)), &mut vm));
    assert_eq!(
        r,
        Request::MapPages { pageset: 7, va: 0x10_0000, attribute: MapAttribute::Device }
    );
    let d = done(p.resume(Ok(Words(0, 0, 0, 0)), &mut vm)).unwrap();
    assert_eq!((d.regs_va, d.irq_intid, d.mmio_pageset), (0x10_0200, 33, PageSetHandle(7)));
    let (u, r) = d.release(manager());
    assert_eq!(r, Request::UnmapPages { pageset: 7, va: 0x10_0000 });
    assert_eq!(
        u.resume(Ok(Words(0, 0, 0, 0)), &mut vm),
        (Request::CloseHandle { handle: 7 }, tells(21))
    );
    assert_eq!(vm.free_regions(), vec![(0x10_0000, 16)]);
}

#[test]
fn a_claim_that_fails_gives_the_device_back() {
    assert!(matches!(
        claim_typed(manager(), 0xfe20_1202, 0x100, 4),
        Err(ClaimError::LayoutMisaligned)
    ));
    assert!(matches!(
        claim_typed(manager(), 0xfe20_1f04, 0x100, 4),
        Err(ClaimError::LayoutTooLarge)
    ));
    let mut vm = memory();
    let claim = || claim_typed(manager(), 0xfe20_1200, 0x100, 4).unwrap().0;
    assert_eq!(
        done(claim().resume(Err(SyscallError::Kernel(1)), &mut vm)),
        Err(ClaimError::IpcFailed)
    );
    assert_eq!(
        done(claim().resume(Ok(Words(5, 0, 0, 0)), &mut vm)),
        Err(ClaimError::Rejected)
    );
    let (p, _) = asks(claim().resume(Ok(Words(0, 7, 33, 0)), &mut vm));
    let (p, r) = asks(p.resume(Err(SyscallError::Kernel(1)), &mut vm));
    assert_eq!(r, Request::CloseHandle { handle: 7 });
    let (p, r) = asks(p.resume(Ok(Words(0, 0, 0, 0)), &mut vm));
    assert_eq!(r, tells(21));
    assert_eq!(
        done(p.resume(Ok(Words(0, 0, 0, 0)), &mut vm)),
        Err(ClaimError::MapFailed)
    );
    assert_eq!(vm.free_regions(), vec![(0x10_0000, 16)]);
    vm.alloc_pages(16).unwrap();
    let (p, _) = asks(claim().resume(Ok(Words(0, 7, 33, 0)), &mut vm));
    let (p, _) = asks(p.resume(Ok(Words(0, 0, 0, 0)), &mut vm));
    assert_eq!(
        done(p.resume(Ok(Words(0, 0, 0, 0)), &mut vm)),
        Err(ClaimError::OutOfVirtualMemory)
    );
}

// --- the start of a driver -----------------------------------------------------------

fn boot() -> DriverBootstrap {
    DriverBootstrap {
        devmgr_ep: EndpointHandle(3),
        reply_obj: ReplyHandle(4),
        server_ep: Some(EndpointHandle(5)),
    }
}

#[test]
fn a_driver_learns_its_channels() {
    let (p, r) = driver_bootstrap();
    assert_eq!(r, Request::AllocPages { count: 1 });
    let (p, r) = asks(p.resume(Ok(Words(9, 0, 0, 0))));
    assert_eq!(r, Request::CreateReply { pageset: 9 });
    let (p, r) = asks(p.resume(Ok(Words(4, 0, 0, 0))));
    assert_eq!(r, Request::Call { endpoint: 0, reply: 4, message: Words(0, 0, 0, 0) });
    assert_eq!(done(p.resume(Ok(Words(5, 3, 0, 0)))), Ok(boot()));
    let none = done(p.resume(Ok(Words(0, 3, 0, 0)))).unwrap();
    assert_eq!(none.server_ep, None);
    assert_eq!(
        done(p.resume(Err(SyscallError::Kernel(1)))),
        Err(BootstrapError::IpcFailed)
    );
    let (p, _) = driver_bootstrap();
    assert_eq!(
        done(p.resume(Err(SyscallError::Kernel(1)))),
        Err(BootstrapError::AllocFailed)
    );
    let (p, _) = asks(driver_bootstrap().0.resume(Ok(Words(9, 0, 0, 0))));
    let (p, r) = asks(p.resume(Err(SyscallError::Kernel(1))));
    assert_eq!(r, Request::CloseHandle { handle: 9 });
    assert_eq!(done(p.resume(Ok(Words(0, 0, 0, 0)))), Err(BootstrapError::ReplyFailed));
}

#[test]
fn the_first_free_device_is_found() {
    let codes = ProbeCodes { probe_device: 30, probe_ok: 0, probe_end: 31 };
    let ask = |skip| Request::Call {
        endpoint: 3,
        reply: 4,
        message: Words(30, 0xabc, skip, 0),
    };
    let (p, r) = probe_by_hash(boot(), codes, 0xabc, 0);
    assert_eq!(r, ask(0));
    let (p, r) = asks(p.resume(Ok(Words(99, 0, 0, 0))));
    assert_eq!(r, ask(1));
    assert_eq!(
        done(p.resume(Ok(Words(0, 0xfe00, 33, 0)))),
        Ok(MmioProbe { mmio_addr: 0xfe00, intid: 33 })
    );
    assert_eq!(done(p.resume(Ok(Words(31, 0, 0, 0)))), Err(ProbeError::NotFound));
    assert_eq!(
        done(p.resume(Err(SyscallError::Kernel(1)))),
        Err(ProbeError::IpcFailed)
    );
}

#[test]
fn a_driver_binds_its_interrupt() {
    let (p, _) = bind_irq(33, 0);
    assert_eq!(done(p.resume(LOST)).err(), Some(IrqBindError::AllocFailed));
    let (p, _) = asks(bind_irq(33, 0).0.resume(Ok(7)));
    let (failed, r) = asks(p.resume(LOST));
    assert_eq!(r, Request::CloseHandle { handle: 7 });
    assert_eq!(done(failed.resume(Ok(0))).err(), Some(IrqBindError::CreateFailed));
    let (p, r) = asks(p.resume(Ok(8)));
    assert_eq!(r, Request::BindIrq { intid: 33, notification: 8, flags: 0 });
    let (failed, r) = asks(p.resume(LOST));
    assert_eq!(r, Request::CloseHandle { handle: 8 });
    assert_eq!(done(failed.resume(Ok(0))).err(), Some(IrqBindError::BindFailed));
    let bound = done(p.resume(Ok(0))).unwrap();
    assert_eq!((bound.notif, bound.initial_threshold), (NotificationHandle(8), 1));
}

#[test]
fn a_driver_that_cannot_start_says_so() {
    assert_eq!(boot_puts_and_halt("no\n"), (b"no\n".to_vec(), Request::Exit));
}

#[test]
fn a_loop_serves_messages_before_interrupts() {
    let mut s = EventServer::new(EndpointHandle(5), NotificationHandle(8), 1);
    let turn = |m, i| EventTurn { serve_message: m, serve_irq: i };
    assert_eq!(s.run_event_server(Ok(0)), turn(false, false));
    assert_eq!(s.run_event_server(Ok(1)), turn(true, false));
    assert_eq!(s.irq_threshold, 1);
    assert_eq!(s.run_event_server(Ok(2)), turn(false, true));
    assert_eq!(s.irq_threshold, 2);
    assert_eq!(s.run_event_server(Ok(3)), turn(true, true));
    assert_eq!(s.irq_threshold, 3);
    assert_eq!(s.run_event_server(LOST), turn(false, false));
    assert_eq!(s.message_answer(Some(7)), Words(7, 0, 0, 0));
    assert_eq!(s.message_answer(None), Words(0, 0, 0, 0));
}

// --- clocks --------------------------------------------------------------------------

#[test]
fn a_clock_answers_what_the_server_said() {
    let codes = ClockCodes {
        get_clock_handle: 40,
        set_rate: 41,
        get_rate: 42,
        enable: 43,
        disable: 44,
        ok: 0,
        err_not_supported: 50,
    };
    for r in [Ok(200_000_000), Err(ClockError::NotSupported(7)), Err(ClockError::Status(51))] {
        match run_clock_server(codes, 60, ServerEvent::Dispatched(r)) {
            ServerAction::Reply(w) => assert_eq!(decode_answer(codes, Ok(w)), r),
            other => panic!("{other:?}"),
        }
    }
    assert_eq!(
        run_clock_server(codes, 60, ServerEvent::Dispatched(Err(ClockError::IpcFailed))),
        ServerAction::Reply(Words(60, 0, 0, 0))
    );
    assert_eq!(
        run_clock_server(codes, 60, ServerEvent::Received(Ok(Words(41, 6, 100, 0)))),
        ServerAction::Dispatch { op: 41, clock_id_raw: 6, arg: 100 }
    );
    assert_eq!(
        run_clock_server(codes, 60, ServerEvent::Received(Err(SyscallError::Kernel(1)))),
        ServerAction::Receive
    );
    assert_eq!(
        run_clock_server(codes, 60, ServerEvent::Replied(Err(SyscallError::Kernel(1)))),
        ServerAction::Receive
    );
    assert_eq!(
        decode_answer(codes, Err(SyscallError::Kernel(1))),
        Err(ClockError::IpcFailed)
    );
    let (devmgr, reply) = (EndpointHandle(3), ReplyHandle(4));
    let call = |w: Words| Request::Call { endpoint: 3, reply: 4, message: w };
    assert_eq!(
        ClockClient::acquire(devmgr, reply, codes, 9, 38),
        call(Words(40, 9, 38, 0))
    );
    let c = ClockClient::acquired(devmgr, reply, codes, Ok(Words(0, 6, 0, 0))).unwrap();
    assert_eq!(c.set_rate(100), call(Words(41, 6, 100, 0)));
    assert_eq!(c.get_rate(), call(Words(42, 6, 0, 0)));
    assert_eq!(c.enable(), call(Words(43, 6, 0, 0)));
    assert_eq!(c.disable(), call(Words(44, 6, 0, 0)));
    assert_eq!(clock_request(Ok(Words(41, 6, 100, 0))), Some((41, 6, 100)));
    assert_eq!(clock_request(Err(SyscallError::Kernel(1))), None);
}

// --- configuration files and the display ---------------------------------------------

#[test]
fn a_file_is_found_by_its_whole_name() {
    let entry = |selector: u16, name: &[u8]| {
        let mut e = vec![0u8; 64];
        e[4..6].copy_from_slice(&selector.to_be_bytes());
        e[8..8 + name.len()].copy_from_slice(name);
        e
    };
    let mut dir = 2u32.to_be_bytes().to_vec();
    dir.extend(entry(0x20, b"etc/ramfb2"));
    dir.extend(entry(0x2a, b"etc/ramfb"));
    assert_eq!(directory_count(&dir), 2);
    assert_eq!(find_file(&dir, &b"etc/ramfb".to_vec()), Some(0x2a));
    assert_eq!(find_file(&dir, &b"etc/ram".to_vec()), None);
    // What lies behind the entry that is found need not have been read.
    let start = dir[..4 + 64].to_vec();
    assert!(read_enough(&start, &b"etc/ramfb2".to_vec()));
    assert_eq!(find_file(&start, &b"etc/ramfb2".to_vec()), Some(0x20));
    assert!(!read_enough(&start, &b"etc/ramfb".to_vec()));
    assert!(read_enough(&dir, &b"etc/ram".to_vec()));
    assert!(!read_enough(&dir[..3].to_vec(), &b"etc/ramfb".to_vec()));
    assert_eq!(dma_poll(true, true), Some(Err(FwCfgDmaError::DeviceError)));
    assert_eq!(dma_poll(false, true), Some(Ok(())));
    assert_eq!(dma_poll(false, false), None);
}

#[test]
fn a_picture_is_handed_to_the_firmware() {
    let mut vm = memory();
    let (p, _) = OwnedDmaMapping::<BuddyOrigin>::alloc_page();
    let (p, _) = asks(p.resume(Ok(7), &mut vm));
    let (p, _) = asks(p.resume(Ok(0x8000_0000), &mut vm));
    let (p, _) = asks(p.resume(Ok(0), &mut vm));
    let page = done(p.resume(Ok(0), &mut vm)).unwrap();
    assert_eq!(
        dma_write(&page, 0x40, 0x80, 0x2a, 12),
        FwCfgTransfer {
            header_va: 0x10_0040,
            selector: 0x2a,
            length: 12,
            payload_phys: 0x8000_0080,
            trigger: 0x8000_0040,
        }
    );
    let picture = Scanout { phys_addr: 0x9000, width: 320, height: 240, stride: 1280 };
    let program = program_ramfb(&page, 0x2a, 28, 5, picture);
    assert_eq!(program.config_va, 0x10_0010);
    assert_eq!((program.format, program.picture), (5, picture));
    assert_eq!(program.transfer, dma_write(&page, 0, 16, 0x2a, 28));
    assert_eq!(program_result(Ok(())), Ok(()));
    assert_eq!(
        program_result(Err(FwCfgDmaError::DeviceError)),
        Err(DisplayError::AllocFailed)
    );
}

#[test]
fn a_picture_is_shown() {
    let mut e = RamfbEngine::new(5);
    assert_eq!(e.mode_count(), 2);
    assert_eq!(e.get_mode(1).unwrap().width, 640);
    assert_eq!(e.get_mode(2), None);
    assert_eq!(e.create_session(), (Ok(()), "ramfb: session created\n"));
    assert_eq!(e.create_session(), (Err(DisplayError::SessionBusy), ""));
    assert!(has_picture_size(320, 240));
    assert!(!has_picture_size(u32::MAX, 1));
    assert!(!has_picture_size(1 << 20, 1 << 20));
    let plan = e.alloc_buffer(320, 240, 5).unwrap();
    assert_eq!((plan.pages, plan.stride, plan.size), (75, 1280, 307200));
    assert!(matches!(e.alloc_buffer(320, 240, 6), Err(DisplayError::InvalidMode)));
    assert!(matches!(e.alloc_buffer(0x8000_0000, 2, 6), Err(DisplayError::InvalidMode)));
    let ps = PageSetHandle(9);
    assert_eq!(
        e.buffer_made(Some(EngineBuffer { ps_handle: ps, phys_addr: 0x8000 })),
        (Ok(ps), "ramfb: buffer allocated\n")
    );
    assert_eq!(e.buffer_made(None), (Err(DisplayError::AllocFailed), ""));
    assert!(matches!(e.set_scanout(ps), Err(DisplayError::NotConfigured)));
    assert!(matches!(e.set_mode(2, ps), Err(DisplayError::InvalidMode)));
    assert!(matches!(e.set_mode(0, PageSetHandle(1)), Err(DisplayError::InvalidBuffer)));
    let s = e.set_mode(1, ps).unwrap();
    assert_eq!((s.phys_addr, s.width, s.height, s.stride), (0x8000, 640, 480, 2560));
    assert_eq!(e.mode_set(0, false), (Err(DisplayError::AllocFailed), ""));
    assert!(matches!(e.set_scanout(ps), Err(DisplayError::NotConfigured)));
    assert_eq!(e.mode_set(1, true), (Ok(()), "ramfb: mode set\n"));
    assert_eq!(e.set_scanout(ps).unwrap().width, 640);
    assert_eq!(e.free_buffer(ps), Some(Request::CloseHandle { handle: 9 }));
    assert_eq!(e.free_buffer(ps), None);
    assert_eq!(e.release_session(), "ramfb: session released\n");
    assert_eq!(e.create_session().0, Ok(()));
    for i in 0..8 {
        let b = EngineBuffer { ps_handle: PageSetHandle(20 + i), phys_addr: 0x8000 };
        assert_eq!(e.buffer_made(Some(b)).0, Ok(PageSetHandle(20 + i)));
    }
    assert!(matches!(e.alloc_buffer(0x8000_0000, 2, 5), Err(DisplayError::AllocFailed)));
}

#[test]
fn the_test_picture_is_a_checkerboard() {
    let p = self_test();
    assert_eq!(p.len(), 320 * 240);
    assert_eq!(self_test_pages(), 75);
    assert_eq!(p[0], 0xFFFF_FFFF);
    assert_eq!(p[16], 0xFF40_4040);
    assert_eq!(p[16 * 320], 0xFF40_4040);
    assert_eq!(p[16 * 320 + 16], 0xFFFF_FFFF);
}
