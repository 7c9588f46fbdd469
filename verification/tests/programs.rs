use lockjaw::canary::{build_pattern, report, wait_for_child, Canary, ChildWait, ITERATIONS};
use lockjaw::console::{on_ipc, on_irq, uart_main, uart_putc, uart_puts, PutStep, TX_TIMEOUT_NANOS};
use lockjaw::driver_runtime::{DriverCtx, EventServer};
use lockjaw::print::{ipc_puts, put_decimal, put_hex, puts, puts2};
use lockjaw::handle::{EndpointHandle, NotificationHandle, PageSetHandle, ReplyHandle};
use lockjaw::syscall::{Request, Words};
use lockjaw::time::MonoTicks;

#[test]
fn patterns_differ_between_threads_iterations_and_registers() {
    let mut seen: Vec<u128> = Vec::new();
    for thread in 0..2 {
        for iteration in 0..ITERATIONS {
            let p = build_pattern(thread, iteration);
            assert_eq!(p.len(), 32);
            for v in &p {
                assert_ne!(*v as u64, 0);
                assert_ne!((*v >> 64) as u64, 0);
            }
            seen.extend(p);
        }
    }
    let n = seen.len();
    seen.sort();
    seen.dedup();
    assert_eq!(seen.len(), n);
    let low: u64 = 0xA55A_0000_0003_0002;
    assert_eq!(build_pattern(0, 3)[2], ((!low as u128) << 64) | low as u128);
    let low: u64 = 0xA45A_0000_0003_0002;
    assert_eq!(build_pattern(1, 3)[2], ((!low as u128) << 64) | low as u128);
}

#[test]
fn a_register_that_is_lost_is_reported() {
    let mut c = Canary::new(1);
    let mut got = c.next_pattern().unwrap();
    got[4] = 0x11;
    let lost = c.observe(&got);
    assert_eq!(lost.len(), 1);
    assert_eq!((lost[0].register, lost[0].iteration, c.failures), (4, 0, 1));
    assert_eq!(
        lost[0].line(),
        "[NEON-CANARY] MISMATCH t=1 iter=0 v4 expected_lo=0xa45a000000000004 \
         expected_hi=0x5ba5fffffffffffb got_lo=0x11 got_hi=0x0\n"
    );
    while let Some(p) = c.next_pattern() {
        assert!(c.observe(&p).is_empty());
    }
    assert_eq!((c.iteration, c.failures), (64, 1));
}

#[test]
fn the_verdict_needs_both_threads() {
    assert_eq!(
        report(0, 0),
        "[NEON-CANARY] iterations=64 threads=2 checks_per_thread=2048 failures_t0=0 \
         failures_t1=0\n[NEON-CANARY] PASS\n"
    );
    assert!(report(0, 3).ends_with("failures_t1=3\n[NEON-CANARY] FAIL\n"));
    assert!(report(2, 0).ends_with("[NEON-CANARY] FAIL\n"));
    assert_eq!(wait_for_child(true, 0), ChildWait::Finished);
    assert_eq!(wait_for_child(false, 5), ChildWait::Yield(6));
    assert_eq!(wait_for_child(false, 99_999), ChildWait::Yield(100_000));
    assert_eq!(wait_for_child(false, 100_000), ChildWait::GiveUp);
    assert_eq!(ChildWait::GiveUp.says(), "neon-canary: child never signalled done\n");
    assert_eq!(ChildWait::Yield(1).says(), "");
}

#[test]
fn bytes_for_a_terminal() {
    assert_eq!(uart_puts("a\nb"), b"a\r\nb".to_vec());
    assert_eq!(on_ipc(0x141), (0x41, 0));
    assert_eq!(on_irq(&b"x\ry".to_vec()), b"x\r\ny".to_vec());
}

#[test]
fn a_byte_is_dropped_when_the_sender_stays_full() {
    assert_eq!(TX_TIMEOUT_NANOS, 10_000_000);
    assert_eq!(uart_putc(false, 0x41, MonoTicks(9), MonoTicks(5)), PutStep::Write(0x41));
    assert_eq!(uart_putc(true, 0x41, MonoTicks(4), MonoTicks(5)), PutStep::Again);
    assert_eq!(uart_putc(true, 0x41, MonoTicks(5), MonoTicks(5)), PutStep::Dropped);
}

#[test]
fn the_console_starts() {
    let ctx = DriverCtx {
        regs_va: 0x1000,
        irq_intid: 33,
        irq_notif: NotificationHandle(5),
        irq_initial_threshold: 1,
        server_ep: EndpointHandle(6),
        devmgr_ep: EndpointHandle(7),
        reply_obj: ReplyHandle(8),
        mmio_pageset: PageSetHandle(9),
    };
    let (line, banner, server) = uart_main(ctx);
    assert_eq!(line, "uart-driver: server ready\n");
    assert_eq!(banner, b"uart-driver: UART1 active\r\n".to_vec());
    assert_eq!(server, EventServer::new(EndpointHandle(6), NotificationHandle(5), 1));
}

#[test]
fn numbers_are_printed() {
    assert_eq!(puts("hi\n"), b"hi\n".to_vec());
    assert_eq!(puts2("a", "b"), b"ab".to_vec());
    assert_eq!(put_decimal(0), b"0".to_vec());
    assert_eq!(put_decimal(u64::MAX), b"18446744073709551615".to_vec());
    assert_eq!(put_hex(0), b"0x0".to_vec());
    assert_eq!(put_hex(0xDEAD_beef), b"0xdeadbeef".to_vec());
}

#[test]
fn a_console_server_gets_byte_by_byte() {
    let call = |b: u64| Request::Call { endpoint: 3, reply: 4, message: Words(b, 0, 0, 0) };
    assert_eq!(
        ipc_puts(EndpointHandle(3), ReplyHandle(4), "ok"),
        vec![call(0x6f), call(0x6b)]
    );
}
