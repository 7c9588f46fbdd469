//! The serial console: what is sent for a text, and what is echoed for a key.

use crate::driver_runtime::{DriverCtx, EventServer};
use crate::time::{write_byte_deadline, MonoTicks, TxStep};
use vstd::prelude::*;
use vstd::string::StrSliceExecFns;
use vstd::string::StringSliceAdditionalSpecFns;

verus! {

/// A carriage return.
pub const CR: u8 = 0x0d;

/// A line feed.
pub const LF: u8 = 0x0a;

/// The nanoseconds after which a byte that cannot be sent is dropped.
pub const TX_TIMEOUT_NANOS: u64 = 10_000_000;

/// What the next turn of sending a byte does.
#[derive(Clone, Copy, Debug, PartialEq, Eq, Structural)]
pub enum PutStep {
    /// Look at the flags again.
    Again,
    /// Write the byte to the data register, and be done.
    Write(u32),
    /// The byte is dropped.
    Dropped,
}

/// One turn of sending a byte, whose deadline is [`TX_TIMEOUT_NANOS`] away when it starts: it
/// is written once the sender is not full, and dropped where that takes too long.
pub fn uart_putc(full: bool, c: u8, now: MonoTicks, deadline: MonoTicks) -> (r: PutStep)
    ensures
        r == if !full {
            PutStep::Write(c as u32)
        } else if deadline.is_past(now) {
            PutStep::Dropped
        } else {
            PutStep::Again
        },
{
    match write_byte_deadline(full, c, now, deadline) {
        TxStep::Again => PutStep::Again,
        TxStep::Write(word) => PutStep::Write(word),
        TxStep::Failed(_) => PutStep::Dropped,
    }
}

/// The bytes that are sent for the first `n` bytes of a text: a line feed is sent behind a
/// carriage return.
pub open spec fn sent(b: Seq<u8>, n: nat) -> Seq<u8>
    decreases n,
{
    if n == 0 {
        Seq::empty()
    } else {
        let head = sent(b, (n - 1) as nat);
        if b[n - 1] == LF {
            head.push(CR).push(LF)
        } else {
            head.push(b[n - 1])
        }
    }
}

/// The bytes that are sent for a text.
pub fn uart_puts(s: &str) -> (out: Vec<u8>)
    ensures
        out@ == sent(s.spec_bytes(), s.spec_bytes().len()),
{
    let bytes = s.as_bytes_vec();
    let mut out: Vec<u8> = Vec::new();
    let mut i: usize = 0;
    while i < bytes.len()
        invariant
            i <= bytes@.len(),
            out@ == sent(bytes@, i as nat),
        decreases bytes@.len() - i,
    {
        if bytes[i] == LF {
            out.push(CR);
        }
        out.push(bytes[i]);
        i += 1;
    }
    out
}

/// The byte that a message asks to send, which is its lowest, and the word that it is answered
/// with.
pub fn on_ipc(msg: u64) -> (r: (u8, u64))
    ensures
        r == (msg as u8, 0u64),
{
    (msg as u8, 0)
}

/// The bytes that are echoed for the first `n` keys: a carriage return is followed by a
/// line feed.
pub open spec fn echoed(b: Seq<u8>, n: nat) -> Seq<u8>
    decreases n,
{
    if n == 0 {
        Seq::empty()
    } else {
        let head = echoed(b, (n - 1) as nat).push(b[n - 1]);
        if b[n - 1] == CR {
            head.push(LF)
        } else {
            head
        }
    }
}

/// The bytes that are echoed for the keys that were received.
pub fn on_irq(received: &Vec<u8>) -> (out: Vec<u8>)
    ensures
        out@ == echoed(received@, received@.len()),
{
    let mut out: Vec<u8> = Vec::new();
    let mut i: usize = 0;
    while i < received.len()
        invariant
            i <= received@.len(),
            out@ == echoed(received@, i as nat),
        decreases received@.len() - i,
    {
        out.push(received[i]);
        if received[i] == CR {
            out.push(LF);
        }
        i += 1;
    }
    out
}

/// How the console starts, once it delivers an interrupt for every key: what is printed, what
/// is sent behind that, and the loop that serves it.
pub fn uart_main(ctx: DriverCtx) -> (r: (&'static str, Vec<u8>, EventServer))
    ensures
        r.0@ == "uart-driver: server ready\n"@,
        ({
            let banner = "uart-driver: UART1 active\n".spec_bytes();
            r.1@ == sent(banner, banner.len())
        }),
        r.2 == (EventServer {
            server_ep: ctx.server_ep,
            irq_notif: ctx.irq_notif,
            irq_threshold: ctx.irq_initial_threshold,
        }),
{
    (
        "uart-driver: server ready\n",
        uart_puts("uart-driver: UART1 active\n"),
        EventServer::new(ctx.server_ep, ctx.irq_notif, ctx.irq_initial_threshold),
    )
}

/// What is sent is the text with a carriage return before every line feed: without those the text
/// comes back, and behind every other byte stands what followed it.
pub proof fn lemma_sent(b: Seq<u8>, n: nat)
    requires
        n <= b.len(),
    ensures
        without_returns(sent(b, n)) == without_returns(b.take(n as int)),
        forall|i: int|
            0 <= i < sent(b, n).len() && #[trigger] sent(b, n)[i] == 0x0a ==> i > 0 && sent(b, n)[i
                - 1] == 0x0d,
    decreases n,
{
    reveal_with_fuel(without_returns, 3);
    if n > 0 {
        let m = (n - 1) as nat;
        lemma_sent(b, m);
        let head = sent(b, m);
        let all = sent(b, n);
        let t = b.take(n as int);
        assert(t.drop_last() =~= b.take(m as int));
        if b[n - 1] == 0x0a {
            let mid = head.push(0x0d);
            assert(all.drop_last() =~= mid);
            assert(mid.drop_last() =~= head);
        } else {
            assert(all.drop_last() =~= head);
        }
        assert forall|i: int| 0 <= i < all.len() && #[trigger] all[i] == 0x0a implies i > 0
            && all[i - 1] == 0x0d by {
            if i < head.len() {
                assert(all[i] == head[i]);
                assert(all[i - 1] == head[i - 1]);
            }
        }
    } else {
        assert(b.take(0) =~= Seq::empty());
    }
}

/// The bytes without the carriage returns.
pub open spec fn without_returns(b: Seq<u8>) -> Seq<u8>
    decreases b.len(),
{
    if b.len() == 0 {
        Seq::empty()
    } else if b.last() == 0x0d {
        without_returns(b.drop_last())
    } else {
        without_returns(b.drop_last()).push(b.last())
    }
}

/// Every key is echoed, and a line feed follows every carriage return.
pub proof fn lemma_echoed(b: Seq<u8>, n: nat, k: int)
    requires
        0 <= k < n <= b.len(),
    ensures
        b[k] != 0x0d ==> echoed(b, (k + 1) as nat) == echoed(b, k as nat).push(b[k]),
        b[k] == 0x0d ==> echoed(b, (k + 1) as nat) == echoed(b, k as nat).push(0x0d).push(0x0a),
        echoed(b, 0).len() == 0,
{
}

} // verus!
