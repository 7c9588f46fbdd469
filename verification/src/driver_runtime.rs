//! How a driver starts: it learns its channels, finds and claims its device, binds the
//! device's interrupt, and serves requests and interrupts.

use crate::devmgr::ClaimError;
use crate::handle::{
    bootstrap_endpoint, EndpointHandle, NotificationHandle, PageSetHandle, ReplyHandle,
};
use crate::syscall::{Message, Reply, Request, Step, Words};
use vstd::prelude::*;
use vstd::string::StringSliceAdditionalSpecFns;

verus! {

// ---------------------------------------------------------------------------
// Channels
// ---------------------------------------------------------------------------

/// The channels of a driver.
#[derive(Clone, Copy, Debug, PartialEq, Eq, Structural)]
pub struct DriverBootstrap {
    pub devmgr_ep: EndpointHandle,
    pub reply_obj: ReplyHandle,
    /// Where the driver is asked; a driver may have no such endpoint.
    pub server_ep: Option<EndpointHandle>,
}

/// Why a driver could not learn its channels.
#[derive(Clone, Copy, Debug, PartialEq, Eq, Structural)]
pub enum BootstrapError {
    AllocFailed,
    ReplyFailed,
    IpcFailed,
}

/// Where the learning of the channels stands.
#[derive(Clone, Copy, Debug, PartialEq, Eq, Structural)]
pub enum BootstrapStage {
    Allocating,
    CreatingReply(PageSetHandle),
    Calling(ReplyHandle),
    /// The page is being closed after an error.
    Failing(BootstrapError),
}

/// How the learning of the channels goes on with an answer.
pub open spec fn bootstrap_next(stage: BootstrapStage, answer: Message) -> Step<
    BootstrapStage,
    Result<DriverBootstrap, BootstrapError>,
> {
    match (stage, answer) {
        (BootstrapStage::Allocating, Ok(w)) => Step::Ask(
            BootstrapStage::CreatingReply(PageSetHandle(w.0)),
            Request::CreateReply { pageset: w.0 },
        ),
        (BootstrapStage::Allocating, Err(_)) => Step::Done(Err(BootstrapError::AllocFailed)),
        (BootstrapStage::CreatingReply(_), Ok(w)) => Step::Ask(
            BootstrapStage::Calling(ReplyHandle(w.0)),
            Request::Call { endpoint: 0, reply: w.0, message: Words(0, 0, 0, 0) },
        ),
        (BootstrapStage::CreatingReply(ps), Err(_)) => Step::Ask(
            BootstrapStage::Failing(BootstrapError::ReplyFailed),
            Request::CloseHandle { handle: ps.0 },
        ),
        (BootstrapStage::Calling(reply_obj), Ok(w)) => Step::Done(
            Ok(
                DriverBootstrap {
                    devmgr_ep: EndpointHandle(w.1),
                    reply_obj,
                    server_ep: if w.0 == 0 {
                        None
                    } else {
                        Some(EndpointHandle(w.0))
                    },
                },
            ),
        ),
        (BootstrapStage::Calling(_), Err(_)) => Step::Done(Err(BootstrapError::IpcFailed)),
        (BootstrapStage::Failing(e), _) => Step::Done(Err(e)),
    }
}

/// Learns the channels of a driver.
pub fn driver_bootstrap() -> (r: (BootstrapStage, Request))
    ensures
        r.0 == BootstrapStage::Allocating,
        r.1 == (Request::AllocPages { count: 1 }),
{
    (BootstrapStage::Allocating, Request::AllocPages { count: 1 })
}

impl BootstrapStage {
    /// Goes on with an answer.
    pub fn resume(self, answer: Message) -> (r: Step<
        BootstrapStage,
        Result<DriverBootstrap, BootstrapError>,
    >)
        ensures
            r == bootstrap_next(self, answer),
    {
        match self {
            BootstrapStage::Allocating => match answer {
                Ok(w) => Step::Ask(
                    BootstrapStage::CreatingReply(PageSetHandle(w.0)),
                    Request::CreateReply { pageset: w.0 },
                ),
                Err(_) => Step::Done(Err(BootstrapError::AllocFailed)),
            },
            BootstrapStage::CreatingReply(ps) => match answer {
                Ok(w) => Step::Ask(
                    BootstrapStage::Calling(ReplyHandle(w.0)),
                    Request::Call {
                        endpoint: bootstrap_endpoint().0,
                        reply: w.0,
                        message: Words(0, 0, 0, 0),
                    },
                ),
                Err(_) => Step::Ask(
                    BootstrapStage::Failing(BootstrapError::ReplyFailed),
                    Request::CloseHandle { handle: ps.0 },
                ),
            },
            BootstrapStage::Calling(reply_obj) => match answer {
                Ok(w) => {
                    let server_ep = if w.0 == 0 {
                        None
                    } else {
                        Some(EndpointHandle(w.0))
                    };
                    Step::Done(
                        Ok(
                            DriverBootstrap {
                                devmgr_ep: EndpointHandle(w.1),
                                reply_obj,
                                server_ep,
                            },
                        ),
                    )
                },
                Err(_) => Step::Done(Err(BootstrapError::IpcFailed)),
            },
            BootstrapStage::Failing(e) => Step::Done(Err(e)),
        }
    }
}

// ---------------------------------------------------------------------------
// Finding the device
// ---------------------------------------------------------------------------

/// A device that was found.
#[derive(Clone, Copy, Debug, PartialEq, Eq, Structural)]
pub struct MmioProbe {
    pub mmio_addr: u64,
    pub intid: u32,
}

/// Why no device was found.
#[derive(Clone, Copy, Debug, PartialEq, Eq, Structural)]
pub enum ProbeError {
    IpcFailed,
    NotFound,
}

/// The numbers of the device manager's probe protocol.
#[derive(Clone, Copy, Debug, PartialEq, Eq, Structural)]
pub struct ProbeCodes {
    pub probe_device: u64,
    pub probe_ok: u64,
    pub probe_end: u64,
}

/// A search for a device: for which kind, and how many matches to skip.
#[derive(Clone, Copy, Debug, PartialEq, Eq, Structural)]
pub struct ProbePending {
    pub boot: DriverBootstrap,
    pub codes: ProbeCodes,
    pub compatible_hash: u64,
    pub skip: u64,
}

impl ProbePending {
    /// The call that asks for the match after those that are skipped.
    pub open spec fn asks(self) -> Request {
        Request::Call {
            endpoint: self.boot.devmgr_ep.0,
            reply: self.boot.reply_obj.0,
            message: Words(self.codes.probe_device, self.compatible_hash, self.skip, 0),
        }
    }

    fn ask(&self) -> (r: Request)
        ensures
            r == self.asks(),
    {
        Request::Call {
            endpoint: self.boot.devmgr_ep.0,
            reply: self.boot.reply_obj.0,
            message: Words(self.codes.probe_device, self.compatible_hash, self.skip, 0),
        }
    }
}

/// Searches for a device of the given kind that nobody has claimed.
pub fn probe_by_hash(
    boot: DriverBootstrap,
    codes: ProbeCodes,
    compatible_hash: u64,
    initial_skip: u64,
) -> (r: (ProbePending, Request))
    ensures
        r.0 == (ProbePending { boot, codes, compatible_hash, skip: initial_skip }),
        r.1 == r.0.asks(),
{
    let p = ProbePending { boot, codes, compatible_hash, skip: initial_skip };
    let request = p.ask();
    (p, request)
}

/// How a search goes on with an answer: it ends with the list, or with a device that is
/// free, and goes on to the next match otherwise.
pub open spec fn probe_next(p: ProbePending, answer: Message) -> Step<
    ProbePending,
    Result<MmioProbe, ProbeError>,
> {
    match answer {
        Err(_) => Step::Done(Err(ProbeError::IpcFailed)),
        Ok(w) => if w.0 == p.codes.probe_end {
            Step::Done(Err(ProbeError::NotFound))
        } else if w.0 != p.codes.probe_ok {
            let next = ProbePending { skip: (p.skip + 1) as u64, ..p };
            Step::Ask(next, next.asks())
        } else {
            Step::Done(Ok(MmioProbe { mmio_addr: w.1, intid: w.2 as u32 }))
        },
    }
}

impl ProbePending {
    /// Goes on with an answer.
    pub fn resume(self, answer: Message) -> (r: Step<
        ProbePending,
        Result<MmioProbe, ProbeError>,
    >)
        requires
            self.skip < u64::MAX,
        ensures
            r == probe_next(self, answer),
    {
        match answer {
            Err(_) => Step::Done(Err(ProbeError::IpcFailed)),
            Ok(w) => {
                if w.0 == self.codes.probe_end {
                    return Step::Done(Err(ProbeError::NotFound));
                }
                if w.0 != self.codes.probe_ok {
                    let next = ProbePending {
                        boot: self.boot,
                        codes: self.codes,
                        compatible_hash: self.compatible_hash,
                        skip: self.skip + 1,
                    };
                    let request = next.ask();
                    return Step::Ask(next, request);
                }
                Step::Done(Ok(MmioProbe { mmio_addr: w.1, intid: w.2 as u32 }))
            },
        }
    }
}

/// What a search comes to when the manager gives the answers in `answers`; `None` where
/// it needs more.
pub open spec fn probe_result(p: ProbePending, answers: Seq<Message>) -> Option<
    Result<MmioProbe, ProbeError>,
>
    decreases answers.len(),
{
    if answers.len() == 0 {
        None
    } else {
        match probe_next(p, answers[0]) {
            Step::Ask(next, _) => probe_result(next, answers.skip(1)),
            Step::Done(r) => Some(r),
        }
    }
}

/// Whether an answer is one that the search passes over.
pub open spec fn is_skipped(codes: ProbeCodes, answer: Message) -> bool {
    answer matches Ok(w) && w.0 != codes.probe_end && w.0 != codes.probe_ok
}

/// A search returns the first device that is free: those before it are passed over.
pub proof fn lemma_probe_first(p: ProbePending, answers: Seq<Message>, k: int)
    requires
        0 <= k < answers.len(),
        p.skip + k < u64::MAX,
        forall|i: int| 0 <= i < k ==> is_skipped(p.codes, #[trigger] answers[i]),
        answers[k] matches Ok(w) && w.0 == p.codes.probe_ok && w.0 != p.codes.probe_end,
    ensures
        probe_result(p, answers) == Some(
            Ok::<MmioProbe, ProbeError>(
                MmioProbe { mmio_addr: (answers[k]->Ok_0).1, intid: (answers[k]->Ok_0).2 as u32 },
            ),
        ),
    decreases k,
{
    if k > 0 {
        assert(is_skipped(p.codes, answers[0]));
        let next = ProbePending { skip: (p.skip + 1) as u64, ..p };
        let rest = answers.skip(1);
        assert(rest[k - 1] == answers[k]);
        assert forall|i: int| 0 <= i < k - 1 implies is_skipped(
            next.codes,
            #[trigger] rest[i],
        ) by {
            assert(rest[i] == answers[i + 1]);
        }
        lemma_probe_first(next, rest, k - 1);
    }
}

// ---------------------------------------------------------------------------
// Binding the interrupt
// ---------------------------------------------------------------------------

/// Why an interrupt could not be bound.
#[derive(Clone, Copy, Debug, PartialEq, Eq, Structural)]
pub enum IrqBindError {
    AllocFailed,
    CreateFailed,
    BindFailed,
}

/// An interrupt that was bound, and the count that the first wait is for.
#[derive(Clone, Copy, Debug, PartialEq, Eq, Structural)]
pub struct BoundIrq {
    pub notif: NotificationHandle,
    pub initial_threshold: u64,
}

/// Where the binding stands.
#[derive(Clone, Copy, Debug, PartialEq, Eq, Structural)]
pub enum IrqBindStage {
    Allocating,
    Creating(PageSetHandle),
    Binding(NotificationHandle),
    /// What was made so far is being closed after an error.
    Failing(IrqBindError),
}

/// A binding that is under way.
#[derive(Clone, Copy, Debug, PartialEq, Eq, Structural)]
pub struct IrqBindPending {
    pub stage: IrqBindStage,
    pub intid: u32,
    pub flags: u64,
}

/// How a binding goes on with the kernel's answer.
pub open spec fn irq_bind_next(p: IrqBindPending, reply: Reply) -> Step<
    IrqBindPending,
    Result<BoundIrq, IrqBindError>,
> {
    match (p.stage, reply) {
        (IrqBindStage::Allocating, Ok(h)) => Step::Ask(
            IrqBindPending { stage: IrqBindStage::Creating(PageSetHandle(h)), ..p },
            Request::CreateNotification { pageset: h },
        ),
        (IrqBindStage::Allocating, Err(_)) => Step::Done(Err(IrqBindError::AllocFailed)),
        (IrqBindStage::Creating(_), Ok(n)) => Step::Ask(
            IrqBindPending { stage: IrqBindStage::Binding(NotificationHandle(n)), ..p },
            Request::BindIrq { intid: p.intid as u64, notification: n, flags: p.flags },
        ),
        (IrqBindStage::Creating(ps), Err(_)) => Step::Ask(
            IrqBindPending { stage: IrqBindStage::Failing(IrqBindError::CreateFailed), ..p },
            Request::CloseHandle { handle: ps.0 },
        ),
        (IrqBindStage::Binding(n), Ok(_)) => Step::Done(
            Ok(BoundIrq { notif: n, initial_threshold: 1 }),
        ),
        (IrqBindStage::Binding(n), Err(_)) => Step::Ask(
            IrqBindPending { stage: IrqBindStage::Failing(IrqBindError::BindFailed), ..p },
            Request::CloseHandle { handle: n.0 },
        ),
        (IrqBindStage::Failing(e), _) => Step::Done(Err(e)),
    }
}

/// Binds an interrupt to a notification.
pub fn bind_irq(intid: u32, flags: u64) -> (r: (IrqBindPending, Request))
    ensures
        r.0 == (IrqBindPending { stage: IrqBindStage::Allocating, intid, flags }),
        r.1 == (Request::AllocPages { count: 1 }),
{
    (
        IrqBindPending { stage: IrqBindStage::Allocating, intid, flags },
        Request::AllocPages { count: 1 },
    )
}

impl IrqBindPending {
    /// Goes on with the kernel's answer.
    pub fn resume(self, reply: Reply) -> (r: Step<IrqBindPending, Result<BoundIrq, IrqBindError>>)
        ensures
            r == irq_bind_next(self, reply),
    {
        let intid = self.intid;
        let flags = self.flags;
        match self.stage {
            IrqBindStage::Allocating => match reply {
                Ok(h) => Step::Ask(
                    IrqBindPending {
                        stage: IrqBindStage::Creating(PageSetHandle(h)),
                        intid,
                        flags,
                    },
                    Request::CreateNotification { pageset: h },
                ),
                Err(_) => Step::Done(Err(IrqBindError::AllocFailed)),
            },
            IrqBindStage::Creating(ps) => match reply {
                Ok(n) => Step::Ask(
                    IrqBindPending {
                        stage: IrqBindStage::Binding(NotificationHandle(n)),
                        intid,
                        flags,
                    },
                    Request::BindIrq { intid: intid as u64, notification: n, flags },
                ),
                Err(_) => Step::Ask(
                    IrqBindPending {
                        stage: IrqBindStage::Failing(IrqBindError::CreateFailed),
                        intid,
                        flags,
                    },
                    Request::CloseHandle { handle: ps.0 },
                ),
            },
            IrqBindStage::Binding(notif) => match reply {
                Ok(_) => Step::Done(Ok(BoundIrq { notif, initial_threshold: 1 })),
                Err(_) => Step::Ask(
                    IrqBindPending {
                        stage: IrqBindStage::Failing(IrqBindError::BindFailed),
                        intid,
                        flags,
                    },
                    Request::CloseHandle { handle: notif.0 },
                ),
            },
            IrqBindStage::Failing(e) => Step::Done(Err(e)),
        }
    }
}

// ---------------------------------------------------------------------------
// The usual start
// ---------------------------------------------------------------------------

/// Why a driver could not start.
#[derive(Clone, Copy, Debug, PartialEq, Eq, Structural)]
pub enum DriverInitError {
    Bootstrap(BootstrapError),
    Probe(ProbeError),
    Claim(ClaimError),
    IrqBind(IrqBindError),
    NoServerEndpoint,
}

/// What a driver has once it started.
#[derive(Clone, Copy, Debug, PartialEq, Eq, Structural)]
pub struct DriverCtx {
    pub regs_va: u64,
    pub irq_intid: u32,
    pub irq_notif: NotificationHandle,
    pub irq_initial_threshold: u64,
    pub server_ep: EndpointHandle,
    pub devmgr_ep: EndpointHandle,
    pub reply_obj: ReplyHandle,
    pub mmio_pageset: PageSetHandle,
}

/// What a driver does that cannot start: the text to put out, and the request behind it.
pub fn boot_puts_and_halt(msg: &str) -> (r: (Vec<u8>, Request))
    ensures
        r.0@ == msg.spec_bytes(),
        r.1 == Request::Exit,
{
    (crate::print::puts(msg), Request::Exit)
}

// ---------------------------------------------------------------------------
// Serving
// ---------------------------------------------------------------------------

/// The driver behind the loop. The loop makes these calls.
pub trait EventEngine {
    fn on_ipc(&mut self, msg: u64) -> u64;

    fn on_irq(&mut self);
}

/// What the loop waits for: a message, or the interrupt's next count.
#[derive(Clone, Copy, Debug, PartialEq, Eq, Structural)]
pub struct EventServer {
    pub server_ep: EndpointHandle,
    pub irq_notif: NotificationHandle,
    pub irq_threshold: u64,
}

/// What the loop does with what it was woken for, in this order.
#[derive(Clone, Copy, Debug, PartialEq, Eq, Structural)]
pub struct EventTurn {
    /// Receive a message, and answer it.
    pub serve_message: bool,
    /// Serve the interrupt.
    pub serve_irq: bool,
}

/// Whether a number has its lowest bit set.
pub open spec fn first_bit(mask: u64) -> bool {
    mask % 2 == 1
}

/// Whether a number has its second bit set.
pub open spec fn second_bit(mask: u64) -> bool {
    (mask / 2) % 2 == 1
}

impl EventServer {
    pub fn new(
        server_ep: EndpointHandle,
        irq_notif: NotificationHandle,
        irq_initial_threshold: u64,
    ) -> (r: Self)
        ensures
            r == (EventServer { server_ep, irq_notif, irq_threshold: irq_initial_threshold }),
    {
        EventServer { server_ep, irq_notif, irq_threshold: irq_initial_threshold }
    }

    /// One turn of the loop, given what the wait was answered: bit zero is the message,
    /// bit one the interrupt. After an interrupt the next wait is for one more. A wait that
    /// failed is made again.
    pub fn run_event_server(&mut self, reply: Reply) -> (r: EventTurn)
        requires
            old(self).irq_threshold < u64::MAX,
        ensures
            final(self).server_ep == old(self).server_ep,
            final(self).irq_notif == old(self).irq_notif,
            match reply {
                Err(_) => r == (EventTurn { serve_message: false, serve_irq: false })
                    && *final(self) == *old(self),
                Ok(mask) => {
                    &&& r.serve_message == first_bit(mask)
                    &&& r.serve_irq == second_bit(mask)
                    &&& final(self).irq_threshold == if r.serve_irq {
                        old(self).irq_threshold + 1
                    } else {
                        old(self).irq_threshold as int
                    }
                },
            },
    {
        match reply {
            Err(_) => EventTurn { serve_message: false, serve_irq: false },
            Ok(mask) => {
                let serve_message = mask % 2 == 1;
                let serve_irq = (mask / 2) % 2 == 1;
                if serve_irq {
                    self.irq_threshold = self.irq_threshold + 1;
                }
                EventTurn { serve_message, serve_irq }
            },
        }
    }

    /// The answer to a message, given what the engine made of it; a message that could not
    /// be received is answered with zero.
    pub fn message_answer(&self, answered: Option<u64>) -> (r: Words)
        ensures
            r == Words(
                match answered {
                    Some(word) => word,
                    None => 0,
                },
                0,
                0,
                0,
            ),
    {
        match answered {
            Some(word) => Words(word, 0, 0, 0),
            None => Words(0, 0, 0, 0),
        }
    }
}

/// How a driver learns its channels: it has a page made its reply object and, with it, asks the
/// program that started it; the answer's first word is its own endpoint, where that is not zero,
/// and the second the manager's.
pub proof fn lemma_bootstrap_run(page: Words, reply: Words, w: Words)
    ensures
        bootstrap_next(BootstrapStage::Allocating, Ok(page)) matches Step::Ask(s1, r1) && r1 == (
        Request::CreateReply { pageset: page.0 }) && (bootstrap_next(s1, Ok(reply)) matches Step::Ask(
            s2,
            r2,
        ) && r2 == (Request::Call { endpoint: 0, reply: reply.0, message: Words(0, 0, 0, 0) }) && (
        bootstrap_next(s2, Ok(w)) matches Step::Done(Ok(b)) && b.reply_obj.0 == reply.0
            && b.devmgr_ep.0 == w.1 && (w.0 == 0 ==> b.server_ep is None) && (w.0 != 0
            ==> b.server_ep == Some(EndpointHandle(w.0))))),
{
}

/// A page that was not made a reply object is given back.
pub proof fn lemma_bootstrap_fails(
    ps: PageSetHandle,
    reply: ReplyHandle,
    e: crate::syscall::SyscallError,
    any: Message,
)
    ensures
        bootstrap_next(BootstrapStage::Allocating, Err(e)) == Step::<
            BootstrapStage,
            Result<DriverBootstrap, BootstrapError>,
        >::Done(Err(BootstrapError::AllocFailed)),
        bootstrap_next(BootstrapStage::CreatingReply(ps), Err(e)) matches Step::Ask(s, r) && r == (
        Request::CloseHandle { handle: ps.0 }) && bootstrap_next(s, any) == Step::<
            BootstrapStage,
            Result<DriverBootstrap, BootstrapError>,
        >::Done(Err(BootstrapError::ReplyFailed)),
        bootstrap_next(BootstrapStage::Calling(reply), Err(e)) == Step::<
            BootstrapStage,
            Result<DriverBootstrap, BootstrapError>,
        >::Done(Err(BootstrapError::IpcFailed)),
{
}

/// How a search asks: the manager is sent the kind of device and how many matches to pass by; a
/// match that is taken has it asked for the next.
pub proof fn lemma_probe_asks(p: ProbePending, w: Words)
    requires
        p.skip < u64::MAX,
    ensures
        p.asks() == (Request::Call {
            endpoint: p.boot.devmgr_ep.0,
            reply: p.boot.reply_obj.0,
            message: Words(p.codes.probe_device, p.compatible_hash, p.skip, 0),
        }),
        w.0 == p.codes.probe_end ==> probe_next(p, Ok(w)) == Step::<
            ProbePending,
            Result<MmioProbe, ProbeError>,
        >::Done(Err(ProbeError::NotFound)),
        w.0 != p.codes.probe_end && w.0 != p.codes.probe_ok ==> (probe_next(p, Ok(w)) matches
            Step::Ask(q, r) && r == (Request::Call {
            endpoint: p.boot.devmgr_ep.0,
            reply: p.boot.reply_obj.0,
            message: Words(p.codes.probe_device, p.compatible_hash, (p.skip + 1) as u64, 0),
        }) && q.skip == p.skip + 1),
{
}

/// How an interrupt is bound: a page is made a notification, and the interrupt with the given
/// flags is bound to it; its first count to wait for is one.
pub proof fn lemma_irq_bound(p: IrqBindPending, page: u64, n: u64, x: u64)
    requires
        p.stage is Allocating,
    ensures
        irq_bind_next(p, Ok(page)) matches Step::Ask(q, r1) && r1 == (Request::CreateNotification {
            pageset: page,
        }) && (irq_bind_next(q, Ok(n)) matches Step::Ask(s, r2) && r2 == (Request::BindIrq {
            intid: p.intid as u64,
            notification: n,
            flags: p.flags,
        }) && (irq_bind_next(s, Ok(x)) matches Step::Done(Ok(b)) && b.notif.0 == n
            && b.initial_threshold == 1)),
{
}

/// What was made for a binding that fails is closed.
pub proof fn lemma_irq_bind_fails(
    p: IrqBindPending,
    ps: PageSetHandle,
    n: NotificationHandle,
    e: crate::syscall::SyscallError,
    any: Reply,
)
    ensures
        p.stage == IrqBindStage::Allocating ==> irq_bind_next(p, Err(e)) == Step::<
            IrqBindPending,
            Result<BoundIrq, IrqBindError>,
        >::Done(Err(IrqBindError::AllocFailed)),
        p.stage == IrqBindStage::Creating(ps) ==> (irq_bind_next(p, Err(e)) matches Step::Ask(q, r)
            && r == (Request::CloseHandle { handle: ps.0 }) && irq_bind_next(q, any) == Step::<
            IrqBindPending,
            Result<BoundIrq, IrqBindError>,
        >::Done(Err(IrqBindError::CreateFailed))),
        p.stage == IrqBindStage::Binding(n) ==> (irq_bind_next(p, Err(e)) matches Step::Ask(q, r)
            && r == (Request::CloseHandle { handle: n.0 }) && irq_bind_next(q, any) == Step::<
            IrqBindPending,
            Result<BoundIrq, IrqBindError>,
        >::Done(Err(IrqBindError::BindFailed))),
{
}

/// The bits that are looked at are the two lowest.
pub proof fn lemma_turn_bits(mask: u64)
    ensures
        first_bit(mask) <==> mask & 1 == 1,
        second_bit(mask) <==> mask & 2 == 2,
{
    assert(mask % 2 == 1 <==> mask & 1 == 1) by (bit_vector);
    assert((mask / 2) % 2 == 1 <==> mask & 2 == 2) by (bit_vector);
}

} // verus!
