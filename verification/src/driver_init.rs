//! How drivers get their device: they learn their channels, search for a device of their
//! kind, claim it, and bind its interrupt.

use crate::devmgr::{ClaimError, ClaimedDevice};
use crate::driver_runtime::{
    BootstrapError, BoundIrq, DriverBootstrap, DriverCtx, DriverInitError, IrqBindError, MmioProbe,
    ProbeError,
};
use crate::handle::EndpointHandle;
use crate::startup::{exit, go, say_do, say_exit, say_serve, serve, Next, Said, StartStep};
use crate::syscall::IRQ_FLAG_EDGE;
use crate::virtio::VIRTIO_MMIO_MAGIC_VALUE;
use vstd::prelude::*;

verus! {

/// What a driver does next.
#[derive(Clone, Copy, Debug, PartialEq, Eq, Structural)]
pub enum InitAction {
    /// Learn the driver's channels.
    Bootstrap,
    /// Search for a device, after so many matches.
    Probe { boot: DriverBootstrap, compatible_hash: u64, skip: u64 },
    Claim { boot: DriverBootstrap, mmio_addr: u64 },
    /// Read the magic and the class of a virtio device.
    ReadIdentity { regs_va: u64 },
    /// Give a device back.
    Release { boot: DriverBootstrap, device: ClaimedDevice },
    BindIrq { intid: u32, flags: u64 },
}

/// What came of it.
#[derive(Clone, Copy, Debug)]
pub enum InitEvent {
    Started,
    Booted(Result<DriverBootstrap, BootstrapError>),
    Probed(Result<MmioProbe, ProbeError>),
    Claimed(Result<ClaimedDevice, ClaimError>),
    Identity { magic: u32, device_id: u32 },
    Released,
    Bound(Result<BoundIrq, IrqBindError>),
}

/// What a driver has once its device's interrupt was bound.
pub open spec fn ctx_of(
    boot: DriverBootstrap,
    server_ep: EndpointHandle,
    device: ClaimedDevice,
    bound: BoundIrq,
) -> DriverCtx {
    DriverCtx {
        regs_va: device.regs_va,
        irq_intid: device.irq_intid,
        irq_notif: bound.notif,
        irq_initial_threshold: bound.initial_threshold,
        server_ep,
        devmgr_ep: boot.devmgr_ep,
        reply_obj: boot.reply_obj,
        mmio_pageset: device.mmio_pageset,
    }
}

fn make_ctx(
    boot: DriverBootstrap,
    server_ep: EndpointHandle,
    device: ClaimedDevice,
    bound: BoundIrq,
) -> (r: DriverCtx)
    ensures
        r == ctx_of(boot, server_ep, device, bound),
{
    DriverCtx {
        regs_va: device.regs_va,
        irq_intid: device.irq_intid,
        irq_notif: bound.notif,
        irq_initial_threshold: bound.initial_threshold,
        server_ep,
        devmgr_ep: boot.devmgr_ep,
        reply_obj: boot.reply_obj,
        mmio_pageset: device.mmio_pageset,
    }
}

fn branded(name: &str, text: &str) -> (r: String)
    ensures
        r@ == name@ + text@,
{
    let mut r = crate::text::copy_of(name);
    r.append(text);
    r
}

// ---------------------------------------------------------------------------
// The usual driver
// ---------------------------------------------------------------------------

/// What the usual driver comes to: its device, or why it has none.
pub type Standard = Result<DriverCtx, DriverInitError>;

/// What the usual driver waits for.
#[derive(Clone, Copy, Debug, PartialEq, Eq, Structural)]
pub enum StandardStage {
    Begin,
    Bootstrapping,
    Probing(DriverBootstrap, EndpointHandle),
    Claiming(DriverBootstrap, EndpointHandle),
    Binding(DriverBootstrap, EndpointHandle, ClaimedDevice),
    Over,
}

/// Whether an event is one that the usual driver waits for.
pub open spec fn standard_awaits(stage: StandardStage, event: InitEvent) -> bool {
    match stage {
        StandardStage::Begin => event is Started,
        StandardStage::Bootstrapping => event is Booted,
        StandardStage::Probing(_, _) => event is Probed,
        StandardStage::Claiming(_, _) => event is Claimed,
        StandardStage::Binding(_, _, _) => event is Bound,
        StandardStage::Over => false,
    }
}

/// The usual driver has come to something.
pub open spec fn standard_over(say: Seq<char>, r: Standard) -> (
    StandardStage,
    Said<InitAction, Standard>,
) {
    (StandardStage::Over, say_serve(say, r))
}

/// What the usual driver does once an event has come.
pub open spec fn standard_next(
    name: Seq<char>,
    hash: u64,
    stage: StandardStage,
    event: InitEvent,
) -> (StandardStage, Said<InitAction, Standard>) {
    match (stage, event) {
        (StandardStage::Begin, _) => (
            StandardStage::Bootstrapping,
            say_do(""@, InitAction::Bootstrap),
        ),
        (StandardStage::Bootstrapping, InitEvent::Booted(Ok(boot))) => match boot.server_ep {
            Some(ep) => (
                StandardStage::Probing(boot, ep),
                say_do(
                    name + ": bootstrapped\n"@,
                    InitAction::Probe { boot, compatible_hash: hash, skip: 0 },
                ),
            ),
            None => standard_over(
                name + ": bootstrapped\n"@,
                Err(DriverInitError::NoServerEndpoint),
            ),
        },
        (StandardStage::Bootstrapping, InitEvent::Booted(Err(e))) => standard_over(
            ""@,
            Err(DriverInitError::Bootstrap(e)),
        ),
        (StandardStage::Probing(boot, ep), InitEvent::Probed(Ok(probe))) => (
            StandardStage::Claiming(boot, ep),
            say_do(""@, InitAction::Claim { boot, mmio_addr: probe.mmio_addr }),
        ),
        (StandardStage::Probing(_, _), InitEvent::Probed(Err(e))) => standard_over(
            ""@,
            Err(DriverInitError::Probe(e)),
        ),
        (StandardStage::Claiming(boot, ep), InitEvent::Claimed(Ok(device))) => (
            StandardStage::Binding(boot, ep, device),
            say_do(
                ""@,
                InitAction::BindIrq { intid: device.irq_intid, flags: IRQ_FLAG_EDGE },
            ),
        ),
        (StandardStage::Claiming(_, _), InitEvent::Claimed(Err(e))) => standard_over(
            ""@,
            Err(DriverInitError::Claim(e)),
        ),
        (StandardStage::Binding(boot, ep, device), InitEvent::Bound(Ok(bound))) => standard_over(
            name + ": IRQ bound\n"@,
            Ok(ctx_of(boot, ep, device, bound)),
        ),
        (StandardStage::Binding(_, _, _), InitEvent::Bound(Err(e))) => standard_over(
            ""@,
            Err(DriverInitError::IrqBind(e)),
        ),
        _ => standard_over(""@, Err(DriverInitError::NoServerEndpoint)),
    }
}

/// The usual driver, which is called by a name and has a device of one kind.
pub struct StandardInit {
    pub name: String,
    pub compatible_hash: u64,
    pub stage: StandardStage,
}

impl StandardInit {
    pub fn new(name: &str, compatible_hash: u64) -> (r: Self)
        ensures
            r.name@ == name@,
            r.compatible_hash == compatible_hash,
            r.stage == StandardStage::Begin,
    {
        StandardInit {
            name: crate::text::copy_of(name),
            compatible_hash,
            stage: StandardStage::Begin,
        }
    }

    fn end(&mut self, say: &str, result: Standard) -> (r: StartStep<InitAction, Standard>)
        ensures
            final(self).name == old(self).name,
            final(self).compatible_hash == old(self).compatible_hash,
            (final(self).stage, r@) == standard_over(say@, result),
    {
        self.stage = StandardStage::Over;
        serve(say, result)
    }

    fn wait(&mut self, stage: StandardStage, say: &str, action: InitAction) -> (r: StartStep<
        InitAction,
        Standard,
    >)
        ensures
            final(self).name == old(self).name,
            final(self).compatible_hash == old(self).compatible_hash,
            final(self).stage == stage,
            r@ == say_do::<InitAction, Standard>(say@, action),
    {
        self.stage = stage;
        go(say, action)
    }

    /// What the driver does once an event has come.
    pub fn standard_driver_init(&mut self, event: InitEvent) -> (r: StartStep<
        InitAction,
        Standard,
    >)
        requires
            standard_awaits(old(self).stage, event),
        ensures
            final(self).name == old(self).name,
            final(self).compatible_hash == old(self).compatible_hash,
            (final(self).stage, r@) == standard_next(
                old(self).name@,
                old(self).compatible_hash,
                old(self).stage,
                event,
            ),
    {
        let hash = self.compatible_hash;
        match (self.stage, event) {
            (StandardStage::Begin, _) => self.wait(
                StandardStage::Bootstrapping,
                "",
                InitAction::Bootstrap,
            ),
            (StandardStage::Bootstrapping, InitEvent::Booted(Ok(boot))) => {
                let line = branded(self.name.as_str(), ": bootstrapped\n");
                match boot.server_ep {
                    Some(ep) => self.wait(
                        StandardStage::Probing(boot, ep),
                        line.as_str(),
                        InitAction::Probe { boot, compatible_hash: hash, skip: 0 },
                    ),
                    None => self.end(line.as_str(), Err(DriverInitError::NoServerEndpoint)),
                }
            },
            (StandardStage::Bootstrapping, InitEvent::Booted(Err(e))) => self.end(
                "",
                Err(DriverInitError::Bootstrap(e)),
            ),
            (StandardStage::Probing(boot, ep), InitEvent::Probed(Ok(probe))) => self.wait(
                StandardStage::Claiming(boot, ep),
                "",
                InitAction::Claim { boot, mmio_addr: probe.mmio_addr },
            ),
            (StandardStage::Probing(_, _), InitEvent::Probed(Err(e))) => self.end(
                "",
                Err(DriverInitError::Probe(e)),
            ),
            (StandardStage::Claiming(boot, ep), InitEvent::Claimed(Ok(device))) => self.wait(
                StandardStage::Binding(boot, ep, device),
                "",
                InitAction::BindIrq { intid: device.irq_intid, flags: IRQ_FLAG_EDGE },
            ),
            (StandardStage::Claiming(_, _), InitEvent::Claimed(Err(e))) => self.end(
                "",
                Err(DriverInitError::Claim(e)),
            ),
            (StandardStage::Binding(boot, ep, device), InitEvent::Bound(Ok(bound))) => {
                let line = branded(self.name.as_str(), ": IRQ bound\n");
                self.end(line.as_str(), Ok(make_ctx(boot, ep, device, bound)))
            },
            (StandardStage::Binding(_, _, _), InitEvent::Bound(Err(e))) => self.end(
                "",
                Err(DriverInitError::IrqBind(e)),
            ),
            _ => self.end("", Err(DriverInitError::NoServerEndpoint)),
        }
    }
}

// ---------------------------------------------------------------------------
// Virtio drivers
// ---------------------------------------------------------------------------

/// Why no virtio device could be had.
#[derive(Clone, Copy, Debug, PartialEq, Eq, Structural)]
pub enum VirtioDriverInitError {
    Bootstrap(BootstrapError),
    Probe(ProbeError),
    Claim(ClaimError),
    IrqBind(IrqBindError),
    NoServerEndpoint,
    NoMatchingDeviceId(u32),
}

/// What a virtio driver comes to: its device, or why it has none.
pub type VirtioOutcome = Result<DriverCtx, VirtioDriverInitError>;

/// Whether a slot holds a virtio device of the given class.
pub open spec fn is_wanted(magic: u32, device_id: u32, expected: u32) -> bool {
    magic == VIRTIO_MMIO_MAGIC_VALUE && device_id == expected
}

/// What a virtio driver waits for. The number is that of the slots that it passed by.
#[derive(Clone, Copy, Debug, PartialEq, Eq, Structural)]
pub enum VirtioStage {
    Begin,
    Bootstrapping,
    Probing(DriverBootstrap, EndpointHandle, u64),
    Claiming(DriverBootstrap, EndpointHandle, u64),
    Judging(DriverBootstrap, EndpointHandle, u64, ClaimedDevice),
    Releasing(DriverBootstrap, EndpointHandle, u64),
    Binding(DriverBootstrap, EndpointHandle, ClaimedDevice),
    Over,
}

/// Whether an event is one that a virtio driver waits for; not every slot was passed by.
pub open spec fn virtio_awaits(stage: VirtioStage, event: InitEvent) -> bool {
    match stage {
        VirtioStage::Begin => event is Started,
        VirtioStage::Bootstrapping => event is Booted,
        VirtioStage::Probing(_, _, _) => event is Probed,
        VirtioStage::Claiming(_, _, _) => event is Claimed,
        VirtioStage::Judging(_, _, _, _) => event is Identity,
        VirtioStage::Releasing(_, _, skip) => event is Released && skip < u64::MAX,
        VirtioStage::Binding(_, _, _) => event is Bound,
        VirtioStage::Over => false,
    }
}

/// What a virtio driver is set up with: the kind of its slots, and the class of its device.
#[derive(Clone, Copy, Debug, PartialEq, Eq, Structural)]
pub struct VirtioWanted {
    pub compatible_hash: u64,
    pub device_id: u32,
}

/// A virtio driver has come to something.
pub open spec fn virtio_over(say: Seq<char>, r: VirtioOutcome) -> (
    VirtioStage,
    Said<InitAction, VirtioOutcome>,
) {
    (VirtioStage::Over, say_serve(say, r))
}

/// What a virtio driver does once an event has come.
pub open spec fn virtio_next(
    name: Seq<char>,
    wanted: VirtioWanted,
    stage: VirtioStage,
    event: InitEvent,
) -> (VirtioStage, Said<InitAction, VirtioOutcome>) {
    let hash = wanted.compatible_hash;
    match (stage, event) {
        (VirtioStage::Begin, _) => (VirtioStage::Bootstrapping, say_do(""@, InitAction::Bootstrap)),
        (VirtioStage::Bootstrapping, InitEvent::Booted(Ok(boot))) => match boot.server_ep {
            Some(ep) => (
                VirtioStage::Probing(boot, ep, 0),
                say_do(
                    name + ": bootstrapped\n"@,
                    InitAction::Probe { boot, compatible_hash: hash, skip: 0 },
                ),
            ),
            None => virtio_over(
                name + ": bootstrapped\n"@,
                Err(VirtioDriverInitError::NoServerEndpoint),
            ),
        },
        (VirtioStage::Bootstrapping, InitEvent::Booted(Err(e))) => virtio_over(
            ""@,
            Err(VirtioDriverInitError::Bootstrap(e)),
        ),
        (VirtioStage::Probing(boot, ep, skip), InitEvent::Probed(Ok(probe))) => (
            VirtioStage::Claiming(boot, ep, skip),
            say_do(""@, InitAction::Claim { boot, mmio_addr: probe.mmio_addr }),
        ),
        (VirtioStage::Probing(_, _, _), InitEvent::Probed(Err(e))) => virtio_over(
            ""@,
            Err(
                if e == ProbeError::NotFound {
                    VirtioDriverInitError::NoMatchingDeviceId(wanted.device_id)
                } else {
                    VirtioDriverInitError::Probe(e)
                },
            ),
        ),
        (VirtioStage::Claiming(boot, ep, skip), InitEvent::Claimed(Ok(device))) => (
            VirtioStage::Judging(boot, ep, skip, device),
            say_do(""@, InitAction::ReadIdentity { regs_va: device.regs_va }),
        ),
        (VirtioStage::Claiming(_, _, _), InitEvent::Claimed(Err(e))) => virtio_over(
            ""@,
            Err(VirtioDriverInitError::Claim(e)),
        ),
        (
            VirtioStage::Judging(boot, ep, skip, device),
            InitEvent::Identity { magic, device_id },
        ) => if is_wanted(magic, device_id, wanted.device_id) {
            (
                VirtioStage::Binding(boot, ep, device),
                say_do(
                    ""@,
                    InitAction::BindIrq { intid: device.irq_intid, flags: IRQ_FLAG_EDGE },
                ),
            )
        } else {
            (
                VirtioStage::Releasing(boot, ep, skip),
                say_do(""@, InitAction::Release { boot, device }),
            )
        },
        (VirtioStage::Releasing(boot, ep, skip), _) => {
            let passed = (skip + 1) as u64;
            (
                VirtioStage::Probing(boot, ep, passed),
                say_do(
                    ""@,
                    InitAction::Probe { boot, compatible_hash: hash, skip: passed },
                ),
            )
        },
        (VirtioStage::Binding(boot, ep, device), InitEvent::Bound(Ok(bound))) => virtio_over(
            name + ": IRQ bound\n"@,
            Ok(ctx_of(boot, ep, device, bound)),
        ),
        (VirtioStage::Binding(_, _, _), InitEvent::Bound(Err(e))) => virtio_over(
            ""@,
            Err(VirtioDriverInitError::IrqBind(e)),
        ),
        _ => virtio_over(""@, Err(VirtioDriverInitError::NoServerEndpoint)),
    }
}

/// A virtio driver, which is called by a name.
pub struct VirtioInit {
    pub name: String,
    pub wanted: VirtioWanted,
    pub stage: VirtioStage,
}

impl VirtioInit {
    pub fn new(name: &str, wanted: VirtioWanted) -> (r: Self)
        ensures
            r.name@ == name@,
            r.wanted == wanted,
            r.stage == VirtioStage::Begin,
    {
        VirtioInit { name: crate::text::copy_of(name), wanted, stage: VirtioStage::Begin }
    }

    fn end(&mut self, say: &str, result: VirtioOutcome) -> (r: StartStep<
        InitAction,
        VirtioOutcome,
    >)
        ensures
            final(self).name == old(self).name,
            final(self).wanted == old(self).wanted,
            (final(self).stage, r@) == virtio_over(say@, result),
    {
        self.stage = VirtioStage::Over;
        serve(say, result)
    }

    fn wait(&mut self, stage: VirtioStage, say: &str, action: InitAction) -> (r: StartStep<
        InitAction,
        VirtioOutcome,
    >)
        ensures
            final(self).name == old(self).name,
            final(self).wanted == old(self).wanted,
            final(self).stage == stage,
            r@ == say_do::<InitAction, VirtioOutcome>(say@, action),
    {
        self.stage = stage;
        go(say, action)
    }

    /// What the driver does once an event has come.
    pub fn virtio_driver_init(&mut self, event: InitEvent) -> (r: StartStep<
        InitAction,
        VirtioOutcome,
    >)
        requires
            virtio_awaits(old(self).stage, event),
        ensures
            final(self).name == old(self).name,
            final(self).wanted == old(self).wanted,
            (final(self).stage, r@) == virtio_next(
                old(self).name@,
                old(self).wanted,
                old(self).stage,
                event,
            ),
    {
        let wanted = self.wanted;
        match (self.stage, event) {
            (VirtioStage::Begin, _) => self.wait(
                VirtioStage::Bootstrapping,
                "",
                InitAction::Bootstrap,
            ),
            (VirtioStage::Bootstrapping, InitEvent::Booted(Ok(boot))) => {
                let line = branded(self.name.as_str(), ": bootstrapped\n");
                match boot.server_ep {
                    Some(ep) => self.wait(
                        VirtioStage::Probing(boot, ep, 0),
                        line.as_str(),
                        InitAction::Probe {
                            boot,
                            compatible_hash: wanted.compatible_hash,
                            skip: 0,
                        },
                    ),
                    None => self.end(line.as_str(), Err(VirtioDriverInitError::NoServerEndpoint)),
                }
            },
            (VirtioStage::Bootstrapping, InitEvent::Booted(Err(e))) => self.end(
                "",
                Err(VirtioDriverInitError::Bootstrap(e)),
            ),
            (VirtioStage::Probing(boot, ep, skip), InitEvent::Probed(Ok(probe))) => self.wait(
                VirtioStage::Claiming(boot, ep, skip),
                "",
                InitAction::Claim { boot, mmio_addr: probe.mmio_addr },
            ),
            (VirtioStage::Probing(_, _, _), InitEvent::Probed(Err(e))) => {
                if e == ProbeError::NotFound {
                    self.end("", Err(VirtioDriverInitError::NoMatchingDeviceId(wanted.device_id)))
                } else {
                    self.end("", Err(VirtioDriverInitError::Probe(e)))
                }
            },
            (VirtioStage::Claiming(boot, ep, skip), InitEvent::Claimed(Ok(device))) => self.wait(
                VirtioStage::Judging(boot, ep, skip, device),
                "",
                InitAction::ReadIdentity { regs_va: device.regs_va },
            ),
            (VirtioStage::Claiming(_, _, _), InitEvent::Claimed(Err(e))) => self.end(
                "",
                Err(VirtioDriverInitError::Claim(e)),
            ),
            (
                VirtioStage::Judging(boot, ep, skip, device),
                InitEvent::Identity { magic, device_id },
            ) => {
                if magic == VIRTIO_MMIO_MAGIC_VALUE && device_id == wanted.device_id {
                    self.wait(
                        VirtioStage::Binding(boot, ep, device),
                        "",
                        InitAction::BindIrq { intid: device.irq_intid, flags: IRQ_FLAG_EDGE },
                    )
                } else {
                    self.wait(
                        VirtioStage::Releasing(boot, ep, skip),
                        "",
                        InitAction::Release { boot, device },
                    )
                }
            },
            (VirtioStage::Releasing(boot, ep, skip), _) => self.wait(
                VirtioStage::Probing(boot, ep, skip + 1),
                "",
                InitAction::Probe {
                    boot,
                    compatible_hash: wanted.compatible_hash,
                    skip: skip + 1,
                },
            ),
            (VirtioStage::Binding(boot, ep, device), InitEvent::Bound(Ok(bound))) => {
                let line = branded(self.name.as_str(), ": IRQ bound\n");
                self.end(line.as_str(), Ok(make_ctx(boot, ep, device, bound)))
            },
            (VirtioStage::Binding(_, _, _), InitEvent::Bound(Err(e))) => self.end(
                "",
                Err(VirtioDriverInitError::IrqBind(e)),
            ),
            _ => self.end("", Err(VirtioDriverInitError::NoServerEndpoint)),
        }
    }
}

/// A device of another class is given back before the search goes on, and the search passes
/// by one slot more; only the interrupt of a device of the class is bound.
pub proof fn lemma_search_gives_back(
    name: Seq<char>,
    wanted: VirtioWanted,
    boot: DriverBootstrap,
    ep: EndpointHandle,
    skip: u64,
    device: ClaimedDevice,
    magic: u32,
    device_id: u32,
)
    requires
        skip < u64::MAX,
    ensures
        ({
            let (after, said) = virtio_next(
                name,
                wanted,
                VirtioStage::Judging(boot, ep, skip, device),
                (InitEvent::Identity { magic, device_id }),
            );
            if is_wanted(magic, device_id, wanted.device_id) {
                said.next matches Next::Do(a) && a is BindIrq
            } else {
                &&& said.next == Next::<InitAction, VirtioOutcome>::Do(
                    InitAction::Release { boot, device },
                )
                &&& virtio_next(name, wanted, after, InitEvent::Released).1.next == Next::<
                    InitAction,
                    VirtioOutcome,
                >::Do(
                    InitAction::Probe {
                        boot,
                        compatible_hash: wanted.compatible_hash,
                        skip: (skip + 1) as u64,
                    },
                )
            }
        }),
{
}

// ---------------------------------------------------------------------------
// A driver's entry
// ---------------------------------------------------------------------------

/// What a driver prints before it looks for its device.
pub fn starting(name: &str) -> (say: String)
    ensures
        say@ == name@ + ": starting\n"@,
{
    branded(name, ": starting\n")
}

/// What a driver does once it is known whether it has its device: it goes on with it, or says
/// that it has none and ends.
pub open spec fn entered<E>(name: Seq<char>, outcome: Result<DriverCtx, E>) -> Said<(), DriverCtx> {
    match outcome {
        Ok(ctx) => say_serve(""@, ctx),
        Err(_) => say_exit(name + ": init failed\n"@),
    }
}

fn enter<E>(name: &str, outcome: Result<DriverCtx, E>) -> (r: StartStep<(), DriverCtx>)
    ensures
        r@ == entered(name@, outcome),
{
    match outcome {
        Ok(ctx) => serve("", ctx),
        Err(_) => {
            let line = branded(name, ": init failed\n");
            exit(line.as_str())
        },
    }
}

/// What the usual driver does once [`StandardInit::standard_driver_init`] is over.
pub fn driver_main(name: &str, outcome: Standard) -> (r: StartStep<(), DriverCtx>)
    ensures
        r@ == entered(name@, outcome),
{
    enter(name, outcome)
}

/// What a virtio driver does once [`VirtioInit::virtio_driver_init`] is over.
pub fn virtio_driver_main(name: &str, outcome: VirtioOutcome) -> (r: StartStep<(), DriverCtx>)
    ensures
        r@ == entered(name@, outcome),
{
    enter(name, outcome)
}

/// How the usual driver comes to its device: it searches for the first device of its kind,
/// claims it and has its interrupt bound on edges; and what it then has are the registers, the
/// interrupt and the page set of that device, the notification that was bound, and the channels
/// that it learned.
pub proof fn lemma_standard_run(
    name: Seq<char>,
    hash: u64,
    boot: DriverBootstrap,
    ep: EndpointHandle,
    probe: MmioProbe,
    device: ClaimedDevice,
    bound: BoundIrq,
)
    requires
        boot.server_ep == Some(ep),
    ensures
        ({
            let (s1, d1) = standard_next(name, hash, StandardStage::Begin, InitEvent::Started);
            let (s2, d2) = standard_next(name, hash, s1, InitEvent::Booted(Ok(boot)));
            let (s3, d3) = standard_next(name, hash, s2, InitEvent::Probed(Ok(probe)));
            let (s4, d4) = standard_next(name, hash, s3, InitEvent::Claimed(Ok(device)));
            let (_, d5) = standard_next(name, hash, s4, InitEvent::Bound(Ok(bound)));
            &&& d1.next == Next::<InitAction, Standard>::Do(InitAction::Bootstrap)
            &&& d2.next == Next::<InitAction, Standard>::Do(
                InitAction::Probe { boot, compatible_hash: hash, skip: 0 },
            )
            &&& d3.next == Next::<InitAction, Standard>::Do(
                InitAction::Claim { boot, mmio_addr: probe.mmio_addr },
            )
            &&& d4.next == Next::<InitAction, Standard>::Do(
                InitAction::BindIrq { intid: device.irq_intid, flags: 1 },
            )
            &&& d5.next matches Next::Serve(Ok(ctx))
            &&& ctx.regs_va == device.regs_va
            &&& ctx.irq_intid == device.irq_intid
            &&& ctx.mmio_pageset == device.mmio_pageset
            &&& ctx.irq_notif == bound.notif
            &&& ctx.irq_initial_threshold == bound.initial_threshold
            &&& ctx.server_ep == ep
            &&& ctx.devmgr_ep == boot.devmgr_ep
            &&& ctx.reply_obj == boot.reply_obj
        }),
{
}

/// What fails on the way is what the usual driver comes to.
pub proof fn lemma_standard_fails(
    name: Seq<char>,
    hash: u64,
    boot: DriverBootstrap,
    ep: EndpointHandle,
    device: ClaimedDevice,
    e1: BootstrapError,
    e2: ProbeError,
    e3: ClaimError,
    e4: IrqBindError,
)
    ensures
        standard_next(name, hash, StandardStage::Bootstrapping, InitEvent::Booted(Err(e1))).1.next
            == Next::<InitAction, Standard>::Serve(Err(DriverInitError::Bootstrap(e1))),
        boot.server_ep is None ==> standard_next(
            name,
            hash,
            StandardStage::Bootstrapping,
            InitEvent::Booted(Ok(boot)),
        ).1.next == Next::<InitAction, Standard>::Serve(Err(DriverInitError::NoServerEndpoint)),
        standard_next(name, hash, StandardStage::Probing(boot, ep), InitEvent::Probed(Err(e2))).1.next
            == Next::<InitAction, Standard>::Serve(Err(DriverInitError::Probe(e2))),
        standard_next(name, hash, StandardStage::Claiming(boot, ep), InitEvent::Claimed(Err(e3))).1.next
            == Next::<InitAction, Standard>::Serve(Err(DriverInitError::Claim(e3))),
        standard_next(
            name,
            hash,
            StandardStage::Binding(boot, ep, device),
            InitEvent::Bound(Err(e4)),
        ).1.next == Next::<InitAction, Standard>::Serve(Err(DriverInitError::IrqBind(e4))),
{
}

/// How a virtio driver comes to its device: as the usual one, but it reads what a claimed slot
/// holds and keeps it only where that is a virtio device of its class.
pub proof fn lemma_virtio_run(
    name: Seq<char>,
    wanted: VirtioWanted,
    boot: DriverBootstrap,
    ep: EndpointHandle,
    probe: MmioProbe,
    device: ClaimedDevice,
    bound: BoundIrq,
)
    requires
        boot.server_ep == Some(ep),
    ensures
        ({
            let (s1, d1) = virtio_next(name, wanted, VirtioStage::Begin, InitEvent::Started);
            let (s2, d2) = virtio_next(name, wanted, s1, InitEvent::Booted(Ok(boot)));
            let (s3, d3) = virtio_next(name, wanted, s2, InitEvent::Probed(Ok(probe)));
            let (s4, d4) = virtio_next(name, wanted, s3, InitEvent::Claimed(Ok(device)));
            let (s5, d5) = virtio_next(
                name,
                wanted,
                s4,
                (InitEvent::Identity { magic: 0x7472_6976, device_id: wanted.device_id }),
            );
            let (_, d6) = virtio_next(name, wanted, s5, InitEvent::Bound(Ok(bound)));
            &&& d1.next == Next::<InitAction, VirtioOutcome>::Do(InitAction::Bootstrap)
            &&& d2.next == Next::<InitAction, VirtioOutcome>::Do(
                InitAction::Probe { boot, compatible_hash: wanted.compatible_hash, skip: 0 },
            )
            &&& d3.next == Next::<InitAction, VirtioOutcome>::Do(
                InitAction::Claim { boot, mmio_addr: probe.mmio_addr },
            )
            &&& d4.next == Next::<InitAction, VirtioOutcome>::Do(
                InitAction::ReadIdentity { regs_va: device.regs_va },
            )
            &&& d5.next == Next::<InitAction, VirtioOutcome>::Do(
                InitAction::BindIrq { intid: device.irq_intid, flags: 1 },
            )
            &&& d6.next matches Next::Serve(Ok(ctx))
            &&& ctx.regs_va == device.regs_va
            &&& ctx.irq_intid == device.irq_intid
            &&& ctx.mmio_pageset == device.mmio_pageset
            &&& ctx.irq_notif == bound.notif
            &&& ctx.irq_initial_threshold == bound.initial_threshold
            &&& ctx.server_ep == ep
            &&& ctx.devmgr_ep == boot.devmgr_ep
            &&& ctx.reply_obj == boot.reply_obj
        }),
{
}

/// A search that comes to its end without a device of the class says which class was wanted; any
/// other failure is passed on. A slot with another magic or class is not wanted.
pub proof fn lemma_virtio_fails(
    name: Seq<char>,
    wanted: VirtioWanted,
    boot: DriverBootstrap,
    ep: EndpointHandle,
    skip: u64,
    magic: u32,
    device_id: u32,
    e: ClaimError,
)
    ensures
        virtio_next(
            name,
            wanted,
            VirtioStage::Probing(boot, ep, skip),
            InitEvent::Probed(Err(ProbeError::NotFound)),
        ).1.next == Next::<InitAction, VirtioOutcome>::Serve(
            Err(VirtioDriverInitError::NoMatchingDeviceId(wanted.device_id)),
        ),
        virtio_next(
            name,
            wanted,
            VirtioStage::Probing(boot, ep, skip),
            InitEvent::Probed(Err(ProbeError::IpcFailed)),
        ).1.next == Next::<InitAction, VirtioOutcome>::Serve(
            Err(VirtioDriverInitError::Probe(ProbeError::IpcFailed)),
        ),
        virtio_next(
            name,
            wanted,
            VirtioStage::Claiming(boot, ep, skip),
            InitEvent::Claimed(Err(e)),
        ).1.next == Next::<InitAction, VirtioOutcome>::Serve(Err(VirtioDriverInitError::Claim(e))),
        is_wanted(magic, device_id, wanted.device_id) <==> magic == 0x7472_6976 && device_id
            == wanted.device_id,
{
}

/// A driver goes on with its context, silently, if and only if its start went well; else it says
/// so under its own name and ends.
pub proof fn lemma_entered<E>(name: Seq<char>, ctx: DriverCtx, e: E)
    ensures
        entered(name, Ok::<DriverCtx, E>(ctx)).next == Next::<(), DriverCtx>::Serve(ctx),
        entered(name, Ok::<DriverCtx, E>(ctx)).say.len() == 0,
        entered(name, Err::<DriverCtx, E>(e)).next == Next::<(), DriverCtx>::Exit,
        name.is_prefix_of(entered(name, Err::<DriverCtx, E>(e)).say),
        entered(name, Err::<DriverCtx, E>(e)).say.skip(name.len() as int) == ": init failed\n"@,
{
    reveal_strlit("");
    let say = entered(name, Err::<DriverCtx, E>(e)).say;
    assert(say == name + ": init failed\n"@);
    assert(name =~= say.subrange(0, name.len() as int));
    assert(say.skip(name.len() as int) =~= ": init failed\n"@);
}

} // verus!
