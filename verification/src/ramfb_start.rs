//! How the display driver starts: it claims the firmware's device, and shows a test picture.

use crate::devmgr::{ClaimError, ClaimedDevice};
use crate::dma::Mapping;
use crate::driver_runtime::{BootstrapError, DriverBootstrap, MmioProbe, ProbeError};
use crate::handle::{EndpointHandle, PageSetHandle, ReplyHandle};
use crate::ramfb::{
    self_test_pages, Scanout, BYTES_PER_PIXEL, SELFTEST_HEIGHT, SELFTEST_WIDTH,
};
use crate::startup::{exit, go, say_do, say_exit, say_serve, serve, Next, Said, StartStep};
use crate::syscall::{Request, SyscallError};
use vstd::prelude::*;

verus! {

/// The file of the firmware that describes the picture.
pub const RAMFB_FILE: &'static str = "etc/ramfb";

/// What the driver does next.
#[derive(Clone, Copy, Debug, PartialEq, Eq, Structural)]
pub enum RamfbAction {
    /// Learn the driver's channels.
    Bootstrap,
    /// Search for the firmware's device, the first match of its kind.
    Probe { boot: DriverBootstrap, compatible_hash: u64, skip: u64 },
    Claim { devmgr_ep: EndpointHandle, reply_obj: ReplyHandle, mmio_addr: u64 },
    /// Look up [`RAMFB_FILE`] through the device's registers.
    FindFile { regs_va: u64 },
    /// Map one page and zero it.
    AllocPage,
    /// Make a page set that is contiguous in memory.
    AllocBacking { pages: u64 },
    MapExisting { pageset: PageSetHandle, pages: u64 },
    Kernel(Request),
    /// Draw the test picture.
    Draw { va: u64 },
    Unmap(Mapping),
    /// Have the picture shown.
    Show { regs_va: u64, dma_page: Mapping, selector: u16, picture: Scanout },
}

/// What came of it.
#[derive(Clone, Copy, Debug)]
pub enum RamfbEvent {
    Started,
    Booted(Result<DriverBootstrap, BootstrapError>),
    Probed(Result<MmioProbe, ProbeError>),
    Claimed(Result<ClaimedDevice, ClaimError>),
    /// The file's selector.
    Found(Option<u16>),
    Mapped(Result<Mapping, SyscallError>),
    /// A page set and its physical address.
    Backed(Result<(PageSetHandle, u64), SyscallError>),
    Done,
    Shown(bool),
}

/// What the driver has once it started.
#[derive(Clone, Copy, Debug, PartialEq, Eq, Structural)]
pub struct RamfbReady {
    pub display_ep: EndpointHandle,
    pub device: ClaimedDevice,
    pub selector: u16,
    pub dma_page: Mapping,
}

/// What the driver waits for.
#[derive(Clone, Copy, Debug, PartialEq, Eq, Structural)]
pub enum RamfbStage {
    Begin,
    Bootstrapping,
    Probing(DriverBootstrap, EndpointHandle),
    Claiming(EndpointHandle),
    Finding(EndpointHandle, ClaimedDevice),
    Paging(EndpointHandle, ClaimedDevice, u16),
    Backing(RamfbReady),
    MappingPicture(RamfbReady, PageSetHandle, u64),
    /// The picture could not be mapped; its pages are given back.
    ClosingPicture(RamfbReady),
    Drawing(RamfbReady, Mapping, u64),
    Unmapping(RamfbReady, u64),
    Showing(RamfbReady),
    Over,
}

/// Whether an event is one that the driver waits for.
pub open spec fn awaits(stage: RamfbStage, event: RamfbEvent) -> bool {
    match stage {
        RamfbStage::Begin => event is Started,
        RamfbStage::Bootstrapping => event is Booted,
        RamfbStage::Probing(_, _) => event is Probed,
        RamfbStage::Claiming(_) => event is Claimed,
        RamfbStage::Finding(_, _) => event is Found,
        RamfbStage::Paging(_, _, _) => event is Mapped,
        RamfbStage::Backing(_) => event is Backed,
        RamfbStage::MappingPicture(_, _, _) => event is Mapped,
        RamfbStage::ClosingPicture(_) => event is Done,
        RamfbStage::Drawing(_, _, _) => event is Done,
        RamfbStage::Unmapping(_, _) => event is Done,
        RamfbStage::Showing(_) => event is Shown,
        RamfbStage::Over => false,
    }
}

/// The driver gives up.
pub open spec fn ramfb_exit(say: Seq<char>) -> (RamfbStage, Said<RamfbAction, RamfbReady>) {
    (RamfbStage::Over, say_exit(say))
}

/// The driver serves, whatever came of the test picture.
pub open spec fn ramfb_serve(say: Seq<char>, ready: RamfbReady) -> (
    RamfbStage,
    Said<RamfbAction, RamfbReady>,
) {
    (RamfbStage::Over, say_serve(say + "ramfb: entering display server loop\n"@, ready))
}

/// The test picture, as it is shown from the given physical address.
pub open spec fn test_scanout(phys_addr: u64) -> Scanout {
    Scanout {
        phys_addr,
        width: SELFTEST_WIDTH,
        height: SELFTEST_HEIGHT,
        stride: (SELFTEST_WIDTH * BYTES_PER_PIXEL) as u32,
    }
}

/// What the driver does once an event has come. The device is of the kind that `hash` names.
pub open spec fn ramfb_next(hash: u64, stage: RamfbStage, event: RamfbEvent) -> (
    RamfbStage,
    Said<RamfbAction, RamfbReady>,
) {
    match (stage, event) {
        (RamfbStage::Begin, _) => (
            RamfbStage::Bootstrapping,
            say_do("ramfb: starting\n"@, RamfbAction::Bootstrap),
        ),
        (RamfbStage::Bootstrapping, RamfbEvent::Booted(Ok(boot))) => match boot.server_ep {
            Some(ep) => (
                RamfbStage::Probing(boot, ep),
                say_do(
                    "ramfb: bootstrapped\n"@,
                    RamfbAction::Probe { boot, compatible_hash: hash, skip: 0 },
                ),
            ),
            None => ramfb_exit("ramfb: bootstrapped\nramfb: no server endpoint\n"@),
        },
        (RamfbStage::Bootstrapping, _) => ramfb_exit("ramfb: bootstrap FAILED\n"@),
        (RamfbStage::Probing(boot, ep), RamfbEvent::Probed(Ok(probe))) => (
            RamfbStage::Claiming(ep),
            say_do(
                ""@,
                RamfbAction::Claim {
                    devmgr_ep: boot.devmgr_ep,
                    reply_obj: boot.reply_obj,
                    mmio_addr: probe.mmio_addr,
                },
            ),
        ),
        (RamfbStage::Probing(_, _), _) => ramfb_exit("ramfb: probe FAILED\n"@),
        (RamfbStage::Claiming(ep), RamfbEvent::Claimed(Ok(device))) => (
            RamfbStage::Finding(ep, device),
            say_do(
                "ramfb: claimed fw_cfg\n"@,
                RamfbAction::FindFile { regs_va: device.regs_va },
            ),
        ),
        (RamfbStage::Claiming(_), _) => ramfb_exit("ramfb: claim FAILED\n"@),
        (RamfbStage::Finding(ep, device), RamfbEvent::Found(Some(selector))) => (
            RamfbStage::Paging(ep, device, selector),
            say_do("ramfb: found etc/ramfb\n"@, RamfbAction::AllocPage),
        ),
        (RamfbStage::Finding(_, _), _) => ramfb_exit("ramfb: etc/ramfb not found in fw_cfg\n"@),
        (RamfbStage::Paging(display_ep, device, selector), RamfbEvent::Mapped(Ok(dma_page))) => (
            RamfbStage::Backing(RamfbReady { display_ep, device, selector, dma_page }),
            say_do(""@, RamfbAction::AllocBacking { pages: 75 }),
        ),
        (RamfbStage::Paging(_, _, _), _) => ramfb_exit("ramfb: alloc dma FAILED\n"@),
        (RamfbStage::Backing(ready), RamfbEvent::Backed(Ok((pageset, pa)))) => (
            RamfbStage::MappingPicture(ready, pageset, pa),
            say_do(""@, RamfbAction::MapExisting { pageset, pages: 75 }),
        ),
        (RamfbStage::Backing(ready), _) => ramfb_serve("ramfb: self-test alloc FAILED\n"@, ready),
        (RamfbStage::MappingPicture(ready, _, pa), RamfbEvent::Mapped(Ok(m))) => (
            RamfbStage::Drawing(ready, m, pa),
            say_do(""@, RamfbAction::Draw { va: m.va }),
        ),
        (RamfbStage::MappingPicture(ready, pageset, _), _) => (
            RamfbStage::ClosingPicture(ready),
            say_do(""@, RamfbAction::Kernel(Request::CloseHandle { handle: pageset.0 })),
        ),
        (RamfbStage::ClosingPicture(ready), _) => ramfb_serve(
            "ramfb: self-test map FAILED\n"@,
            ready,
        ),
        (RamfbStage::Drawing(ready, m, pa), _) => (
            RamfbStage::Unmapping(ready, pa),
            say_do(""@, RamfbAction::Unmap(m)),
        ),
        (RamfbStage::Unmapping(ready, pa), _) => (
            RamfbStage::Showing(ready),
            say_do(
                ""@,
                RamfbAction::Show {
                    regs_va: ready.device.regs_va,
                    dma_page: ready.dma_page,
                    selector: ready.selector,
                    picture: test_scanout(pa),
                },
            ),
        ),
        (RamfbStage::Showing(ready), RamfbEvent::Shown(true)) => ramfb_serve(
            "ramfb: display configured\n"@,
            ready,
        ),
        (RamfbStage::Showing(ready), _) => ramfb_serve("ramfb: self-test DMA error\n"@, ready),
        (RamfbStage::Over, _) => ramfb_exit(""@),
    }
}

/// The display driver's start.
pub struct RamfbStart {
    pub compatible_hash: u64,
    pub stage: RamfbStage,
}

impl RamfbStart {
    pub fn new(compatible_hash: u64) -> (r: Self)
        ensures
            r.compatible_hash == compatible_hash,
            r.stage == RamfbStage::Begin,
    {
        RamfbStart { compatible_hash, stage: RamfbStage::Begin }
    }

    fn give_up(&mut self, say: &str) -> (r: StartStep<RamfbAction, RamfbReady>)
        ensures
            final(self).compatible_hash == old(self).compatible_hash,
            (final(self).stage, r@) == ramfb_exit(say@),
    {
        self.stage = RamfbStage::Over;
        exit(say)
    }

    fn enter(&mut self, say: &str, ready: RamfbReady) -> (r: StartStep<RamfbAction, RamfbReady>)
        ensures
            final(self).compatible_hash == old(self).compatible_hash,
            (final(self).stage, r@) == ramfb_serve(say@, ready),
    {
        self.stage = RamfbStage::Over;
        let mut text = crate::text::copy_of(say);
        text.append("ramfb: entering display server loop\n");
        serve(text.as_str(), ready)
    }

    fn wait(&mut self, stage: RamfbStage, say: &str, action: RamfbAction) -> (r: StartStep<
        RamfbAction,
        RamfbReady,
    >)
        ensures
            final(self).compatible_hash == old(self).compatible_hash,
            final(self).stage == stage,
            r@ == say_do::<RamfbAction, RamfbReady>(say@, action),
    {
        self.stage = stage;
        go(say, action)
    }

    /// What the driver does once an event has come.
    pub fn ramfb_entry(&mut self, event: RamfbEvent) -> (r: StartStep<RamfbAction, RamfbReady>)
        requires
            awaits(old(self).stage, event),
        ensures
            final(self).compatible_hash == old(self).compatible_hash,
            (final(self).stage, r@) == ramfb_next(
                old(self).compatible_hash,
                old(self).stage,
                event,
            ),
    {
        let hash = self.compatible_hash;
        match (self.stage, event) {
            (RamfbStage::Begin, _) => self.wait(
                RamfbStage::Bootstrapping,
                "ramfb: starting\n",
                RamfbAction::Bootstrap,
            ),
            (RamfbStage::Bootstrapping, RamfbEvent::Booted(Ok(boot))) => match boot.server_ep {
                Some(ep) => self.wait(
                    RamfbStage::Probing(boot, ep),
                    "ramfb: bootstrapped\n",
                    RamfbAction::Probe { boot, compatible_hash: hash, skip: 0 },
                ),
                None => self.give_up("ramfb: bootstrapped\nramfb: no server endpoint\n"),
            },
            (RamfbStage::Bootstrapping, _) => self.give_up("ramfb: bootstrap FAILED\n"),
            (RamfbStage::Probing(boot, ep), RamfbEvent::Probed(Ok(probe))) => self.wait(
                RamfbStage::Claiming(ep),
                "",
                RamfbAction::Claim {
                    devmgr_ep: boot.devmgr_ep,
                    reply_obj: boot.reply_obj,
                    mmio_addr: probe.mmio_addr,
                },
            ),
            (RamfbStage::Probing(_, _), _) => self.give_up("ramfb: probe FAILED\n"),
            (RamfbStage::Claiming(ep), RamfbEvent::Claimed(Ok(device))) => self.wait(
                RamfbStage::Finding(ep, device),
                "ramfb: claimed fw_cfg\n",
                RamfbAction::FindFile { regs_va: device.regs_va },
            ),
            (RamfbStage::Claiming(_), _) => self.give_up("ramfb: claim FAILED\n"),
            (RamfbStage::Finding(ep, device), RamfbEvent::Found(Some(selector))) => self.wait(
                RamfbStage::Paging(ep, device, selector),
                "ramfb: found etc/ramfb\n",
                RamfbAction::AllocPage,
            ),
            (RamfbStage::Finding(_, _), _) => self.give_up(
                "ramfb: etc/ramfb not found in fw_cfg\n",
            ),
            (RamfbStage::Paging(display_ep, device, selector), RamfbEvent::Mapped(Ok(dma_page))) =>
                self.wait(
                    RamfbStage::Backing(RamfbReady { display_ep, device, selector, dma_page }),
                    "",
                    RamfbAction::AllocBacking { pages: self_test_pages() },
                ),
            (RamfbStage::Paging(_, _, _), _) => self.give_up("ramfb: alloc dma FAILED\n"),
            (RamfbStage::Backing(ready), RamfbEvent::Backed(Ok((pageset, pa)))) => self.wait(
                RamfbStage::MappingPicture(ready, pageset, pa),
                "",
                RamfbAction::MapExisting { pageset, pages: self_test_pages() },
            ),
            (RamfbStage::Backing(ready), _) => self.enter("ramfb: self-test alloc FAILED\n", ready),
            (RamfbStage::MappingPicture(ready, _, pa), RamfbEvent::Mapped(Ok(m))) => self.wait(
                RamfbStage::Drawing(ready, m, pa),
                "",
                RamfbAction::Draw { va: m.va },
            ),
            (RamfbStage::MappingPicture(ready, pageset, _), _) => self.wait(
                RamfbStage::ClosingPicture(ready),
                "",
                RamfbAction::Kernel(Request::CloseHandle { handle: pageset.0 }),
            ),
            (RamfbStage::ClosingPicture(ready), _) => self.enter(
                "ramfb: self-test map FAILED\n",
                ready,
            ),
            (RamfbStage::Drawing(ready, m, pa), _) => self.wait(
                RamfbStage::Unmapping(ready, pa),
                "",
                RamfbAction::Unmap(m),
            ),
            (RamfbStage::Unmapping(ready, pa), _) => {
                let picture = Scanout {
                    phys_addr: pa,
                    width: SELFTEST_WIDTH,
                    height: SELFTEST_HEIGHT,
                    stride: SELFTEST_WIDTH * BYTES_PER_PIXEL,
                };
                self.wait(
                    RamfbStage::Showing(ready),
                    "",
                    RamfbAction::Show {
                        regs_va: ready.device.regs_va,
                        dma_page: ready.dma_page,
                        selector: ready.selector,
                        picture,
                    },
                )
            },
            (RamfbStage::Showing(ready), RamfbEvent::Shown(true)) => self.enter(
                "ramfb: display configured\n",
                ready,
            ),
            (RamfbStage::Showing(ready), _) => self.enter("ramfb: self-test DMA error\n", ready),
            (RamfbStage::Over, _) => self.give_up(""),
        }
    }
}

/// Once the driver has its page, it serves whatever comes of the test picture: no step of the
/// test ends the process, and what the driver has does not change.
pub proof fn lemma_test_is_harmless(hash: u64, stage: RamfbStage, event: RamfbEvent)
    requires
        stage is Backing || stage is MappingPicture || stage is ClosingPicture || stage is Drawing
            || stage is Unmapping || stage is Showing,
    ensures
        ramfb_next(hash, stage, event).1.next !is Exit,
        ramfb_next(hash, stage, event).1.next matches Next::Serve(ready) ==> match stage {
            RamfbStage::Backing(r) => r == ready,
            RamfbStage::ClosingPicture(r) => r == ready,
            RamfbStage::Showing(r) => r == ready,
            _ => false,
        },
{
}

/// How the driver comes to its device: it searches for the first device of its kind through the
/// channels that it learned, claims what was found, and looks the file up through the registers
/// of what it claimed.
pub proof fn lemma_ramfb_finds(
    hash: u64,
    boot: DriverBootstrap,
    ep: EndpointHandle,
    probe: MmioProbe,
    device: ClaimedDevice,
    selector: u16,
    page: Mapping,
)
    requires
        boot.server_ep == Some(ep),
    ensures
        ({
            let (s1, d1) = ramfb_next(hash, RamfbStage::Begin, RamfbEvent::Started);
            let (s2, d2) = ramfb_next(hash, s1, RamfbEvent::Booted(Ok(boot)));
            let (s3, d3) = ramfb_next(hash, s2, RamfbEvent::Probed(Ok(probe)));
            let (s4, d4) = ramfb_next(hash, s3, RamfbEvent::Claimed(Ok(device)));
            let (s5, d5) = ramfb_next(hash, s4, RamfbEvent::Found(Some(selector)));
            let (s6, d6) = ramfb_next(hash, s5, RamfbEvent::Mapped(Ok(page)));
            &&& d1.next == Next::<RamfbAction, RamfbReady>::Do(RamfbAction::Bootstrap)
            &&& d2.next == Next::<RamfbAction, RamfbReady>::Do(
                RamfbAction::Probe { boot, compatible_hash: hash, skip: 0 },
            )
            &&& d3.next == Next::<RamfbAction, RamfbReady>::Do(
                RamfbAction::Claim {
                    devmgr_ep: boot.devmgr_ep,
                    reply_obj: boot.reply_obj,
                    mmio_addr: probe.mmio_addr,
                },
            )
            &&& d4.next == Next::<RamfbAction, RamfbReady>::Do(
                RamfbAction::FindFile { regs_va: device.regs_va },
            )
            &&& d5.next == Next::<RamfbAction, RamfbReady>::Do(RamfbAction::AllocPage)
            &&& d6.next == Next::<RamfbAction, RamfbReady>::Do(
                RamfbAction::AllocBacking { pages: 75 },
            )
            &&& s6 == RamfbStage::Backing(
                RamfbReady { display_ep: ep, device, selector, dma_page: page },
            )
        }),
{
}

/// How the test picture is shown: its pages, which hold 320 times 240 pixels of four bytes, are
/// mapped, drawn and unmapped, and the firmware is told of them by their physical address; then
/// the driver serves with what it has.
pub proof fn lemma_ramfb_shows(
    hash: u64,
    ready: RamfbReady,
    pageset: PageSetHandle,
    pa: u64,
    m: Mapping,
)
    ensures
        ({
            let (s1, d1) = ramfb_next(
                hash,
                RamfbStage::Backing(ready),
                RamfbEvent::Backed(Ok((pageset, pa))),
            );
            let (s2, d2) = ramfb_next(hash, s1, RamfbEvent::Mapped(Ok(m)));
            let (s3, d3) = ramfb_next(hash, s2, RamfbEvent::Done);
            let (s4, d4) = ramfb_next(hash, s3, RamfbEvent::Done);
            let (s5, d5) = ramfb_next(hash, s4, RamfbEvent::Shown(true));
            &&& d1.next == Next::<RamfbAction, RamfbReady>::Do(
                RamfbAction::MapExisting { pageset, pages: 75 },
            )
            &&& 75 * 4096 == 320 * 240 * 4
            &&& d2.next == Next::<RamfbAction, RamfbReady>::Do(RamfbAction::Draw { va: m.va })
            &&& d3.next == Next::<RamfbAction, RamfbReady>::Do(RamfbAction::Unmap(m))
            &&& d4.next == Next::<RamfbAction, RamfbReady>::Do(
                RamfbAction::Show {
                    regs_va: ready.device.regs_va,
                    dma_page: ready.dma_page,
                    selector: ready.selector,
                    picture: Scanout { phys_addr: pa, width: 320, height: 240, stride: 1280 },
                },
            )
            &&& d5.next == Next::<RamfbAction, RamfbReady>::Serve(ready)
        }),
{
}

/// Without channels, an endpoint of its own, a device, the file or a page the driver ends, with
/// the line that says what it lacks; pages that could not be mapped are given back.
pub proof fn lemma_ramfb_fails(
    hash: u64,
    boot: DriverBootstrap,
    ep: EndpointHandle,
    device: ClaimedDevice,
    selector: u16,
    ready: RamfbReady,
    pageset: PageSetHandle,
    pa: u64,
    e1: BootstrapError,
    e2: ProbeError,
    e3: ClaimError,
    e4: SyscallError,
)
    ensures
        ramfb_next(hash, RamfbStage::Bootstrapping, RamfbEvent::Booted(Err(e1))).1 == say_exit::<
            RamfbAction,
            RamfbReady,
        >("ramfb: bootstrap FAILED\n"@),
        boot.server_ep is None ==> ramfb_next(
            hash,
            RamfbStage::Bootstrapping,
            RamfbEvent::Booted(Ok(boot)),
        ).1.next is Exit,
        ramfb_next(hash, RamfbStage::Probing(boot, ep), RamfbEvent::Probed(Err(e2))).1
            == say_exit::<RamfbAction, RamfbReady>("ramfb: probe FAILED\n"@),
        ramfb_next(hash, RamfbStage::Claiming(ep), RamfbEvent::Claimed(Err(e3))).1 == say_exit::<
            RamfbAction,
            RamfbReady,
        >("ramfb: claim FAILED\n"@),
        ramfb_next(hash, RamfbStage::Finding(ep, device), RamfbEvent::Found(None)).1 == say_exit::<
            RamfbAction,
            RamfbReady,
        >("ramfb: etc/ramfb not found in fw_cfg\n"@),
        ramfb_next(hash, RamfbStage::Paging(ep, device, selector), RamfbEvent::Mapped(Err(e4))).1
            == say_exit::<RamfbAction, RamfbReady>("ramfb: alloc dma FAILED\n"@),
        ramfb_next(
            hash,
            RamfbStage::MappingPicture(ready, pageset, pa),
            RamfbEvent::Mapped(Err(e4)),
        ).1.next == Next::<RamfbAction, RamfbReady>::Do(
            RamfbAction::Kernel(Request::CloseHandle { handle: pageset.0 }),
        ),
{
}

} // verus!
