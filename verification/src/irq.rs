//! Binding interrupts, and waiting for them.

use crate::handle::{NotificationHandle, PageSetHandle};
use crate::syscall::{Reply, Request, Step, SyscallError, IRQ_FLAG_EDGE};
use vstd::prelude::*;

verus! {

/// Why an interrupt could not be bound.
#[derive(Clone, Copy, Debug, PartialEq, Eq, Structural)]
pub enum BindIrqError {
    AllocNotificationPage(SyscallError),
    CreateNotification(SyscallError),
    BindIrq(SyscallError),
}

/// Why a wait for an interrupt ended without one.
#[derive(Clone, Copy, Debug, PartialEq, Eq, Structural)]
pub enum IrqWaitError {
    Timeout,
    Syscall(SyscallError),
}

/// An interrupt: its notification, its number, and the count that the next wait is for.
#[derive(Clone, Copy, Debug, PartialEq, Eq, Structural)]
pub struct BoundIrq {
    pub notif: NotificationHandle,
    pub intid: u64,
    pub threshold: u64,
}

impl BoundIrq {
    /// Waits for the next interrupt.
    pub fn wait_until(&self, deadline: u64) -> (r: Request)
        ensures
            r == (Request::WaitUntil {
                notification: self.notif.0,
                threshold: self.threshold,
                deadline,
            }),
    {
        Request::WaitUntil { notification: self.notif.0, threshold: self.threshold, deadline }
    }

    /// Goes on with the kernel's answer, which is zero where the deadline passed. After an
    /// interrupt the next wait is for one more.
    pub fn waited(&mut self, reply: Reply) -> (r: Result<(), IrqWaitError>)
        requires
            old(self).threshold < u64::MAX,
        ensures
            final(self).notif == old(self).notif,
            final(self).intid == old(self).intid,
            match reply {
                Err(e) => r == Err::<(), IrqWaitError>(IrqWaitError::Syscall(e)) && final(self).threshold == old(self).threshold,
                Ok(mask) => if mask == 0 {
                    r == Err::<(), IrqWaitError>(IrqWaitError::Timeout) && final(self).threshold
                        == old(self).threshold
                } else {
                    r is Ok && final(self).threshold == old(self).threshold + 1
                },
            },
    {
        match reply {
            Err(e) => Err(IrqWaitError::Syscall(e)),
            Ok(mask) => {
                if mask == 0 {
                    return Err(IrqWaitError::Timeout);
                }
                self.threshold = self.threshold + 1;
                Ok(())
            },
        }
    }

    /// Lets the line deliver again.
    pub fn unmask(&self) -> (r: Request)
        ensures
            r == (Request::UnmaskIrq { intid: self.intid }),
    {
        Request::UnmaskIrq { intid: self.intid }
    }
}

/// Where the binding of an interrupt stands.
#[derive(Clone, Copy, Debug, PartialEq, Eq, Structural)]
pub enum BindStage {
    Allocating,
    Creating(PageSetHandle),
    Binding(NotificationHandle),
}

/// An interrupt that is being bound.
#[derive(Clone, Copy, Debug, PartialEq, Eq, Structural)]
pub struct BindPending {
    pub stage: BindStage,
    pub intid: u64,
    pub flags: u64,
}

/// How a binding goes on with the kernel's answer.
pub open spec fn bind_next(p: BindPending, reply: Reply) -> Step<
    BindPending,
    Result<BoundIrq, BindIrqError>,
> {
    match (p.stage, reply) {
        (BindStage::Allocating, Ok(h)) => Step::Ask(
            BindPending { stage: BindStage::Creating(PageSetHandle(h)), ..p },
            Request::CreateNotification { pageset: h },
        ),
        (BindStage::Allocating, Err(e)) => Step::Done(
            Err(BindIrqError::AllocNotificationPage(e)),
        ),
        (BindStage::Creating(_), Ok(n)) => Step::Ask(
            BindPending { stage: BindStage::Binding(NotificationHandle(n)), ..p },
            Request::BindIrq { intid: p.intid, notification: n, flags: p.flags },
        ),
        (BindStage::Creating(_), Err(e)) => Step::Done(Err(BindIrqError::CreateNotification(e))),
        (BindStage::Binding(n), Ok(_)) => Step::Done(
            Ok(BoundIrq { notif: n, intid: p.intid, threshold: 1 }),
        ),
        (BindStage::Binding(_), Err(e)) => Step::Done(Err(BindIrqError::BindIrq(e))),
    }
}

impl BindPending {
    /// Goes on with the kernel's answer.
    pub fn resume(self, reply: Reply) -> (r: Step<BindPending, Result<BoundIrq, BindIrqError>>)
        ensures
            r == bind_next(self, reply),
    {
        let intid = self.intid;
        let flags = self.flags;
        match self.stage {
            BindStage::Allocating => match reply {
                Ok(h) => Step::Ask(
                    BindPending { stage: BindStage::Creating(PageSetHandle(h)), intid, flags },
                    Request::CreateNotification { pageset: h },
                ),
                Err(e) => Step::Done(Err(BindIrqError::AllocNotificationPage(e))),
            },
            BindStage::Creating(_) => match reply {
                Ok(n) => Step::Ask(
                    BindPending {
                        stage: BindStage::Binding(NotificationHandle(n)),
                        intid,
                        flags,
                    },
                    Request::BindIrq { intid, notification: n, flags },
                ),
                Err(e) => Step::Done(Err(BindIrqError::CreateNotification(e))),
            },
            BindStage::Binding(notif) => match reply {
                Ok(_) => Step::Done(Ok(BoundIrq { notif, intid, threshold: 1 })),
                Err(e) => Step::Done(Err(BindIrqError::BindIrq(e))),
            },
        }
    }
}

/// Binds an interrupt whose line stays high until the device is served.
pub fn bind_irq_level(intid: u64) -> (r: (BindPending, Request))
    ensures
        r.0 == (BindPending { stage: BindStage::Allocating, intid, flags: 0 }),
        r.1 == (Request::AllocPages { count: 1 }),
{
    (
        BindPending { stage: BindStage::Allocating, intid, flags: 0 },
        Request::AllocPages { count: 1 },
    )
}

/// Binds an interrupt that is triggered by an edge.
pub fn bind_irq_edge(intid: u64) -> (r: (BindPending, Request))
    ensures
        r.0 == (BindPending { stage: BindStage::Allocating, intid, flags: IRQ_FLAG_EDGE }),
        r.1 == (Request::AllocPages { count: 1 }),
{
    (
        BindPending { stage: BindStage::Allocating, intid, flags: IRQ_FLAG_EDGE },
        Request::AllocPages { count: 1 },
    )
}

/// How an interrupt is bound: a page is made a notification, and the interrupt with the given
/// flags is bound to it; the first count to wait for is one. What fails says at which step.
pub proof fn lemma_bind_run(
    p: BindPending,
    page: u64,
    n: u64,
    x: u64,
    ps: PageSetHandle,
    h: NotificationHandle,
    e: SyscallError,
)
    ensures
        p.stage == BindStage::Allocating ==> (bind_next(p, Ok(page)) matches Step::Ask(q, r1) && r1
            == (Request::CreateNotification { pageset: page }) && (bind_next(q, Ok(n)) matches
            Step::Ask(s, r2) && r2 == (Request::BindIrq {
            intid: p.intid,
            notification: n,
            flags: p.flags,
        }) && (bind_next(s, Ok(x)) matches Step::Done(Ok(b)) && b.notif.0 == n && b.intid == p.intid
            && b.threshold == 1))),
        p.stage == BindStage::Allocating ==> bind_next(p, Err(e)) == Step::<
            BindPending,
            Result<BoundIrq, BindIrqError>,
        >::Done(Err(BindIrqError::AllocNotificationPage(e))),
        p.stage == BindStage::Creating(ps) ==> bind_next(p, Err(e)) == Step::<
            BindPending,
            Result<BoundIrq, BindIrqError>,
        >::Done(Err(BindIrqError::CreateNotification(e))),
        p.stage == BindStage::Binding(h) ==> bind_next(p, Err(e)) == Step::<
            BindPending,
            Result<BoundIrq, BindIrqError>,
        >::Done(Err(BindIrqError::BindIrq(e))),
{
}

} // verus!
