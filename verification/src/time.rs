//! Deadlines.

use crate::syscall::{Reply, Request, SyscallError};
use vstd::prelude::*;

verus! {

/// A moment, in ticks of the counter.
#[derive(Clone, Copy, Debug, PartialEq, Eq, Structural)]
pub struct MonoTicks(pub u64);

/// The deadline that never passes.
pub const NO_DEADLINE: u64 = u64::MAX;

impl MonoTicks {
    /// Whether a deadline has passed.
    pub open spec fn is_past(self, now: MonoTicks) -> bool {
        self.0 != NO_DEADLINE && now.0 >= self.0
    }

    /// Whether a deadline has passed.
    pub fn has_expired(self, now: MonoTicks) -> (r: bool)
        ensures
            r == self.is_past(now),
    {
        self.0 != NO_DEADLINE && now.0 >= self.0
    }

    /// The deadline that lies `ticks` from now. It saturates below the deadline that never
    /// passes.
    pub fn deadline_in(self, ticks: u64) -> (r: MonoTicks)
        ensures
            r.0 == if self.0 + ticks < NO_DEADLINE {
                self.0 + ticks
            } else {
                NO_DEADLINE - 1
            },
    {
        if self.0 < NO_DEADLINE && ticks < NO_DEADLINE - self.0 {
            MonoTicks(self.0 + ticks)
        } else {
            MonoTicks(NO_DEADLINE - 1)
        }
    }
}

/// Sleeps until the deadline.
pub fn sleep_until(deadline: MonoTicks) -> (r: Request)
    ensures
        r == (Request::Sleep { deadline: deadline.0 }),
{
    Request::Sleep { deadline: deadline.0 }
}

/// Sleeps for `ticks` from now on. However long that is, the deadline neither lies in the
/// past nor never passes.
pub fn sleep_for(now: MonoTicks, ticks: u64) -> (r: Request)
    ensures
        ({
            let end = if now.0 + ticks < NO_DEADLINE {
                now.0 + ticks
            } else {
                NO_DEADLINE - 1
            };
            r == (Request::Sleep { deadline: end as u64 })
        }),
{
    sleep_until(now.deadline_in(ticks))
}

/// What a sleep comes to.
pub fn slept(reply: Reply) -> (r: Result<(), SyscallError>)
    ensures
        match reply {
            Ok(_) => r is Ok,
            Err(e) => r == Err::<(), SyscallError>(e),
        },
{
    match reply {
        Ok(_) => Ok(()),
        Err(e) => Err(e),
    }
}

/// The deadline passed before the condition held.
#[derive(Clone, Copy, Debug, PartialEq, Eq, Structural)]
pub struct DeadlineExpired;

/// One turn of a wait for a condition: whether it ends, and how. The condition is looked
/// at before the clock.
pub fn spin_until_or_deadline(ready: bool, now: MonoTicks, deadline: MonoTicks) -> (r: Option<
    Result<(), DeadlineExpired>,
>)
    ensures
        match r {
            Some(Ok(_)) => ready,
            Some(Err(_)) => !ready && deadline.is_past(now),
            None => !ready && !deadline.is_past(now),
        },
{
    if ready {
        return Some(Ok(()));
    }
    if deadline.has_expired(now) {
        return Some(Err(DeadlineExpired));
    }
    None
}

/// A wait for a condition ends at the first turn at which the condition holds or the
/// deadline has passed; with `true` where the condition holds there.
pub open spec fn spin_result(
    ready: Seq<bool>,
    now: Seq<MonoTicks>,
    deadline: MonoTicks,
    i: int,
) -> Option<bool>
    decreases ready.len() - i,
{
    if i < 0 || i >= ready.len() || i >= now.len() {
        None
    } else if ready[i] {
        Some(true)
    } else if deadline.is_past(now[i]) {
        Some(false)
    } else {
        spin_result(ready, now, deadline, i + 1)
    }
}

/// A wait with the deadline that never passes does not fail.
pub proof fn lemma_no_deadline(ready: Seq<bool>, now: Seq<MonoTicks>, i: int)
    ensures
        spin_result(ready, now, MonoTicks(NO_DEADLINE), i) != Some(false),
    decreases ready.len() - i,
{
    if 0 <= i < ready.len() && i < now.len() && !ready[i] {
        lemma_no_deadline(ready, now, i + 1);
    }
}

// ---------------------------------------------------------------------------
// Sending a byte
// ---------------------------------------------------------------------------

/// The sender had no room before the deadline.
#[derive(Clone, Copy, Debug, PartialEq, Eq, Structural)]
pub struct TxTimeout;

/// What the next turn of sending a byte does.
#[derive(Clone, Copy, Debug, PartialEq, Eq, Structural)]
pub enum TxStep {
    /// Look at the flags again.
    Again,
    /// Write the byte to the data register.
    Write(u32),
    Failed(TxTimeout),
}

/// One turn of sending a byte: it is written once the sender is not full.
pub fn write_byte_deadline(full: bool, byte: u8, now: MonoTicks, deadline: MonoTicks) -> (r:
    TxStep)
    ensures
        r == if !full {
            TxStep::Write(byte as u32)
        } else if deadline.is_past(now) {
            TxStep::Failed(TxTimeout)
        } else {
            TxStep::Again
        },
{
    match spin_until_or_deadline(!full, now, deadline) {
        Some(Ok(_)) => TxStep::Write(byte as u32),
        Some(Err(_)) => TxStep::Failed(TxTimeout),
        None => TxStep::Again,
    }
}

/// A deadline has passed from its tick on, and the one that never passes does not.
pub proof fn lemma_is_past(deadline: MonoTicks, now: MonoTicks)
    ensures
        deadline.0 < u64::MAX ==> (deadline.is_past(now) <==> now.0 >= deadline.0),
        deadline.0 == u64::MAX ==> !deadline.is_past(now),
{
}

/// A wait ends at the first turn at which the condition holds or the deadline has passed, and a
/// condition that holds counts before the deadline.
pub proof fn lemma_spin_ends(
    ready: Seq<bool>,
    now: Seq<MonoTicks>,
    deadline: MonoTicks,
    i: int,
    k: int,
)
    requires
        0 <= i <= k < ready.len(),
        k < now.len(),
        forall|j: int| i <= j < k ==> !(#[trigger] ready[j]) && !deadline.is_past(now[j]),
        ready[k] || deadline.is_past(now[k]),
    ensures
        spin_result(ready, now, deadline, i) == Some(ready[k]),
    decreases k - i,
{
    if i < k {
        lemma_spin_ends(ready, now, deadline, i + 1, k);
    }
}

} // verus!
