//! Handles of kernel objects, and guards that close them.

use crate::syscall::Request;
use vstd::prelude::*;

verus! {

/// A set of physical pages.
#[derive(Clone, Copy, Debug, PartialEq, Eq, Structural)]
pub struct PageSetHandle(pub u64);

/// Where messages are sent to.
#[derive(Clone, Copy, Debug, PartialEq, Eq, Structural)]
pub struct EndpointHandle(pub u64);

/// What an interrupt signals.
#[derive(Clone, Copy, Debug, PartialEq, Eq, Structural)]
pub struct NotificationHandle(pub u64);

/// Who waits for an answer.
#[derive(Clone, Copy, Debug, PartialEq, Eq, Structural)]
pub struct ReplyHandle(pub u64);

/// A handle that can be exported or closed.
pub trait Exportable {
    /// The handle's number.
    spec fn number(&self) -> u64;

    /// The handle's number.
    fn raw(&self) -> (r: u64)
        ensures
            r == self.number(),
    ;
}

impl Exportable for PageSetHandle {
    open spec fn number(&self) -> u64 {
        self.0
    }

    fn raw(&self) -> (r: u64) {
        self.0
    }
}

impl Exportable for EndpointHandle {
    open spec fn number(&self) -> u64 {
        self.0
    }

    fn raw(&self) -> (r: u64) {
        self.0
    }
}

impl Exportable for NotificationHandle {
    open spec fn number(&self) -> u64 {
        self.0
    }

    fn raw(&self) -> (r: u64) {
        self.0
    }
}

impl Exportable for ReplyHandle {
    open spec fn number(&self) -> u64 {
        self.0
    }

    fn raw(&self) -> (r: u64) {
        self.0
    }
}

/// The endpoint that every process is born with.
pub fn bootstrap_endpoint() -> (r: EndpointHandle)
    ensures
        r == EndpointHandle(0),
{
    EndpointHandle(0)
}

/// The request that closes a handle.
pub fn close<H: Exportable>(h: &H) -> (r: Request)
    ensures
        r == (Request::CloseHandle { handle: h.number() }),
{
    Request::CloseHandle { handle: h.raw() }
}

/// Holds a page set until it is taken or closed.
pub struct PageSetGuard {
    handle: PageSetHandle,
}

impl PageSetGuard {
    /// The page set that the guard holds.
    pub closed spec fn held(&self) -> PageSetHandle {
        self.handle
    }

    pub fn new(ps: PageSetHandle) -> (r: Self)
        ensures
            r.held() == ps,
    {
        PageSetGuard { handle: ps }
    }

    pub fn handle(&self) -> (r: PageSetHandle)
        ensures
            r == self.held(),
    {
        self.handle
    }

    /// Ends the guard and hands the page set to the caller.
    pub fn take(self) -> (r: PageSetHandle)
        ensures
            r == self.held(),
    {
        self.handle
    }

    /// Ends the guard with the request that closes the page set.
    pub fn release(self) -> (r: Request)
        ensures
            r == (Request::CloseHandle { handle: self.held().0 }),
    {
        Request::CloseHandle { handle: self.handle.0 }
    }
}

/// Holds a notification until it is taken or closed.
pub struct NotificationGuard {
    handle: NotificationHandle,
}

impl NotificationGuard {
    /// The notification that the guard holds.
    pub closed spec fn held(&self) -> NotificationHandle {
        self.handle
    }

    pub fn new(n: NotificationHandle) -> (r: Self)
        ensures
            r.held() == n,
    {
        NotificationGuard { handle: n }
    }

    pub fn handle(&self) -> (r: NotificationHandle)
        ensures
            r == self.held(),
    {
        self.handle
    }

    /// Ends the guard and hands the notification to the caller.
    pub fn take(self) -> (r: NotificationHandle)
        ensures
            r == self.held(),
    {
        self.handle
    }

    /// Ends the guard with the request that closes the notification.
    pub fn release(self) -> (r: Request)
        ensures
            r == (Request::CloseHandle { handle: self.held().0 }),
    {
        Request::CloseHandle { handle: self.handle.0 }
    }
}

} // verus!
