//! How drivers and small programs start: what is printed and done after each step.
//!
//! A start is a state machine. It is handed what came of its last action, and says what to
//! print and what to do next.

use vstd::prelude::*;

verus! {

/// What a start does next.
#[derive(Debug, PartialEq, Eq, Structural)]
pub enum Next<A, R> {
    /// Perform this action.
    Do(A),
    /// The start is over: go on with what it has brought about.
    Serve(R),
    /// End the process.
    Exit,
}

/// What a start prints after a step, and what it does then.
pub struct StartStep<A, R> {
    pub say: String,
    pub next: Next<A, R>,
}

/// The same, as plain values.
pub struct Said<A, R> {
    pub say: Seq<char>,
    pub next: Next<A, R>,
}

impl<A, R> StartStep<A, R> {
    pub open spec fn view(&self) -> Said<A, R> {
        Said { say: self.say@, next: self.next }
    }
}

/// Print, and perform an action.
pub open spec fn say_do<A, R>(say: Seq<char>, action: A) -> Said<A, R> {
    Said { say, next: Next::Do(action) }
}

/// Print, and go on with what the start has brought about.
pub open spec fn say_serve<A, R>(say: Seq<char>, result: R) -> Said<A, R> {
    Said { say, next: Next::Serve(result) }
}

/// Print, and end the process.
pub open spec fn say_exit<A, R>(say: Seq<char>) -> Said<A, R> {
    Said { say, next: Next::Exit }
}

pub(crate) fn go<A, R>(say: &str, action: A) -> (r: StartStep<A, R>)
    ensures
        r@ == say_do::<A, R>(say@, action),
{
    StartStep { say: crate::text::copy_of(say), next: Next::Do(action) }
}

pub(crate) fn serve<A, R>(say: &str, result: R) -> (r: StartStep<A, R>)
    ensures
        r@ == say_serve::<A, R>(say@, result),
{
    StartStep { say: crate::text::copy_of(say), next: Next::Serve(result) }
}

pub(crate) fn exit<A, R>(say: &str) -> (r: StartStep<A, R>)
    ensures
        r@ == say_exit::<A, R>(say@),
{
    StartStep { say: crate::text::copy_of(say), next: Next::Exit }
}

} // verus!
