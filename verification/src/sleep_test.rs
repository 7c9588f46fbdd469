//! The program that measures how long a sleep takes.

use crate::numerals::{dec, decimal};
use crate::startup::{exit, go, say_do, say_exit, Said, StartStep};
use crate::syscall::{Message, Reply, Request, Words};
use crate::time::MonoTicks;
use crate::writer::{put2, put3};
use vstd::prelude::*;

verus! {

/// How long the measured sleep is asked to take, in nanoseconds.
pub const SLEEP_NANOS: u64 = 50_000_000;

/// How long it may take.
pub const SLEEP_LIMIT_NANOS: u64 = 200_000_000;

/// The ticks that went by.
pub open spec fn ticks_between(before: MonoTicks, after: MonoTicks) -> u64 {
    if after.0 >= before.0 {
        (after.0 - before.0) as u64
    } else {
        0
    }
}

/// The ticks that went by.
pub fn elapsed_ticks(before: MonoTicks, after: MonoTicks) -> (r: u64)
    ensures
        r == ticks_between(before, after),
{
    if after.0 >= before.0 {
        after.0 - before.0
    } else {
        0
    }
}

/// Whether a sleep took as long as it was asked to, and not much longer.
pub fn within_tolerance(elapsed_ns: u64) -> (r: bool)
    ensures
        r == (SLEEP_NANOS <= elapsed_ns <= SLEEP_LIMIT_NANOS),
{
    SLEEP_NANOS <= elapsed_ns && elapsed_ns <= SLEEP_LIMIT_NANOS
}

/// What the program does next.
#[derive(Clone, Copy, Debug, PartialEq, Eq, Structural)]
pub enum SleepAction {
    Kernel(Request),
    /// Read the frequency of the counter.
    ReadFrequency,
    ReadClock,
    SleepFor { nanos: u64 },
    /// Find out how many nanoseconds so many ticks of a counter take.
    ToNanos { ticks: u64, hz: u64 },
}

/// What came of it.
#[derive(Clone, Copy, Debug)]
pub enum SleepEvent {
    Started,
    Kernel(Reply),
    Answer(Message),
    Frequency(u64),
    Clock(MonoTicks),
    Nanos(u64),
}

/// What the program waits for.
#[derive(Clone, Copy, Debug, PartialEq, Eq, Structural)]
pub enum SleepStage {
    Begin,
    ReplyPage,
    ReplyMaking,
    Bootstrapping,
    Probing,
    Before { hz: u64 },
    Sleeping { hz: u64, before: MonoTicks },
    After { hz: u64, before: MonoTicks },
    Converting,
    Over,
}

/// Whether an event is one that the program waits for.
pub open spec fn awaits(stage: SleepStage, event: SleepEvent) -> bool {
    match stage {
        SleepStage::Begin => event is Started,
        SleepStage::ReplyPage => event is Kernel,
        SleepStage::ReplyMaking => event is Kernel,
        SleepStage::Bootstrapping => event is Answer,
        SleepStage::Probing => event is Frequency,
        SleepStage::Before { .. } => event is Clock,
        SleepStage::Sleeping { .. } => event is Kernel,
        SleepStage::After { .. } => event is Clock,
        SleepStage::Converting => event is Nanos,
        SleepStage::Over => false,
    }
}

/// The line that reports the frequency.
pub open spec fn frequency_text(hz: u64) -> Seq<char> {
    "[SLEEP-TEST] cntfreq_hz="@ + decimal(hz as nat) + "\n"@
}

/// The lines that report how long the sleep took, and whether that is in order.
pub open spec fn verdict_text(elapsed_ns: u64) -> Seq<char> {
    "[SLEEP-TEST] requested_ns="@ + decimal(SLEEP_NANOS as nat) + " elapsed_ns="@ + decimal(
        elapsed_ns as nat,
    ) + "\n"@ + if SLEEP_NANOS <= elapsed_ns <= SLEEP_LIMIT_NANOS {
        "[SLEEP-TEST] elapsed within tolerance\n"@
    } else {
        "[SLEEP-TEST] elapsed OUT OF TOLERANCE\n"@
    }
}

fn frequency_line(hz: u64) -> (out: String)
    ensures
        out@ == frequency_text(hz),
{
    let mut out = String::new();
    let digits = dec(hz);
    put3(&mut out, "[SLEEP-TEST] cntfreq_hz=", digits.as_str(), "\n");
    assert(out@ =~= frequency_text(hz));
    out
}

fn verdict_lines(elapsed_ns: u64) -> (out: String)
    ensures
        out@ == verdict_text(elapsed_ns),
{
    let mut out = String::new();
    let asked = dec(SLEEP_NANOS);
    let took = dec(elapsed_ns);
    put2(&mut out, "[SLEEP-TEST] requested_ns=", asked.as_str());
    put3(&mut out, " elapsed_ns=", took.as_str(), "\n");
    if within_tolerance(elapsed_ns) {
        out.append("[SLEEP-TEST] elapsed within tolerance\n");
    } else {
        out.append("[SLEEP-TEST] elapsed OUT OF TOLERANCE\n");
    }
    assert(out@ =~= verdict_text(elapsed_ns));
    out
}

/// The program ends.
pub open spec fn sleep_exit(say: Seq<char>) -> (SleepStage, Said<SleepAction, ()>) {
    (SleepStage::Over, say_exit(say))
}

/// What the program does once an event has come.
pub open spec fn sleep_next(bootstrap_ep: u64, stage: SleepStage, event: SleepEvent) -> (
    SleepStage,
    Said<SleepAction, ()>,
) {
    match (stage, event) {
        (SleepStage::Begin, _) => (
            SleepStage::ReplyPage,
            say_do(
                "sleep-test: starting\n"@,
                SleepAction::Kernel(Request::AllocPages { count: 1 }),
            ),
        ),
        (SleepStage::ReplyPage, SleepEvent::Kernel(Ok(pageset))) => (
            SleepStage::ReplyMaking,
            say_do(""@, SleepAction::Kernel(Request::CreateReply { pageset })),
        ),
        (SleepStage::ReplyPage, _) => sleep_exit("sleep-test: create reply FAILED\n"@),
        (SleepStage::ReplyMaking, SleepEvent::Kernel(Ok(reply))) => (
            SleepStage::Bootstrapping,
            say_do(
                "sleep-test: bootstrapping...\n"@,
                SleepAction::Kernel(
                    Request::Call {
                        endpoint: bootstrap_ep,
                        reply,
                        message: Words(0, 0, 0, 0),
                    },
                ),
            ),
        ),
        (SleepStage::ReplyMaking, _) => sleep_exit("sleep-test: create reply FAILED\n"@),
        (SleepStage::Bootstrapping, SleepEvent::Answer(Ok(_))) => (
            SleepStage::Probing,
            say_do("sleep-test: bootstrapped\n"@, SleepAction::ReadFrequency),
        ),
        (SleepStage::Bootstrapping, _) => sleep_exit("sleep-test: bootstrap FAILED\n"@),
        (SleepStage::Probing, SleepEvent::Frequency(hz)) => (
            SleepStage::Before { hz },
            say_do(frequency_text(hz), SleepAction::ReadClock),
        ),
        (SleepStage::Before { hz }, SleepEvent::Clock(before)) => (
            SleepStage::Sleeping { hz, before },
            say_do(""@, SleepAction::SleepFor { nanos: SLEEP_NANOS }),
        ),
        (SleepStage::Sleeping { hz, before }, SleepEvent::Kernel(Ok(_))) => (
            SleepStage::After { hz, before },
            say_do(""@, SleepAction::ReadClock),
        ),
        (SleepStage::Sleeping { .. }, _) => sleep_exit("[SLEEP-TEST] sleep_for FAILED\n"@),
        (SleepStage::After { hz, before }, SleepEvent::Clock(after)) => (
            SleepStage::Converting,
            say_do(""@, SleepAction::ToNanos { ticks: ticks_between(before, after), hz }),
        ),
        (SleepStage::Converting, SleepEvent::Nanos(elapsed_ns)) => sleep_exit(
            verdict_text(elapsed_ns),
        ),
        _ => sleep_exit(""@),
    }
}

/// The program.
pub struct SleepTest {
    pub bootstrap_ep: u64,
    pub stage: SleepStage,
}

impl SleepTest {
    pub fn new(bootstrap_ep: u64) -> (r: Self)
        ensures
            r.bootstrap_ep == bootstrap_ep,
            r.stage == SleepStage::Begin,
    {
        SleepTest { bootstrap_ep, stage: SleepStage::Begin }
    }

    fn end(&mut self, say: &str) -> (r: StartStep<SleepAction, ()>)
        ensures
            final(self).bootstrap_ep == old(self).bootstrap_ep,
            (final(self).stage, r@) == sleep_exit(say@),
    {
        self.stage = SleepStage::Over;
        exit(say)
    }

    fn wait(&mut self, stage: SleepStage, say: &str, action: SleepAction) -> (r: StartStep<
        SleepAction,
        (),
    >)
        ensures
            final(self).bootstrap_ep == old(self).bootstrap_ep,
            final(self).stage == stage,
            r@ == say_do::<SleepAction, ()>(say@, action),
    {
        self.stage = stage;
        go(say, action)
    }

    /// What the program does once an event has come.
    pub fn step(&mut self, event: SleepEvent) -> (r: StartStep<SleepAction, ()>)
        requires
            awaits(old(self).stage, event),
        ensures
            final(self).bootstrap_ep == old(self).bootstrap_ep,
            (final(self).stage, r@) == sleep_next(old(self).bootstrap_ep, old(self).stage, event),
    {
        match (self.stage, event) {
            (SleepStage::Begin, _) => self.wait(
                SleepStage::ReplyPage,
                "sleep-test: starting\n",
                SleepAction::Kernel(Request::AllocPages { count: 1 }),
            ),
            (SleepStage::ReplyPage, SleepEvent::Kernel(Ok(pageset))) => self.wait(
                SleepStage::ReplyMaking,
                "",
                SleepAction::Kernel(Request::CreateReply { pageset }),
            ),
            (SleepStage::ReplyPage, _) => self.end("sleep-test: create reply FAILED\n"),
            (SleepStage::ReplyMaking, SleepEvent::Kernel(Ok(reply))) => {
                let call = Request::Call {
                    endpoint: self.bootstrap_ep,
                    reply,
                    message: Words(0, 0, 0, 0),
                };
                self.wait(
                    SleepStage::Bootstrapping,
                    "sleep-test: bootstrapping...\n",
                    SleepAction::Kernel(call),
                )
            },
            (SleepStage::ReplyMaking, _) => self.end("sleep-test: create reply FAILED\n"),
            (SleepStage::Bootstrapping, SleepEvent::Answer(Ok(_))) => self.wait(
                SleepStage::Probing,
                "sleep-test: bootstrapped\n",
                SleepAction::ReadFrequency,
            ),
            (SleepStage::Bootstrapping, _) => self.end("sleep-test: bootstrap FAILED\n"),
            (SleepStage::Probing, SleepEvent::Frequency(hz)) => {
                let line = frequency_line(hz);
                self.wait(SleepStage::Before { hz }, line.as_str(), SleepAction::ReadClock)
            },
            (SleepStage::Before { hz }, SleepEvent::Clock(before)) => self.wait(
                SleepStage::Sleeping { hz, before },
                "",
                SleepAction::SleepFor { nanos: SLEEP_NANOS },
            ),
            (SleepStage::Sleeping { hz, before }, SleepEvent::Kernel(Ok(_))) => self.wait(
                SleepStage::After { hz, before },
                "",
                SleepAction::ReadClock,
            ),
            (SleepStage::Sleeping { .. }, _) => self.end("[SLEEP-TEST] sleep_for FAILED\n"),
            (SleepStage::After { hz, before }, SleepEvent::Clock(after)) => {
                let ticks = elapsed_ticks(before, after);
                self.wait(SleepStage::Converting, "", SleepAction::ToNanos { ticks, hz })
            },
            (SleepStage::Converting, SleepEvent::Nanos(elapsed_ns)) => {
                let lines = verdict_lines(elapsed_ns);
                self.end(lines.as_str())
            },
            _ => self.end(""),
        }
    }
}

/// The program never serves: every run of it ends the process.
pub proof fn lemma_never_serves(bootstrap_ep: u64, stage: SleepStage, event: SleepEvent)
    ensures
        sleep_next(bootstrap_ep, stage, event).1.next !is Serve,
        awaits(stage, event) ==> (sleep_next(bootstrap_ep, stage, event).1.next is Exit
            <==> sleep_next(bootstrap_ep, stage, event).0 == SleepStage::Over),
{
}

/// How the program measures: it reads the counter's frequency, reads the counter before and after
/// a sleep of fifty milliseconds, and has the ticks between the two turned into nanoseconds at that
/// frequency.
pub proof fn lemma_sleep_measured(ep: u64, hz: u64, before: MonoTicks, x: u64, after: MonoTicks)
    requires
        after.0 >= before.0,
    ensures
        ({
            let (s1, d1) = sleep_next(ep, SleepStage::Probing, SleepEvent::Frequency(hz));
            let (s2, d2) = sleep_next(ep, s1, SleepEvent::Clock(before));
            let (s3, d3) = sleep_next(ep, s2, SleepEvent::Kernel(Ok(x)));
            let (_, d4) = sleep_next(ep, s3, SleepEvent::Clock(after));
            &&& d1.next == crate::startup::Next::<SleepAction, ()>::Do(SleepAction::ReadClock)
            &&& d2.next == crate::startup::Next::<SleepAction, ()>::Do(
                SleepAction::SleepFor { nanos: 50_000_000 },
            )
            &&& d3.next == crate::startup::Next::<SleepAction, ()>::Do(SleepAction::ReadClock)
            &&& d4.next == crate::startup::Next::<SleepAction, ()>::Do(
                SleepAction::ToNanos { ticks: (after.0 - before.0) as u64, hz },
            )
        }),
{
}

/// A sleep is in order where it took at least what was asked and at most two hundred
/// milliseconds; the report gives both numbers and says which it was.
pub proof fn lemma_sleep_verdict(ep: u64, ns: u64)
    ensures
        ({
            let numbers = "[SLEEP-TEST] requested_ns="@ + decimal(50_000_000) + " elapsed_ns="@
                + decimal(ns as nat) + "\n"@;
            let said = sleep_next(ep, SleepStage::Converting, SleepEvent::Nanos(ns)).1;
            &&& 50_000_000 <= ns <= 200_000_000 ==> said.say == numbers
                + "[SLEEP-TEST] elapsed within tolerance\n"@
            &&& ns < 50_000_000 || ns > 200_000_000 ==> said.say == numbers
                + "[SLEEP-TEST] elapsed OUT OF TOLERANCE\n"@
            &&& said.next is Exit
        }),
{
}

} // verus!
