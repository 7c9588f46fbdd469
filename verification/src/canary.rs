//! The canary: two threads whose registers must survive every switch between them.

use crate::numerals::{decimal, hex};
use crate::writer::{put2, put5, put9};
use vstd::prelude::*;

verus! {

/// How often each thread fills its registers, yields and looks at them again.
pub const ITERATIONS: u64 = 64;

/// The number of registers.
pub const REGISTERS: usize = 32;

/// How often the first thread yields before it gives the second one up.
pub const MAX_SPINS: u32 = 100_000;

/// The mark in the upper bits of every pattern.
pub const MARK: u64 = 0xA55A_0000_0000_0000;

/// The lower half of a register's pattern: the mark with the thread in it, the iteration
/// and the register.
pub open spec fn pattern_low(thread_id: u64, iteration: u64, register: u64) -> u64 {
    ((thread_id << 56) ^ MARK) | (iteration << 16) | register
}

/// A register's pattern: the lower half, and its complement above.
pub open spec fn pattern(thread_id: u64, iteration: u64, register: u64) -> u128 {
    let low = pattern_low(thread_id, iteration, register);
    (((!low) as u128) << 64) | (low as u128)
}

/// The patterns of all registers.
pub open spec fn patterns(thread_id: u64, iteration: u64) -> Seq<u128> {
    Seq::new(REGISTERS as nat, |i: int| pattern(thread_id, iteration, i as u64))
}

/// What a thread fills its registers with.
pub fn build_pattern(thread_id: u64, iteration: u64) -> (r: Vec<u128>)
    ensures
        r@ == patterns(thread_id, iteration),
{
    let mut out: Vec<u128> = Vec::new();
    let mut i: u64 = 0;
    while i < REGISTERS as u64
        invariant
            i <= REGISTERS,
            out@ == patterns(thread_id, iteration).take(i as int),
        decreases REGISTERS - i,
    {
        let low = ((thread_id << 56) ^ MARK) | (iteration << 16) | i;
        let high = !low;
        out.push(((high as u128) << 64) | (low as u128));
        assert(out@ =~= patterns(thread_id, iteration).take(i + 1));
        i += 1;
    }
    assert(patterns(thread_id, iteration).take(i as int) =~= patterns(thread_id, iteration));
    out
}

proof fn lemma_halves(a: u64, b: u64)
    ensures
        ((((!a) as u128) << 64) | (a as u128)) == ((((!b) as u128) << 64) | (b as u128)) ==> a
            == b,
{
    assert(((((!a) as u128) << 64) | (a as u128)) == ((((!b) as u128) << 64) | (b as u128)) ==> a
        == b) by (bit_vector);
}

proof fn lemma_lows(t: u64, i: u64, r: u64, u: u64, j: u64, s: u64)
    requires
        t < 256,
        u < 256,
        i < 0x1_0000_0000,
        j < 0x1_0000_0000,
        r < 32,
        s < 32,
        pattern_low(t, i, r) == pattern_low(u, j, s),
    ensures
        t == u,
        i == j,
        r == s,
{
    assert(((t << 56) ^ 0xA55A_0000_0000_0000u64) | (i << 16) | r == ((u << 56)
        ^ 0xA55A_0000_0000_0000u64) | (j << 16) | s ==> t == u && i == j && r == s)
        by (bit_vector)
        requires
            t < 256,
            u < 256,
            i < 0x1_0000_0000,
            j < 0x1_0000_0000,
            r < 32,
            s < 32,
    ;
}

/// Two threads never share a pattern, nor do two iterations or two registers of a thread.
pub proof fn lemma_patterns_differ(t: u64, i: u64, r: u64, u: u64, j: u64, s: u64)
    requires
        t < 256,
        u < 256,
        i < 0x1_0000_0000,
        j < 0x1_0000_0000,
        r < REGISTERS,
        s < REGISTERS,
        (t, i, r) != (u, j, s),
    ensures
        pattern(t, i, r) != pattern(u, j, s),
{
    lemma_halves(pattern_low(t, i, r), pattern_low(u, j, s));
    if pattern_low(t, i, r) == pattern_low(u, j, s) {
        lemma_lows(t, i, r, u, j, s);
    }
}

/// Both halves of every pattern have bits in them, so that a register that was cleared or
/// whose halves were mixed up is seen.
pub proof fn lemma_halves_marked(t: u64, i: u64, r: u64)
    requires
        t < 256,
        i < 0x1_0000_0000,
        r < REGISTERS,
    ensures
        pattern(t, i, r) as u64 != 0,
        (pattern(t, i, r) >> 64) as u64 != 0,
{
    let low = pattern_low(t, i, r);
    assert(low != 0 && !low != 0) by {
        assert((((t << 56) ^ 0xA55A_0000_0000_0000u64) | (i << 16) | r) != 0 && !(((t << 56)
            ^ 0xA55A_0000_0000_0000u64) | (i << 16) | r) != 0) by (bit_vector)
            requires
                t < 256,
                i < 0x1_0000_0000,
                r < 32,
        ;
    }
    assert(((((!low) as u128) << 64) | (low as u128)) as u64 == low && (((((!low) as u128) << 64)
        | (low as u128)) >> 64) as u64 == !low) by (bit_vector);
}

// ---------------------------------------------------------------------------
// A thread's run
// ---------------------------------------------------------------------------

/// A register that did not survive a switch.
#[derive(Clone, Copy, Debug, PartialEq, Eq, Structural)]
pub struct Mismatch {
    pub thread_id: u64,
    pub iteration: u64,
    pub register: u64,
    pub expected: u128,
    pub got: u128,
}

/// The registers among the first `n` that do not hold what is expected.
pub open spec fn mismatches(
    thread_id: u64,
    iteration: u64,
    expected: Seq<u128>,
    got: Seq<u128>,
    n: nat,
) -> Seq<Mismatch>
    decreases n,
{
    if n == 0 {
        Seq::empty()
    } else {
        let head = mismatches(thread_id, iteration, expected, got, (n - 1) as nat);
        let i = n - 1;
        if expected[i] != got[i] {
            head.push(
                Mismatch {
                    thread_id,
                    iteration,
                    register: i as u64,
                    expected: expected[i],
                    got: got[i],
                },
            )
        } else {
            head
        }
    }
}

/// The text of a number in base sixteen.
pub open spec fn hex_text(n: u64) -> Seq<char> {
    "0x"@ + hex(n as nat)
}

impl Mismatch {
    /// The line that reports the register.
    pub open spec fn report(self) -> Seq<char> {
        "[NEON-CANARY] MISMATCH t="@ + decimal(self.thread_id as nat) + " iter="@ + decimal(
            self.iteration as nat,
        ) + " v"@ + decimal(self.register as nat) + " expected_lo="@ + hex_text(
            self.expected as u64,
        ) + " expected_hi="@ + hex_text((self.expected >> 64) as u64) + " got_lo="@ + hex_text(
            self.got as u64,
        ) + " got_hi="@ + hex_text((self.got >> 64) as u64) + "\n"@
    }

    /// The line that reports the register.
    pub fn line(&self) -> (out: String)
        ensures
            out@ == self.report(),
    {
        let thread = crate::numerals::dec(self.thread_id);
        let iteration = crate::numerals::dec(self.iteration);
        let register = crate::numerals::dec(self.register);
        let expected_lo = hex_string(self.expected as u64);
        let expected_hi = hex_string((self.expected >> 64) as u64);
        let got_lo = hex_string(self.got as u64);
        let got_hi = hex_string((self.got >> 64) as u64);
        let mut out = String::new();
        put5(
            &mut out,
            "[NEON-CANARY] MISMATCH t=",
            thread.as_str(),
            " iter=",
            iteration.as_str(),
            " v",
        );
        put9(
            &mut out,
            register.as_str(),
            " expected_lo=",
            expected_lo.as_str(),
            " expected_hi=",
            expected_hi.as_str(),
            " got_lo=",
            got_lo.as_str(),
            " got_hi=",
            got_hi.as_str(),
        );
        out.append("\n");
        assert(out@ =~= self.report());
        out
    }
}

fn hex_string(n: u64) -> (out: String)
    ensures
        out@ == hex_text(n),
{
    let digits = crate::numerals::hex_of(n);
    let mut out = String::new();
    put2(&mut out, "0x", digits.as_str());
    assert(out@ =~= hex_text(n));
    out
}

/// The run of one thread: how many iterations are done, and how many registers did not
/// survive.
#[derive(Clone, Copy, Debug, PartialEq, Eq, Structural)]
pub struct Canary {
    pub thread_id: u64,
    pub iteration: u64,
    pub failures: u64,
}

impl Canary {
    /// Whether the counts are those of a run.
    pub open spec fn valid(self) -> bool {
        self.iteration <= ITERATIONS && self.failures <= self.iteration * REGISTERS
    }

    pub fn new(thread_id: u64) -> (r: Self)
        ensures
            r == (Canary { thread_id, iteration: 0, failures: 0 }),
            r.valid(),
    {
        Canary { thread_id, iteration: 0, failures: 0 }
    }

    /// What the registers are to be filled with before the next yield; nothing once all
    /// iterations are done.
    pub fn next_pattern(&self) -> (r: Option<Vec<u128>>)
        ensures
            match r {
                Some(p) => self.iteration < ITERATIONS && p@ == patterns(
                    self.thread_id,
                    self.iteration,
                ),
                None => self.iteration >= ITERATIONS,
            },
    {
        if self.iteration < ITERATIONS {
            Some(build_pattern(self.thread_id, self.iteration))
        } else {
            None
        }
    }

    /// Looks at the registers after the yield. Returns those that did not survive.
    pub fn observe(&mut self, got: &Vec<u128>) -> (out: Vec<Mismatch>)
        requires
            old(self).valid(),
            old(self).iteration < ITERATIONS,
            got@.len() == REGISTERS,
        ensures
            final(self).valid(),
            out@ == mismatches(
                old(self).thread_id,
                old(self).iteration,
                patterns(old(self).thread_id, old(self).iteration),
                got@,
                REGISTERS as nat,
            ),
            *final(self) == (Canary {
                thread_id: old(self).thread_id,
                iteration: (old(self).iteration + 1) as u64,
                failures: (old(self).failures + out@.len()) as u64,
            }),
    {
        let expected = build_pattern(self.thread_id, self.iteration);
        let mut out: Vec<Mismatch> = Vec::new();
        let mut i: usize = 0;
        while i < REGISTERS
            invariant
                i <= REGISTERS,
                expected@.len() == REGISTERS,
                got@.len() == REGISTERS,
                out@.len() <= i,
                out@ == mismatches(
                    self.thread_id,
                    self.iteration,
                    expected@,
                    got@,
                    i as nat,
                ),
            decreases REGISTERS - i,
        {
            if expected[i] != got[i] {
                out.push(
                    Mismatch {
                        thread_id: self.thread_id,
                        iteration: self.iteration,
                        register: i as u64,
                        expected: expected[i],
                        got: got[i],
                    },
                );
            }
            i += 1;
        }
        self.iteration = self.iteration + 1;
        self.failures = self.failures + out.len() as u64;
        out
    }
}

proof fn lemma_no_mismatch(
    thread_id: u64,
    iteration: u64,
    expected: Seq<u128>,
    got: Seq<u128>,
    n: nat,
)
    requires
        n <= expected.len(),
        n <= got.len(),
    ensures
        mismatches(thread_id, iteration, expected, got, n).len() == 0 <==> expected.take(n as int)
            == got.take(n as int),
    decreases n,
{
    if n > 0 {
        lemma_no_mismatch(thread_id, iteration, expected, got, (n - 1) as nat);
        let i = n - 1;
        assert(expected.take(n as int).take(i) =~= expected.take(i));
        assert(got.take(n as int).take(i) =~= got.take(i));
        assert(expected.take(n as int)[i] == expected[i]);
        assert(got.take(n as int)[i] == got[i]);
        if expected[i] == got[i] && expected.take(i) == got.take(i) {
            assert(expected.take(n as int) =~= expected.take(i).push(expected[i]));
            assert(got.take(n as int) =~= got.take(i).push(got[i]));
        }
    } else {
        assert(expected.take(0) =~= got.take(0));
    }
}

/// No register is reported exactly where all of them survived.
pub proof fn lemma_silent_iff_survived(thread_id: u64, iteration: u64, got: Seq<u128>)
    requires
        got.len() == REGISTERS,
    ensures
        mismatches(
            thread_id,
            iteration,
            patterns(thread_id, iteration),
            got,
            REGISTERS as nat,
        ).len() == 0 <==> got == patterns(thread_id, iteration),
{
    let expected = patterns(thread_id, iteration);
    lemma_no_mismatch(thread_id, iteration, expected, got, REGISTERS as nat);
    assert(expected.take(REGISTERS as int) =~= expected);
    assert(got.take(REGISTERS as int) =~= got);
}

// ---------------------------------------------------------------------------
// The verdict
// ---------------------------------------------------------------------------

/// What the first thread does while the second one runs.
#[derive(Clone, Copy, Debug, PartialEq, Eq, Structural)]
pub enum ChildWait {
    Finished,
    /// Yield, and look again with this count.
    Yield(u32),
    /// Yield for the last time, and give the second thread up.
    GiveUp,
}

/// What is printed behind the wait.
pub open spec fn wait_text(w: ChildWait) -> Seq<char> {
    match w {
        ChildWait::GiveUp => "neon-canary: child never signalled done\n"@,
        _ => ""@,
    }
}

impl ChildWait {
    /// What is printed behind the wait.
    pub fn says(self) -> (r: &'static str)
        ensures
            r@ == wait_text(self),
    {
        match self {
            ChildWait::GiveUp => "neon-canary: child never signalled done\n",
            _ => "",
        }
    }
}

/// What the first thread does, given whether the second one is done and how often it has
/// yielded.
pub fn wait_for_child(done: bool, spins: u32) -> (r: ChildWait)
    ensures
        r == if done {
            ChildWait::Finished
        } else if spins >= MAX_SPINS {
            ChildWait::GiveUp
        } else {
            ChildWait::Yield((spins + 1) as u32)
        },
{
    if done {
        ChildWait::Finished
    } else if spins >= MAX_SPINS {
        ChildWait::GiveUp
    } else {
        ChildWait::Yield(spins + 1)
    }
}

/// The lines that report both threads' failures.
pub open spec fn verdict(t0: u64, t1: u64) -> Seq<char> {
    "[NEON-CANARY] iterations="@ + decimal(ITERATIONS as nat)
        + " threads=2 checks_per_thread="@ + decimal((ITERATIONS * REGISTERS) as nat)
        + " failures_t0="@ + decimal(t0 as nat) + " failures_t1="@ + decimal(t1 as nat) + "\n"@ + (
    if t0 == 0 && t1 == 0 {
        "[NEON-CANARY] PASS\n"@
    } else {
        "[NEON-CANARY] FAIL\n"@
    })
}

/// The lines that report both threads' failures.
pub fn report(t0: u64, t1: u64) -> (out: String)
    ensures
        out@ == verdict(t0, t1),
{
    let iterations = crate::numerals::dec(ITERATIONS);
    let checks = crate::numerals::dec(ITERATIONS * REGISTERS as u64);
    let first = crate::numerals::dec(t0);
    let second = crate::numerals::dec(t1);
    let mut out = String::new();
    put9(
        &mut out,
        "[NEON-CANARY] iterations=",
        iterations.as_str(),
        " threads=2 checks_per_thread=",
        checks.as_str(),
        " failures_t0=",
        first.as_str(),
        " failures_t1=",
        second.as_str(),
        "\n",
    );
    if t0 == 0 && t1 == 0 {
        out.append("[NEON-CANARY] PASS\n");
    } else {
        out.append("[NEON-CANARY] FAIL\n");
    }
    assert(out@ =~= verdict(t0, t1));
    out
}

/// The registers that are reported are those that do not hold what is expected, each with what it
/// should hold and what it holds.
pub proof fn lemma_mismatches(
    thread_id: u64,
    iteration: u64,
    expected: Seq<u128>,
    got: Seq<u128>,
    n: nat,
    m: Mismatch,
)
    requires
        n <= u64::MAX,
    ensures
        mismatches(thread_id, iteration, expected, got, n).contains(m) <==> {
            &&& m.register < n
            &&& m.thread_id == thread_id
            &&& m.iteration == iteration
            &&& m.expected == expected[m.register as int]
            &&& m.got == got[m.register as int]
            &&& m.expected != m.got
        },
    decreases n,
{
    if n > 0 {
        let k = (n - 1) as nat;
        lemma_mismatches(thread_id, iteration, expected, got, k, m);
        let head = mismatches(thread_id, iteration, expected, got, k);
        let all = mismatches(thread_id, iteration, expected, got, n);
        if head.contains(m) {
            let i = choose|i: int| 0 <= i < head.len() && head[i] == m;
            assert(all[i] == m);
        }
        if all.contains(m) {
            let i = choose|i: int| 0 <= i < all.len() && all[i] == m;
            if i < head.len() {
                assert(head[i] == m);
            }
        }
        if all.len() > head.len() {
            assert(all[head.len() as int].register == n - 1);
        }
    }
}

/// The run passes if and only if neither thread has a failure.
pub proof fn lemma_verdict(t0: u64, t1: u64)
    ensures
        crate::text::ends_with(verdict(t0, t1), "[NEON-CANARY] PASS\n"@) <==> t0 == 0 && t1 == 0,
{
    reveal_strlit("[NEON-CANARY] PASS\n");
    reveal_strlit("[NEON-CANARY] FAIL\n");
    let pass = "[NEON-CANARY] PASS\n"@;
    let fail = "[NEON-CANARY] FAIL\n"@;
    let head = "[NEON-CANARY] iterations="@ + decimal(ITERATIONS as nat)
        + " threads=2 checks_per_thread="@ + decimal((ITERATIONS * REGISTERS) as nat)
        + " failures_t0="@ + decimal(t0 as nat) + " failures_t1="@ + decimal(t1 as nat) + "\n"@;
    let v = verdict(t0, t1);
    assert(pass.len() == 19 && fail.len() == 19);
    if t0 == 0 && t1 == 0 {
        assert(v == head + pass);
        assert(v.skip(v.len() - 19) =~= pass);
    } else {
        assert(v == head + fail);
        assert(v.skip(v.len() - 19) =~= fail);
        assert(pass[14] == 'P' && fail[14] == 'F');
    }
}

/// A wait says something if and only if the second thread is given up.
pub proof fn lemma_wait_text(w: ChildWait)
    ensures
        wait_text(w).len() > 0 <==> w == ChildWait::GiveUp,
{
    reveal_strlit("");
    reveal_strlit("neon-canary: child never signalled done\n");
}

} // verus!
