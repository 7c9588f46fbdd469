//! What a program asks of the kernel, and how it goes on once the kernel has answered.
//!
//! An operation that needs the kernel is a value that stands between two system calls: it
//! is asked for a request, and resumed with the kernel's answer.

use vstd::prelude::*;

verus! {

/// Why a system call did not succeed.
#[derive(Clone, Copy, Debug, PartialEq, Eq, Structural)]
pub enum SyscallError {
    /// The code that the kernel answered with.
    Kernel(u64),
    /// There are no addresses or frames left.
    OutOfMemory,
}

/// The kernel's answer to a call: a value, or an error.
pub type Reply = Result<u64, SyscallError>;

/// The words of a message.
#[derive(Clone, Copy, Debug, PartialEq, Eq, Structural)]
pub struct Words(pub u64, pub u64, pub u64, pub u64);

/// The kernel's answer to a call that carries a message: its words, or an error.
pub type Message = Result<Words, SyscallError>;

/// How pages are cached.
#[derive(Clone, Copy, Debug, PartialEq, Eq, Structural)]
pub enum MapAttribute {
    Normal,
    Device,
}

/// What is asked of the kernel, or of the memory behind a mapping.
#[derive(Clone, Copy, Debug, PartialEq, Eq, Structural)]
pub enum Request {
    AllocPages { count: u64 },
    AllocContiguous { count: u64 },
    AllocDmaPages { count: u64 },
    QueryPhys { pageset: u64, page: u64 },
    RegisterDevicePage { phys: u64 },
    MapPages { pageset: u64, va: u64, attribute: MapAttribute },
    UnmapPages { pageset: u64, va: u64 },
    CloseHandle { handle: u64 },
    ExportHandle { handle: u64 },
    CreateNotification { pageset: u64 },
    CreateEndpoint { pageset: u64 },
    CreateReply { pageset: u64 },
    BindIrq { intid: u64, notification: u64, flags: u64 },
    UnmaskIrq { intid: u64 },
    WaitNotification { notification: u64, threshold: u64 },
    /// Wait for a notification, but not beyond the deadline.
    WaitUntil { notification: u64, threshold: u64, deadline: u64 },
    /// Wait for the deadline alone.
    Sleep { deadline: u64 },
    Call { endpoint: u64, reply: u64, message: Words },
    /// Make the processor's reads see what the device wrote.
    SyncForCpu { pageset: u64, offset: u64, len: u64 },
    /// Make the device's reads see what the processor wrote.
    SyncForDevice { pageset: u64, offset: u64, len: u64 },
    Yield,
    Exit,
    /// Write zeros over mapped memory.
    Zero { va: u64, bytes: u64 },
}

/// Where an operation stands: it waits for the answer to a request, or it is done.
pub enum Step<S, T> {
    Ask(S, Request),
    Done(T),
}

/// Interrupt flag: the line is triggered by an edge.
pub const IRQ_FLAG_EDGE: u64 = 1;

/// The answer that registers carry: a value where the error register is zero.
pub fn decode_reply(err: u64, value: u64) -> (r: Reply)
    ensures
        r == if err == 0 {
            Ok(value)
        } else {
            Err(SyscallError::Kernel(err))
        },
{
    if err == 0 {
        Ok(value)
    } else {
        Err(SyscallError::Kernel(err))
    }
}

/// Where the kernel keeps the description of the machine.
#[derive(Clone, Copy, Debug, PartialEq, Eq, Structural)]
pub struct BootInfo {
    /// The pages that hold the description.
    pub dtb_pageset: u64,
    /// Where it starts in the first of them.
    pub dtb_in_page_offset: u32,
}

/// The answer to the question for the description of the machine.
pub fn decode_boot_info(err: u64, handle: u64, offset: u64) -> (r: Result<BootInfo, SyscallError>)
    ensures
        r == if err == 0 {
            Ok::<BootInfo, SyscallError>(
                BootInfo { dtb_pageset: handle, dtb_in_page_offset: offset as u32 },
            )
        } else {
            Err(SyscallError::Kernel(err))
        },
{
    if err == 0 {
        Ok(BootInfo { dtb_pageset: handle, dtb_in_page_offset: offset as u32 })
    } else {
        Err(SyscallError::Kernel(err))
    }
}

/// The answer to the question whether a page is mapped, and how many pages from it on share
/// its state.
pub fn decode_mapping(err: u64, mapped: u64, run_pages: u64) -> (r: Result<
    (bool, u64),
    SyscallError,
>)
    ensures
        r == if err == 0 {
            Ok::<(bool, u64), SyscallError>((mapped != 0, run_pages))
        } else {
            Err(SyscallError::Kernel(err))
        },
{
    if err == 0 {
        Ok((mapped != 0, run_pages))
    } else {
        Err(SyscallError::Kernel(err))
    }
}

/// The scheduler's counters.
#[derive(Clone, Copy)]
pub struct SchedTelemetry {
    pub ticks: u64,
    pub ctx_switches: u64,
    pub ttbr0_writes: u64,
    pub tick_max_cycles: u64,
}

/// How far a counter went from `from` to `to`; none where it went back.
pub open spec fn advance(from: u64, to: u64) -> u64 {
    if to >= from {
        (to - from) as u64
    } else {
        0
    }
}

fn advanced(from: u64, to: u64) -> (r: u64)
    ensures
        r == advance(from, to),
{
    if to >= from {
        to - from
    } else {
        0
    }
}

impl SchedTelemetry {
    /// How far each counter went since `from`.
    pub fn delta_from(&self, from: &SchedTelemetry) -> (r: SchedTelemetry)
        ensures
            r.ticks == advance(from.ticks, self.ticks),
            r.ctx_switches == advance(from.ctx_switches, self.ctx_switches),
            r.ttbr0_writes == advance(from.ttbr0_writes, self.ttbr0_writes),
            r.tick_max_cycles == advance(from.tick_max_cycles, self.tick_max_cycles),
    {
        SchedTelemetry {
            ticks: advanced(from.ticks, self.ticks),
            ctx_switches: advanced(from.ctx_switches, self.ctx_switches),
            ttbr0_writes: advanced(from.ttbr0_writes, self.ttbr0_writes),
            tick_max_cycles: advanced(from.tick_max_cycles, self.tick_max_cycles),
        }
    }
}

/// A counter that did not go back went as far as takes it from the one reading to the other; one
/// that went back counts as if it had stood still.
pub proof fn lemma_advance(from: u64, to: u64)
    ensures
        from <= to ==> from + advance(from, to) == to,
        to <= from ==> advance(from, to) == 0,
{
}

} // verus!
