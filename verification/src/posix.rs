//! The POSIX server: it serves the system calls of a POSIX program with the services of
//! this system.
//!
//! The server's loop performs an action, and hands what came of it to
//! [`PosixServer::step`], which says what comes next.

use crate::fs::{FsError, OpenedFile};
use crate::handle::PageSetHandle;
use crate::numerals::{hex, hex_of};
use crate::posix_regions::{
    pages_for, region_at, regions_apart, without_region, MmapEntry, MmapTable, MmapVaAllocator,
    MAX_MMAP_REGIONS,
};
use crate::slots::{first_free, no_slots, used_from, Slots};
use crate::syscall::{MapAttribute, Reply, Request, SyscallError, Words};
use crate::virtual_memory::PAGE_SIZE;
use crate::writer::put3;
use vstd::prelude::*;

verus! {

/// The number of remote handles that can wait for their close to be tried again.
pub const MAX_DEFERRED_CLOSES: usize = 4;

/// What the answers of failed calls carry.
#[derive(Clone, Copy, Debug, PartialEq, Eq, Structural)]
pub struct PosixErrors {
    pub ebadf: u64,
    pub einval: u64,
    pub eio: u64,
    pub eisdir: u64,
    pub emfile: u64,
    pub enoent: u64,
    pub enomem: u64,
    pub enosys: u64,
    pub enotdir: u64,
}

/// What the server is set up with.
#[derive(Clone, Copy, Debug, PartialEq, Eq, Structural)]
pub struct PosixConfig {
    pub errors: PosixErrors,
    /// The descriptor of the standard input.
    pub stdin: u64,
    /// The number of descriptors.
    pub max_fds: usize,
    /// The longest path that can be opened.
    pub max_path: u64,
    /// Where the client has the shared buffer, its heap and its mappings.
    pub child_shared_va: u64,
    pub brk_base: u64,
    pub mmap_base: u64,
    /// Where the addresses for mappings start and end.
    pub region_base: u64,
    pub region_limit: u64,
}

/// What a client asks for.
#[derive(Clone, Copy, Debug, PartialEq, Eq, Structural)]
pub enum PosixCall {
    PosixInit,
    EmitFromShared { len: u64, then_reply: u64 },
    Exit,
    Reply(Words),
    Unknown { nr: u64 },
    FileOpen { path_len: u64, flags: u64 },
    FileRead { fd: u64, len: u64 },
    FileClose { fd: u64 },
    FileMmap { len_bytes: u64 },
    FileMunmap { base_va: u64, len_bytes: u64 },
    FileMprotect { base_va: u64, len_bytes: u64 },
    FileMadvise,
    FileMmapRollback { base_va: u64 },
}

/// What a descriptor stands for.
#[derive(Clone, Copy, Debug, PartialEq, Eq, Structural)]
pub enum FdKind {
    Stdio,
    File,
}

/// A descriptor in use.
#[derive(Clone, Copy, Debug, PartialEq, Eq, Structural)]
pub struct FdEntry {
    pub kind: FdKind,
    /// The file system server's handle of the file.
    pub server_handle: u32,
}

/// What the server holds for an open file.
#[derive(Clone, Copy, Debug, PartialEq, Eq, Structural)]
pub struct FileResource {
    pub buffer_pageset: PageSetHandle,
    /// Where the server has the buffer.
    pub buffer_va: u64,
    pub buffer_size: u32,
}

/// What the server prints.
#[derive(Clone, Copy, Debug, PartialEq, Eq, Structural)]
pub enum PosixText {
    InitDone,
    ChildExit,
    Done,
    ReceiveFailed,
    SharedAllocFailed,
    SharedMapFailed,
    SharedExportFailed,
    QueueFull,
    Panic,
}

/// The words of a text.
pub open spec fn words_of_text(t: PosixText) -> Seq<char> {
    match t {
        PosixText::InitDone => "posix-server: POSIX_INIT OK\n"@,
        PosixText::ChildExit => "posix-server: child exit\n"@,
        PosixText::Done => "posix-server: done\n"@,
        PosixText::ReceiveFailed => "posix: receive FAILED\n"@,
        PosixText::SharedAllocFailed => "posix: shared alloc FAILED\n"@,
        PosixText::SharedMapFailed => "posix: shared map FAILED\n"@,
        PosixText::SharedExportFailed => "posix: export shared FAILED\n"@,
        PosixText::QueueFull => "posix: deferred-close queue full; halting\n"@,
        PosixText::Panic => "posix-server: PANIC\n"@,
    }
}

/// The line on a call that is not known.
pub open spec fn unknown_text(nr: u64) -> Seq<char> {
    "posix: unknown nr=0x"@ + hex(nr as nat) + " -> ENOSYS\n"@
}

/// The line on a call that is not known.
pub fn unknown_line(nr: u64) -> (out: String)
    ensures
        out@ == unknown_text(nr),
{
    let digits = hex_of(nr);
    let mut out = String::new();
    put3(&mut out, "posix: unknown nr=0x", digits.as_str(), " -> ENOSYS\n");
    assert(out@ =~= unknown_text(nr));
    out
}

impl PosixText {
    /// The words of the text.
    pub fn words(self) -> (r: &'static str)
        ensures
            r@ == words_of_text(self),
    {
        match self {
            PosixText::InitDone => "posix-server: POSIX_INIT OK\n",
            PosixText::ChildExit => "posix-server: child exit\n",
            PosixText::Done => "posix-server: done\n",
            PosixText::ReceiveFailed => "posix: receive FAILED\n",
            PosixText::SharedAllocFailed => "posix: shared alloc FAILED\n",
            PosixText::SharedMapFailed => "posix: shared map FAILED\n",
            PosixText::SharedExportFailed => "posix: export shared FAILED\n",
            PosixText::QueueFull => "posix: deferred-close queue full; halting\n",
            PosixText::Panic => "posix-server: PANIC\n",
        }
    }
}

/// What the server's loop does next.
#[derive(Clone, Copy, Debug, PartialEq, Eq, Structural)]
pub enum PosixAction {
    /// Wait for a call, and find out what it asks for.
    Receive,
    /// Answer the client that waits.
    Reply(Words),
    Kernel(Request),
    /// Ask the kernel who the client that waits is.
    QueryCallerToken,
    AllocVa { pages: u64 },
    FreeVa { va: u64, pages: u64 },
    /// Open the file whose path stands in the shared buffer.
    FsOpen { path_va: u64, path_len: u64, buffer_pages: u8 },
    FsRead { handle: u32, max: u32 },
    FsClose { handle: u32 },
    /// Give a file a free descriptor.
    AllocFd { handle: u32, flags: u32 },
    LookupFd { fd: u32 },
    CloseFd { fd: u32 },
    /// Print bytes of the shared buffer.
    Emit { va: u64, len: u64 },
    /// Copy bytes into the shared buffer.
    Copy { from: u64, to: u64, bytes: u32 },
    Print(PosixText),
    PrintUnknown { nr: u64 },
    /// Print the text and exit.
    Halt(PosixText),
}

/// What came of it.
#[derive(Clone, Copy, Debug)]
pub enum PosixEvent {
    /// An action without a result was performed.
    Done,
    Received(Option<PosixCall>),
    Kernel(Reply),
    Token(u64),
    Va(Option<u64>),
    Opened(Result<OpenedFile, FsError>),
    BytesRead(Result<u32, FsError>),
    Closed(Result<(), FsError>),
    Fd(Option<u32>),
    Entry(Option<FdEntry>),
}

/// What the server waits for.
#[derive(Clone, Copy, Debug, PartialEq, Eq, Structural)]
pub enum PosixStage {
    /// The client was answered, or the server has just started.
    Served,
    /// The handle in a slot of the queue is being closed.
    Retrying(usize),
    Receiving,
    Halted,
    InitAllocating,
    InitAddressing(u64),
    InitMapping(u64),
    InitExporting,
    InitReplying,
    Emitting(u64),
    Leaving,
    Unknown,
    Opening(u32),
    OpenAddressing(OpenedFile, u32),
    OpenMapping(OpenedFile, u32, u64),
    OpenNumbering(OpenedFile, u64),
    /// An opened file is given up: its buffer is being unmapped.
    UndoUnmapping(OpenedFile, u64, u64),
    /// Its page set is being closed; the address is still to be freed.
    UndoClosing(OpenedFile, Option<u64>, u64),
    UndoFreeing(u32, u64),
    /// Its remote handle is being closed.
    UndoRemote(u32, u64),
    ReadLookup(u64, u64),
    Reading(FileResource),
    Copying(u32),
    CloseLookup(u64),
    Closing(u64),
    CloseNumbering(u64),
    DropUnmapping(FileResource),
    DropClosing(FileResource),
    DropFreeing,
    MmapToken(u64),
    MmapAllocating(u64, u64),
    MmapExporting(MmapEntry),
    MunmapToken(u64, u64),
    MprotectToken(u64, u64),
    RollbackToken(u64),
    /// A handle is being closed; then the client is answered.
    Answering(u64),
}

/// The state of the server, as plain values.
pub struct PosixView {
    pub config: PosixConfig,
    /// Where the server has the shared buffer; zero before the client's first call.
    pub shared_va: u64,
    pub resources: Seq<Option<FileResource>>,
    pub deferred: Seq<Option<u32>>,
    pub regions: Seq<Option<MmapEntry>>,
    pub addresses: MmapVaAllocator,
    pub stage: PosixStage,
}

// ---------------------------------------------------------------------------
// What the server does
// ---------------------------------------------------------------------------

/// The server performs an action and waits.
pub open spec fn posix_wait(v: PosixView, stage: PosixStage, a: PosixAction) -> (
    PosixView,
    PosixAction,
) {
    (PosixView { stage, ..v }, a)
}

/// The server answers the client.
pub open spec fn posix_reply(v: PosixView, w: Words) -> (PosixView, PosixAction) {
    posix_wait(v, PosixStage::Served, PosixAction::Reply(w))
}

/// The server answers the client with one word.
pub open spec fn posix_word(v: PosixView, w: u64) -> (PosixView, PosixAction) {
    posix_reply(v, Words(w, 0, 0, 0))
}

pub open spec fn posix_halt(v: PosixView, t: PosixText) -> (PosixView, PosixAction) {
    posix_wait(v, PosixStage::Halted, PosixAction::Halt(t))
}

/// The server tries to close the queued handles from slot `i` on, each once, and then waits
/// for a call.
pub open spec fn posix_drain(v: PosixView, i: int) -> (PosixView, PosixAction) {
    let k = used_from(v.deferred, i);
    if k < v.deferred.len() {
        posix_wait(
            v,
            PosixStage::Retrying(k as usize),
            PosixAction::FsClose { handle: v.deferred[k]->0 },
        )
    } else {
        posix_wait(v, PosixStage::Receiving, PosixAction::Receive)
    }
}

/// What a client is answered when the file system refuses.
pub open spec fn errno_of(e: PosixErrors, f: FsError) -> u64 {
    match f {
        FsError::NotFound => e.enoent,
        FsError::IsDirectory => e.eisdir,
        FsError::NotDirectory => e.enotdir,
        FsError::TooManyOpen => e.emfile,
        FsError::AllocFailed => e.enomem,
        FsError::Io => e.eio,
        FsError::PathTooLong => e.einval,
        FsError::Invalid => e.einval,
        FsError::InvalidBufferPages => e.einval,
        FsError::Unknown => e.einval,
        FsError::IpcFailed => e.einval,
    }
}

/// The most that one read can fetch: what was asked for, the file's buffer, and a page.
pub open spec fn read_cap(len: u64, buffer_size: u32) -> u32 {
    let asked = len as u32;
    let held = if asked <= buffer_size {
        asked
    } else {
        buffer_size
    };
    if held <= PAGE_SIZE {
        held
    } else {
        PAGE_SIZE as u32
    }
}

pub open spec fn kernel(r: Request) -> PosixAction {
    PosixAction::Kernel(r)
}

/// What the server does with a call.
pub open spec fn posix_call(v: PosixView, call: PosixCall) -> (PosixView, PosixAction) {
    let e = v.config.errors;
    match call {
        PosixCall::PosixInit => posix_wait(
            v,
            PosixStage::InitAllocating,
            kernel(Request::AllocPages { count: 1 }),
        ),
        PosixCall::EmitFromShared { len, then_reply } => if v.shared_va == 0 {
            posix_word(v, e.einval)
        } else {
            posix_wait(
                v,
                PosixStage::Emitting(then_reply),
                PosixAction::Emit { va: v.shared_va, len },
            )
        },
        PosixCall::Exit => posix_wait(
            v,
            PosixStage::Leaving,
            PosixAction::Print(PosixText::ChildExit),
        ),
        PosixCall::Reply(w) => posix_reply(v, w),
        PosixCall::Unknown { nr } => posix_wait(
            v,
            PosixStage::Unknown,
            PosixAction::PrintUnknown { nr },
        ),
        PosixCall::FileOpen { path_len, flags } => if v.shared_va == 0 || path_len == 0 || path_len
            > v.config.max_path {
            posix_word(v, e.einval)
        } else {
            posix_wait(
                v,
                PosixStage::Opening(flags as u32),
                PosixAction::FsOpen { path_va: v.shared_va, path_len, buffer_pages: 1 },
            )
        },
        PosixCall::FileRead { fd, len } => if v.shared_va == 0 {
            posix_word(v, e.einval)
        } else {
            posix_wait(
                v,
                PosixStage::ReadLookup(fd, len),
                PosixAction::LookupFd { fd: fd as u32 },
            )
        },
        PosixCall::FileClose { fd } => posix_wait(
            v,
            PosixStage::CloseLookup(fd),
            PosixAction::LookupFd { fd: fd as u32 },
        ),
        PosixCall::FileMmap { len_bytes } => posix_wait(
            v,
            PosixStage::MmapToken(len_bytes),
            PosixAction::QueryCallerToken,
        ),
        PosixCall::FileMunmap { base_va, len_bytes } => posix_wait(
            v,
            PosixStage::MunmapToken(base_va, len_bytes),
            PosixAction::QueryCallerToken,
        ),
        PosixCall::FileMprotect { base_va, len_bytes } => posix_wait(
            v,
            PosixStage::MprotectToken(base_va, len_bytes),
            PosixAction::QueryCallerToken,
        ),
        PosixCall::FileMadvise => posix_word(v, 0),
        PosixCall::FileMmapRollback { base_va } => posix_wait(
            v,
            PosixStage::RollbackToken(base_va),
            PosixAction::QueryCallerToken,
        ),
    }
}

/// How the set-up of the shared buffer goes on.
pub open spec fn init_next(v: PosixView, event: PosixEvent) -> (PosixView, PosixAction) {
    match (v.stage, event) {
        (PosixStage::InitAllocating, PosixEvent::Kernel(Ok(ps))) => posix_wait(
            v,
            PosixStage::InitAddressing(ps),
            PosixAction::AllocVa { pages: 1 },
        ),
        (PosixStage::InitAllocating, _) => posix_halt(v, PosixText::SharedAllocFailed),
        (PosixStage::InitAddressing(ps), PosixEvent::Va(Some(va))) => posix_wait(
            PosixView { shared_va: va, ..v },
            PosixStage::InitMapping(ps),
            kernel(Request::MapPages { pageset: ps, va, attribute: MapAttribute::Normal }),
        ),
        (PosixStage::InitAddressing(_), _) => posix_halt(v, PosixText::Panic),
        (PosixStage::InitMapping(ps), PosixEvent::Kernel(Ok(_))) => posix_wait(
            v,
            PosixStage::InitExporting,
            kernel(Request::ExportHandle { handle: ps }),
        ),
        (PosixStage::InitMapping(_), _) => posix_halt(v, PosixText::SharedMapFailed),
        (PosixStage::InitExporting, PosixEvent::Kernel(Ok(index))) => posix_wait(
            v,
            PosixStage::InitReplying,
            PosixAction::Reply(
                Words(index, v.config.child_shared_va, v.config.brk_base, v.config.mmap_base),
            ),
        ),
        (PosixStage::InitExporting, _) => posix_halt(v, PosixText::SharedExportFailed),
        _ => posix_wait(v, PosixStage::Served, PosixAction::Print(PosixText::InitDone)),
    }
}

/// Gives an opened file up: its page set is closed, its address freed, its remote handle
/// closed, and the client is answered.
pub open spec fn open_undo(v: PosixView, file: OpenedFile, va: Option<u64>, errno: u64) -> (
    PosixView,
    PosixAction,
) {
    posix_wait(
        v,
        PosixStage::UndoClosing(file, va, errno),
        kernel(Request::CloseHandle { handle: file.pageset.0 }),
    )
}

/// How the opening of a file goes on.
pub open spec fn open_next(v: PosixView, event: PosixEvent) -> (PosixView, PosixAction) {
    let e = v.config.errors;
    match (v.stage, event) {
        (PosixStage::Opening(flags), PosixEvent::Opened(Ok(file))) => posix_wait(
            v,
            PosixStage::OpenAddressing(file, flags),
            PosixAction::AllocVa { pages: 1 },
        ),
        (PosixStage::Opening(_), PosixEvent::Opened(Err(f))) => posix_word(v, errno_of(e, f)),
        (PosixStage::OpenAddressing(file, flags), PosixEvent::Va(Some(va))) => posix_wait(
            v,
            PosixStage::OpenMapping(file, flags, va),
            kernel(
                Request::MapPages {
                    pageset: file.pageset.0,
                    va,
                    attribute: MapAttribute::Normal,
                },
            ),
        ),
        (PosixStage::OpenAddressing(file, _), _) => open_undo(v, file, None, e.enomem),
        (PosixStage::OpenMapping(file, flags, va), PosixEvent::Kernel(Ok(_))) => posix_wait(
            v,
            PosixStage::OpenNumbering(file, va),
            PosixAction::AllocFd { handle: file.handle, flags },
        ),
        (PosixStage::OpenMapping(file, _, va), _) => open_undo(v, file, Some(va), e.enomem),
        (PosixStage::OpenNumbering(file, va), PosixEvent::Fd(Some(fd))) => if fd
            < v.resources.len() {
            posix_word(
                PosixView {
                    resources: v.resources.update(
                        fd as int,
                        Some(
                            FileResource {
                                buffer_pageset: file.pageset,
                                buffer_va: va,
                                buffer_size: file.buffer_size,
                            },
                        ),
                    ),
                    ..v
                },
                fd as u64,
            )
        } else {
            posix_halt(v, PosixText::Panic)
        },
        (PosixStage::OpenNumbering(file, va), _) => posix_wait(
            v,
            PosixStage::UndoUnmapping(file, va, e.emfile),
            kernel(Request::UnmapPages { pageset: file.pageset.0, va }),
        ),
        (PosixStage::UndoUnmapping(file, va, errno), _) => open_undo(v, file, Some(va), errno),
        (PosixStage::UndoClosing(file, Some(va), errno), _) => posix_wait(
            v,
            PosixStage::UndoFreeing(file.handle, errno),
            PosixAction::FreeVa { va, pages: 1 },
        ),
        (PosixStage::UndoClosing(file, None, errno), _) => posix_wait(
            v,
            PosixStage::UndoRemote(file.handle, errno),
            PosixAction::FsClose { handle: file.handle },
        ),
        (PosixStage::UndoFreeing(handle, errno), _) => posix_wait(
            v,
            PosixStage::UndoRemote(handle, errno),
            PosixAction::FsClose { handle },
        ),
        (PosixStage::UndoRemote(_, errno), PosixEvent::Closed(Ok(_))) => posix_word(v, errno),
        (PosixStage::UndoRemote(handle, errno), _) => if first_free(v.deferred)
            < v.deferred.len() {
            posix_word(
                PosixView {
                    deferred: v.deferred.update(first_free(v.deferred), Some(handle)),
                    ..v
                },
                errno,
            )
        } else {
            posix_halt(v, PosixText::QueueFull)
        },
        _ => posix_halt(v, PosixText::Panic),
    }
}

/// How a read goes on.
pub open spec fn read_next(v: PosixView, event: PosixEvent) -> (PosixView, PosixAction) {
    let e = v.config.errors;
    match (v.stage, event) {
        (PosixStage::ReadLookup(fd, len), PosixEvent::Entry(Some(entry))) => match entry.kind {
            FdKind::Stdio => posix_word(
                v,
                if fd == v.config.stdin {
                    0
                } else {
                    e.ebadf
                },
            ),
            FdKind::File => if fd >= v.resources.len() {
                posix_halt(v, PosixText::Panic)
            } else {
                match v.resources[fd as int] {
                    Some(r) => posix_wait(
                        v,
                        PosixStage::Reading(r),
                        PosixAction::FsRead {
                            handle: entry.server_handle,
                            max: read_cap(len, r.buffer_size),
                        },
                    ),
                    None => posix_word(v, e.ebadf),
                }
            },
        },
        (PosixStage::ReadLookup(_, _), _) => posix_word(v, e.ebadf),
        (PosixStage::Reading(r), PosixEvent::BytesRead(Ok(n))) => posix_wait(
            v,
            PosixStage::Copying(n),
            PosixAction::Copy { from: r.buffer_va, to: v.shared_va, bytes: n },
        ),
        (PosixStage::Reading(_), PosixEvent::BytesRead(Err(f))) => posix_word(v, errno_of(e, f)),
        (PosixStage::Copying(n), _) => posix_word(v, n as u64),
        _ => posix_halt(v, PosixText::Panic),
    }
}

/// How a close goes on.
pub open spec fn close_next(v: PosixView, event: PosixEvent) -> (PosixView, PosixAction) {
    let e = v.config.errors;
    match (v.stage, event) {
        (PosixStage::CloseLookup(fd), PosixEvent::Entry(Some(entry))) => match entry.kind {
            FdKind::Stdio => posix_word(v, e.ebadf),
            FdKind::File => posix_wait(
                v,
                PosixStage::Closing(fd),
                PosixAction::FsClose { handle: entry.server_handle },
            ),
        },
        (PosixStage::CloseLookup(_), _) => posix_word(v, e.ebadf),
        (PosixStage::Closing(_), PosixEvent::Closed(Err(f))) => posix_word(v, errno_of(e, f)),
        (PosixStage::Closing(fd), _) => posix_wait(
            v,
            PosixStage::CloseNumbering(fd),
            PosixAction::CloseFd { fd: fd as u32 },
        ),
        (PosixStage::CloseNumbering(fd), _) => if fd >= v.resources.len() {
            posix_halt(v, PosixText::Panic)
        } else {
            match v.resources[fd as int] {
                Some(r) => posix_wait(
                    PosixView { resources: v.resources.update(fd as int, None), ..v },
                    PosixStage::DropUnmapping(r),
                    kernel(
                        Request::UnmapPages { pageset: r.buffer_pageset.0, va: r.buffer_va },
                    ),
                ),
                None => posix_word(v, 0),
            }
        },
        (PosixStage::DropUnmapping(r), _) => posix_wait(
            v,
            PosixStage::DropClosing(r),
            kernel(Request::CloseHandle { handle: r.buffer_pageset.0 }),
        ),
        (PosixStage::DropClosing(r), _) => posix_wait(
            v,
            PosixStage::DropFreeing,
            PosixAction::FreeVa { va: r.buffer_va, pages: 1 },
        ),
        _ => posix_word(v, 0),
    }
}

/// How the mapping and unmapping of memory goes on.
pub open spec fn region_next(v: PosixView, event: PosixEvent) -> (PosixView, PosixAction) {
    let e = v.config.errors;
    match (v.stage, event) {
        (PosixStage::MmapToken(len), PosixEvent::Token(token)) => if first_free(v.regions)
            >= v.regions.len() {
            posix_word(v, e.enomem)
        } else {
            posix_wait(
                v,
                PosixStage::MmapAllocating(token, len),
                kernel(Request::AllocPages { count: pages_for(len) as u64 }),
            )
        },
        (PosixStage::MmapAllocating(token, len), PosixEvent::Kernel(Ok(ps))) => {
            match v.addresses.after(pages_for(len)) {
                Some(addresses) => posix_wait(
                    PosixView { addresses, ..v },
                    PosixStage::MmapExporting(
                        MmapEntry {
                            caller_token: token,
                            base_va: v.addresses.next,
                            len_bytes: len,
                            server_pageset: PageSetHandle(ps),
                        },
                    ),
                    kernel(Request::ExportHandle { handle: ps }),
                ),
                None => posix_wait(
                    v,
                    PosixStage::Answering(e.enomem),
                    kernel(Request::CloseHandle { handle: ps }),
                ),
            }
        },
        (PosixStage::MmapAllocating(_, _), _) => posix_word(v, e.enomem),
        (PosixStage::MmapExporting(entry), PosixEvent::Kernel(Ok(handle))) => posix_reply(
            PosixView {
                regions: v.regions.update(first_free(v.regions), Some(entry)),
                ..v
            },
            Words(0, entry.base_va, handle, pages_for(entry.len_bytes) as u64),
        ),
        (PosixStage::MmapExporting(entry), _) => posix_wait(
            v,
            PosixStage::Answering(e.enomem),
            kernel(Request::CloseHandle { handle: entry.server_pageset.0 }),
        ),
        (PosixStage::MunmapToken(base, len), PosixEvent::Token(token)) => {
            match region_at(v.regions, token, base) {
                Some(r) => if r.len_bytes == len {
                    posix_wait(
                        PosixView { regions: without_region(v.regions, token, base), ..v },
                        PosixStage::Answering(0),
                        kernel(Request::CloseHandle { handle: r.server_pageset.0 }),
                    )
                } else {
                    posix_word(v, e.einval)
                },
                None => posix_word(v, e.einval),
            }
        },
        (PosixStage::MprotectToken(base, len), PosixEvent::Token(token)) => {
            match region_at(v.regions, token, base) {
                Some(r) => posix_word(
                    v,
                    if r.len_bytes == len {
                        0
                    } else {
                        e.einval
                    },
                ),
                None => posix_word(v, e.einval),
            }
        },
        (PosixStage::RollbackToken(base), PosixEvent::Token(token)) => {
            match region_at(v.regions, token, base) {
                Some(r) => posix_wait(
                    PosixView { regions: without_region(v.regions, token, base), ..v },
                    PosixStage::Answering(0),
                    kernel(Request::CloseHandle { handle: r.server_pageset.0 }),
                ),
                None => posix_word(v, e.einval),
            }
        },
        (PosixStage::Answering(w), _) => posix_word(v, w),
        _ => posix_halt(v, PosixText::Panic),
    }
}

/// What the server does when `event` comes.
pub open spec fn posix_next(v: PosixView, event: PosixEvent) -> (PosixView, PosixAction) {
    match v.stage {
        PosixStage::Served => posix_drain(v, 0),
        PosixStage::Retrying(i) => match event {
            PosixEvent::Closed(Ok(_)) => posix_drain(
                PosixView { deferred: v.deferred.update(i as int, None), ..v },
                i + 1,
            ),
            _ => posix_drain(v, i + 1),
        },
        PosixStage::Receiving => match event {
            PosixEvent::Received(Some(call)) => posix_call(v, call),
            _ => posix_halt(v, PosixText::ReceiveFailed),
        },
        PosixStage::Halted => posix_halt(v, PosixText::Done),
        PosixStage::InitAllocating => init_next(v, event),
        PosixStage::InitAddressing(_) => init_next(v, event),
        PosixStage::InitMapping(_) => init_next(v, event),
        PosixStage::InitExporting => init_next(v, event),
        PosixStage::InitReplying => init_next(v, event),
        PosixStage::Emitting(w) => posix_word(v, w),
        PosixStage::Leaving => posix_halt(v, PosixText::Done),
        PosixStage::Unknown => posix_word(v, v.config.errors.enosys),
        PosixStage::Opening(_) => open_next(v, event),
        PosixStage::OpenAddressing(_, _) => open_next(v, event),
        PosixStage::OpenMapping(_, _, _) => open_next(v, event),
        PosixStage::OpenNumbering(_, _) => open_next(v, event),
        PosixStage::UndoUnmapping(_, _, _) => open_next(v, event),
        PosixStage::UndoClosing(_, _, _) => open_next(v, event),
        PosixStage::UndoFreeing(_, _) => open_next(v, event),
        PosixStage::UndoRemote(_, _) => open_next(v, event),
        PosixStage::ReadLookup(_, _) => read_next(v, event),
        PosixStage::Reading(_) => read_next(v, event),
        PosixStage::Copying(_) => read_next(v, event),
        PosixStage::CloseLookup(_) => close_next(v, event),
        PosixStage::Closing(_) => close_next(v, event),
        PosixStage::CloseNumbering(_) => close_next(v, event),
        PosixStage::DropUnmapping(_) => close_next(v, event),
        PosixStage::DropClosing(_) => close_next(v, event),
        PosixStage::DropFreeing => close_next(v, event),
        _ => region_next(v, event),
    }
}

/// Whether an event is one that the server waits for.
pub open spec fn posix_awaits(stage: PosixStage, event: PosixEvent) -> bool {
    match stage {
        PosixStage::Halted => false,
        PosixStage::Served => event is Done,
        PosixStage::InitReplying => event is Done,
        PosixStage::Emitting(_) => event is Done,
        PosixStage::Leaving => event is Done,
        PosixStage::Unknown => event is Done,
        PosixStage::UndoFreeing(_, _) => event is Done,
        PosixStage::Copying(_) => event is Done,
        PosixStage::CloseNumbering(_) => event is Done,
        PosixStage::DropFreeing => event is Done,
        PosixStage::Receiving => match event {
            PosixEvent::Received(Some(PosixCall::FileMmap { len_bytes })) => mappable(len_bytes),
            _ => event is Received,
        },
        PosixStage::Retrying(_) => event is Closed,
        PosixStage::UndoRemote(_, _) => event is Closed,
        PosixStage::Closing(_) => event is Closed,
        PosixStage::InitAddressing(_) => event is Va,
        PosixStage::OpenAddressing(_, _) => event is Va,
        PosixStage::Opening(_) => event is Opened,
        PosixStage::OpenNumbering(_, _) => event is Fd,
        PosixStage::ReadLookup(_, _) => event is Entry,
        PosixStage::CloseLookup(_) => event is Entry,
        PosixStage::Reading(_) => event is BytesRead,
        PosixStage::MmapToken(_) => event is Token,
        PosixStage::MunmapToken(_, _) => event is Token,
        PosixStage::MprotectToken(_, _) => event is Token,
        PosixStage::RollbackToken(_) => event is Token,
        _ => event is Kernel,
    }
}

/// Whether the pages of `len` bytes can be counted.
pub open spec fn mappable(len: u64) -> bool {
    0 < len && len + PAGE_SIZE - 1 <= u64::MAX
}

/// Whether the state is one that the server can be in: the tables have their sizes, no two
/// regions overlap, and what the server has decided to do it can still do.
pub open spec fn posix_valid(v: PosixView) -> bool {
    &&& v.resources.len() == v.config.max_fds
    &&& v.deferred.len() == MAX_DEFERRED_CLOSES
    &&& v.regions.len() == MAX_MMAP_REGIONS
    &&& regions_apart(v.regions, v.addresses.next)
    &&& match v.stage {
        PosixStage::Retrying(i) => i < v.deferred.len() && v.deferred[i as int] is Some,
        PosixStage::MmapToken(len) => mappable(len),
        PosixStage::MmapAllocating(_, len) => mappable(len) && first_free(v.regions)
            < v.regions.len(),
        PosixStage::MmapExporting(e) => {
            &&& mappable(e.len_bytes)
            &&& first_free(v.regions) < v.regions.len()
            &&& regions_apart(v.regions, e.base_va)
            &&& e.base_va < e.end()
            &&& e.end() == v.addresses.next
        },
        _ => true,
    }
}

/// The POSIX server.
pub struct PosixServer {
    config: PosixConfig,
    shared_va: u64,
    resources: Slots<FileResource>,
    deferred: Slots<u32>,
    regions: MmapTable,
    addresses: MmapVaAllocator,
    stage: PosixStage,
}

fn count_pages(len: u64) -> (r: u64)
    requires
        mappable(len),
    ensures
        r == pages_for(len),
        r >= 1,
{
    (len + (PAGE_SIZE - 1)) / PAGE_SIZE
}

/// What a client is answered when the file system refuses.
pub fn fs_error_to_errno(e: &PosixErrors, f: FsError) -> (r: u64)
    ensures
        r == errno_of(*e, f),
{
    match f {
        FsError::NotFound => e.enoent,
        FsError::IsDirectory => e.eisdir,
        FsError::NotDirectory => e.enotdir,
        FsError::TooManyOpen => e.emfile,
        FsError::AllocFailed => e.enomem,
        FsError::Io => e.eio,
        FsError::PathTooLong => e.einval,
        FsError::Invalid => e.einval,
        FsError::InvalidBufferPages => e.einval,
        FsError::Unknown => e.einval,
        FsError::IpcFailed => e.einval,
    }
}

fn cap_read(len: u64, buffer_size: u32) -> (r: u32)
    ensures
        r == read_cap(len, buffer_size),
{
    let asked = len as u32;
    let held = if asked <= buffer_size {
        asked
    } else {
        buffer_size
    };
    if held as u64 <= PAGE_SIZE {
        held
    } else {
        PAGE_SIZE as u32
    }
}

impl PosixServer {
    pub closed spec fn view(&self) -> PosixView {
        PosixView {
            config: self.config,
            shared_va: self.shared_va,
            resources: self.resources@,
            deferred: self.deferred@,
            regions: self.regions@,
            addresses: self.addresses,
            stage: self.stage,
        }
    }

    pub fn new(config: PosixConfig) -> (r: Self)
        ensures
            posix_valid(r@),
            r@.config == config,
            r@.shared_va == 0,
            r@.resources == no_slots::<FileResource>(config.max_fds as nat),
            r@.deferred == no_slots::<u32>(MAX_DEFERRED_CLOSES as nat),
            r@.regions == no_slots::<MmapEntry>(MAX_MMAP_REGIONS as nat),
            r@.addresses == (MmapVaAllocator {
                next: config.region_base,
                limit: config.region_limit,
            }),
            r@.stage == PosixStage::Served,
    {
        PosixServer {
            config,
            shared_va: 0,
            resources: Slots::new(config.max_fds),
            deferred: Slots::new(MAX_DEFERRED_CLOSES),
            regions: MmapTable::new(),
            addresses: MmapVaAllocator::new(config.region_base, config.region_limit),
            stage: PosixStage::Served,
        }
    }

    fn wait(&mut self, stage: PosixStage, action: PosixAction) -> (a: PosixAction)
        ensures
            (final(self)@, a) == posix_wait(old(self)@, stage, action),
    {
        self.stage = stage;
        action
    }

    fn word(&mut self, w: u64) -> (a: PosixAction)
        ensures
            (final(self)@, a) == posix_word(old(self)@, w),
    {
        self.wait(PosixStage::Served, PosixAction::Reply(Words(w, 0, 0, 0)))
    }

    fn halt(&mut self, t: PosixText) -> (a: PosixAction)
        ensures
            (final(self)@, a) == posix_halt(old(self)@, t),
    {
        self.wait(PosixStage::Halted, PosixAction::Halt(t))
    }

    /// Tries to close the queued handles from slot `from` on.
    fn drain_deferred_closes(&mut self, from: usize) -> (a: PosixAction)
        requires
            from <= old(self)@.deferred.len(),
        ensures
            (final(self)@, a) == posix_drain(old(self)@, from as int),
            old(self)@.deferred.len() <= usize::MAX,
            final(self)@.stage matches PosixStage::Retrying(i) ==> i < final(self)@.deferred.len()
                && final(self)@.deferred[i as int] is Some,
    {
        let mut i: usize = from;
        while i < self.deferred.len()
            invariant
                *self == *old(self),
                i <= self@.deferred.len(),
                used_from(self@.deferred, from as int) == used_from(self@.deferred, i as int),
            decreases self@.deferred.len() - i,
        {
            if let Some(handle) = self.deferred.get(i) {
                return self.wait(PosixStage::Retrying(i), PosixAction::FsClose { handle });
            }
            i += 1;
        }
        self.wait(PosixStage::Receiving, PosixAction::Receive)
    }

    /// Queues a remote handle whose close failed. Returns whether there was room.
    fn defer_close(&mut self, handle: u32) -> (r: bool)
        ensures
            r == (first_free(old(self)@.deferred) < old(self)@.deferred.len()),
            final(self)@ == if r {
                PosixView {
                    deferred: old(self)@.deferred.update(
                        first_free(old(self)@.deferred),
                        Some(handle),
                    ),
                    ..old(self)@
                }
            } else {
                old(self)@
            },
    {
        self.deferred.put(handle)
    }

    fn call(&mut self, call: PosixCall) -> (a: PosixAction)
        ensures
            (final(self)@, a) == posix_call(old(self)@, call),
    {
        let e = self.config.errors;
        match call {
            PosixCall::PosixInit => self.wait(
                PosixStage::InitAllocating,
                PosixAction::Kernel(Request::AllocPages { count: 1 }),
            ),
            PosixCall::EmitFromShared { len, then_reply } => {
                if self.shared_va == 0 {
                    self.word(e.einval)
                } else {
                    let va = self.shared_va;
                    self.wait(PosixStage::Emitting(then_reply), PosixAction::Emit { va, len })
                }
            },
            PosixCall::Exit => self.wait(
                PosixStage::Leaving,
                PosixAction::Print(PosixText::ChildExit),
            ),
            PosixCall::Reply(w) => self.wait(PosixStage::Served, PosixAction::Reply(w)),
            PosixCall::Unknown { nr } => self.wait(
                PosixStage::Unknown,
                PosixAction::PrintUnknown { nr },
            ),
            PosixCall::FileOpen { path_len, flags } => self.handle_file_open(path_len, flags),
            PosixCall::FileRead { fd, len } => {
                if self.shared_va == 0 {
                    self.word(e.einval)
                } else {
                    self.wait(
                        PosixStage::ReadLookup(fd, len),
                        PosixAction::LookupFd { fd: fd as u32 },
                    )
                }
            },
            PosixCall::FileClose { fd } => self.wait(
                PosixStage::CloseLookup(fd),
                PosixAction::LookupFd { fd: fd as u32 },
            ),
            PosixCall::FileMmap { len_bytes } => self.wait(
                PosixStage::MmapToken(len_bytes),
                PosixAction::QueryCallerToken,
            ),
            PosixCall::FileMunmap { base_va, len_bytes } => self.wait(
                PosixStage::MunmapToken(base_va, len_bytes),
                PosixAction::QueryCallerToken,
            ),
            PosixCall::FileMprotect { base_va, len_bytes } => self.wait(
                PosixStage::MprotectToken(base_va, len_bytes),
                PosixAction::QueryCallerToken,
            ),
            PosixCall::FileMadvise => self.word(0),
            PosixCall::FileMmapRollback { base_va } => self.wait(
                PosixStage::RollbackToken(base_va),
                PosixAction::QueryCallerToken,
            ),
        }
    }

    fn handle_file_open(&mut self, path_len: u64, flags: u64) -> (a: PosixAction)
        ensures
            (final(self)@, a) == posix_call(
                old(self)@,
                PosixCall::FileOpen { path_len, flags },
            ),
    {
        let einval = self.config.errors.einval;
        if self.shared_va == 0 || path_len == 0 || path_len > self.config.max_path {
            return self.word(einval);
        }
        let path_va = self.shared_va;
        self.wait(
            PosixStage::Opening(flags as u32),
            PosixAction::FsOpen { path_va, path_len, buffer_pages: 1 },
        )
    }

    fn init(&mut self, event: PosixEvent) -> (a: PosixAction)
        requires
            posix_awaits(old(self)@.stage, event),
            old(self)@.stage is InitAllocating || old(self)@.stage is InitAddressing || old(self)@.stage is InitMapping || old(self)@.stage is InitExporting || old(self)@.stage is InitReplying,
        ensures
            (final(self)@, a) == init_next(old(self)@, event),
    {
        match self.stage {
            PosixStage::InitAllocating => match event {
                PosixEvent::Kernel(Ok(ps)) => self.wait(
                    PosixStage::InitAddressing(ps),
                    PosixAction::AllocVa { pages: 1 },
                ),
                _ => self.halt(PosixText::SharedAllocFailed),
            },
            PosixStage::InitAddressing(ps) => match event {
                PosixEvent::Va(Some(va)) => {
                    self.shared_va = va;
                    self.wait(
                        PosixStage::InitMapping(ps),
                        PosixAction::Kernel(
                            Request::MapPages {
                                pageset: ps,
                                va,
                                attribute: MapAttribute::Normal,
                            },
                        ),
                    )
                },
                _ => self.halt(PosixText::Panic),
            },
            PosixStage::InitMapping(ps) => match event {
                PosixEvent::Kernel(Ok(_)) => self.wait(
                    PosixStage::InitExporting,
                    PosixAction::Kernel(Request::ExportHandle { handle: ps }),
                ),
                _ => self.halt(PosixText::SharedMapFailed),
            },
            PosixStage::InitExporting => match event {
                PosixEvent::Kernel(Ok(index)) => {
                    let c = self.config;
                    self.wait(
                        PosixStage::InitReplying,
                        PosixAction::Reply(
                            Words(index, c.child_shared_va, c.brk_base, c.mmap_base),
                        ),
                    )
                },
                _ => self.halt(PosixText::SharedExportFailed),
            },
            _ => self.wait(PosixStage::Served, PosixAction::Print(PosixText::InitDone)),
        }
    }

    fn undo_open(&mut self, file: OpenedFile, va: Option<u64>, errno: u64) -> (a: PosixAction)
        ensures
            (final(self)@, a) == open_undo(old(self)@, file, va, errno),
    {
        self.wait(
            PosixStage::UndoClosing(file, va, errno),
            PosixAction::Kernel(Request::CloseHandle { handle: file.pageset.0 }),
        )
    }

    fn open(&mut self, event: PosixEvent) -> (a: PosixAction)
        requires
            posix_awaits(old(self)@.stage, event),
            posix_valid(old(self)@),
        ensures
            (final(self)@, a) == open_next(old(self)@, event),
    {
        let e = self.config.errors;
        match self.stage {
            PosixStage::Opening(flags) => match event {
                PosixEvent::Opened(Ok(file)) => self.wait(
                    PosixStage::OpenAddressing(file, flags),
                    PosixAction::AllocVa { pages: 1 },
                ),
                PosixEvent::Opened(Err(f)) => self.word(fs_error_to_errno(&e, f)),
                _ => self.halt(PosixText::Panic),
            },
            PosixStage::OpenAddressing(file, flags) => match event {
                PosixEvent::Va(Some(va)) => self.wait(
                    PosixStage::OpenMapping(file, flags, va),
                    PosixAction::Kernel(
                        Request::MapPages {
                            pageset: file.pageset.0,
                            va,
                            attribute: MapAttribute::Normal,
                        },
                    ),
                ),
                _ => self.undo_open(file, None, e.enomem),
            },
            PosixStage::OpenMapping(file, flags, va) => match event {
                PosixEvent::Kernel(Ok(_)) => self.wait(
                    PosixStage::OpenNumbering(file, va),
                    PosixAction::AllocFd { handle: file.handle, flags },
                ),
                _ => self.undo_open(file, Some(va), e.enomem),
            },
            PosixStage::OpenNumbering(file, va) => match event {
                PosixEvent::Fd(Some(fd)) => {
                    if (fd as usize) < self.resources.len() {
                        self.resources.set(
                            fd as usize,
                            Some(
                                FileResource {
                                    buffer_pageset: file.pageset,
                                    buffer_va: va,
                                    buffer_size: file.buffer_size,
                                },
                            ),
                        );
                        self.word(fd as u64)
                    } else {
                        self.halt(PosixText::Panic)
                    }
                },
                _ => self.wait(
                    PosixStage::UndoUnmapping(file, va, e.emfile),
                    PosixAction::Kernel(Request::UnmapPages { pageset: file.pageset.0, va }),
                ),
            },
            PosixStage::UndoUnmapping(file, va, errno) => self.undo_open(file, Some(va), errno),
            PosixStage::UndoClosing(file, va, errno) => match va {
                Some(va) => self.wait(
                    PosixStage::UndoFreeing(file.handle, errno),
                    PosixAction::FreeVa { va, pages: 1 },
                ),
                None => self.wait(
                    PosixStage::UndoRemote(file.handle, errno),
                    PosixAction::FsClose { handle: file.handle },
                ),
            },
            PosixStage::UndoFreeing(handle, errno) => self.wait(
                PosixStage::UndoRemote(handle, errno),
                PosixAction::FsClose { handle },
            ),
            PosixStage::UndoRemote(handle, errno) => match event {
                PosixEvent::Closed(Ok(_)) => self.word(errno),
                _ => {
                    if self.defer_close(handle) {
                        self.word(errno)
                    } else {
                        self.halt(PosixText::QueueFull)
                    }
                },
            },
            _ => self.halt(PosixText::Panic),
        }
    }

    fn handle_file_read(&mut self, event: PosixEvent) -> (a: PosixAction)
        requires
            posix_awaits(old(self)@.stage, event),
            posix_valid(old(self)@),
        ensures
            (final(self)@, a) == read_next(old(self)@, event),
    {
        let e = self.config.errors;
        match self.stage {
            PosixStage::ReadLookup(fd, len) => match event {
                PosixEvent::Entry(Some(entry)) => match entry.kind {
                    FdKind::Stdio => {
                        let w = if fd == self.config.stdin {
                            0
                        } else {
                            e.ebadf
                        };
                        self.word(w)
                    },
                    FdKind::File => {
                        if fd >= self.resources.len() as u64 {
                            return self.halt(PosixText::Panic);
                        }
                        match self.resources.get(fd as usize) {
                            Some(r) => self.wait(
                                PosixStage::Reading(r),
                                PosixAction::FsRead {
                                    handle: entry.server_handle,
                                    max: cap_read(len, r.buffer_size),
                                },
                            ),
                            None => self.word(e.ebadf),
                        }
                    },
                },
                _ => self.word(e.ebadf),
            },
            PosixStage::Reading(r) => match event {
                PosixEvent::BytesRead(Ok(n)) => {
                    let to = self.shared_va;
                    self.wait(
                        PosixStage::Copying(n),
                        PosixAction::Copy { from: r.buffer_va, to, bytes: n },
                    )
                },
                PosixEvent::BytesRead(Err(f)) => self.word(fs_error_to_errno(&e, f)),
                _ => self.halt(PosixText::Panic),
            },
            PosixStage::Copying(n) => self.word(n as u64),
            _ => self.halt(PosixText::Panic),
        }
    }

    fn handle_file_close(&mut self, event: PosixEvent) -> (a: PosixAction)
        requires
            posix_awaits(old(self)@.stage, event),
            posix_valid(old(self)@),
        ensures
            (final(self)@, a) == close_next(old(self)@, event),
    {
        let e = self.config.errors;
        match self.stage {
            PosixStage::CloseLookup(fd) => match event {
                PosixEvent::Entry(Some(entry)) => match entry.kind {
                    FdKind::Stdio => self.word(e.ebadf),
                    FdKind::File => self.wait(
                        PosixStage::Closing(fd),
                        PosixAction::FsClose { handle: entry.server_handle },
                    ),
                },
                _ => self.word(e.ebadf),
            },
            PosixStage::Closing(fd) => match event {
                PosixEvent::Closed(Err(f)) => self.word(fs_error_to_errno(&e, f)),
                _ => self.wait(
                    PosixStage::CloseNumbering(fd),
                    PosixAction::CloseFd { fd: fd as u32 },
                ),
            },
            PosixStage::CloseNumbering(fd) => {
                if fd >= self.resources.len() as u64 {
                    return self.halt(PosixText::Panic);
                }
                match self.resources.get(fd as usize) {
                    Some(r) => {
                        self.resources.set(fd as usize, None);
                        self.wait(
                            PosixStage::DropUnmapping(r),
                            PosixAction::Kernel(
                                Request::UnmapPages {
                                    pageset: r.buffer_pageset.0,
                                    va: r.buffer_va,
                                },
                            ),
                        )
                    },
                    None => self.word(0),
                }
            },
            PosixStage::DropUnmapping(r) => self.wait(
                PosixStage::DropClosing(r),
                PosixAction::Kernel(Request::CloseHandle { handle: r.buffer_pageset.0 }),
            ),
            PosixStage::DropClosing(r) => self.wait(
                PosixStage::DropFreeing,
                PosixAction::FreeVa { va: r.buffer_va, pages: 1 },
            ),
            _ => self.word(0),
        }
    }

    fn handle_file_mmap(&mut self, token: u64, len: u64, event: PosixEvent) -> (a: PosixAction)
        requires
            old(self)@.stage == PosixStage::MmapAllocating(token, len),
            posix_awaits(old(self)@.stage, event),
            posix_valid(old(self)@),
        ensures
            (final(self)@, a) == region_next(old(self)@, event),
            posix_valid(final(self)@),
    {
        let enomem = self.config.errors.enomem;
        let pages = count_pages(len);
        match event {
            PosixEvent::Kernel(Ok(ps)) => match self.addresses.claim(pages) {
                Some(base_va) => {
                    let entry = MmapEntry {
                        caller_token: token,
                        base_va,
                        len_bytes: len,
                        server_pageset: PageSetHandle(ps),
                    };
                    assert(entry.base_va < entry.end());
                    self.wait(
                        PosixStage::MmapExporting(entry),
                        PosixAction::Kernel(Request::ExportHandle { handle: ps }),
                    )
                },
                None => self.wait(
                    PosixStage::Answering(enomem),
                    PosixAction::Kernel(Request::CloseHandle { handle: ps }),
                ),
            },
            _ => self.word(enomem),
        }
    }

    fn region(&mut self, event: PosixEvent) -> (a: PosixAction)
        requires
            posix_awaits(old(self)@.stage, event),
            posix_valid(old(self)@),
        ensures
            (final(self)@, a) == region_next(old(self)@, event),
            posix_valid(final(self)@),
    {
        let e = self.config.errors;
        proof {
            crate::slots::lemma_first_free(self@.regions, 0);
        }
        match self.stage {
            PosixStage::MmapToken(len) => match event {
                PosixEvent::Token(token) => {
                    if !self.regions.has_room() {
                        return self.word(e.enomem);
                    }
                    let count = count_pages(len);
                    self.wait(
                        PosixStage::MmapAllocating(token, len),
                        PosixAction::Kernel(Request::AllocPages { count }),
                    )
                },
                _ => self.halt(PosixText::Panic),
            },
            PosixStage::MmapAllocating(token, len) => self.handle_file_mmap(token, len, event),
            PosixStage::MmapExporting(entry) => match event {
                PosixEvent::Kernel(Ok(handle)) => {
                    proof {
                        crate::posix_regions::lemma_map_region(
                            self@.regions,
                            MmapVaAllocator { next: entry.base_va, limit: u64::MAX },
                            entry,
                        );
                    }
                    let _ = self.regions.insert(entry);
                    let pages = count_pages(entry.len_bytes);
                    self.wait(
                        PosixStage::Served,
                        PosixAction::Reply(Words(0, entry.base_va, handle, pages)),
                    )
                },
                _ => self.wait(
                    PosixStage::Answering(e.enomem),
                    PosixAction::Kernel(Request::CloseHandle { handle: entry.server_pageset.0 }),
                ),
            },
            PosixStage::MunmapToken(base, len) => match event {
                PosixEvent::Token(token) => self.handle_file_munmap(token, base, len),
                _ => self.halt(PosixText::Panic),
            },
            PosixStage::MprotectToken(base, len) => match event {
                PosixEvent::Token(token) => {
                    let matches = match self.regions.find_by_base_va(token, base) {
                        Some(r) => r.len_bytes == len,
                        None => false,
                    };
                    if matches {
                        self.word(0)
                    } else {
                        self.word(e.einval)
                    }
                },
                _ => self.halt(PosixText::Panic),
            },
            PosixStage::RollbackToken(base) => match event {
                PosixEvent::Token(token) => {
                    proof {
                        crate::posix_regions::lemma_unmap_region(
                            self@.regions,
                            self@.addresses.next,
                            token,
                            base,
                        );
                    }
                    match self.regions.take_by_base_va(token, base) {
                        Some(r) => self.wait(
                            PosixStage::Answering(0),
                            PosixAction::Kernel(
                                Request::CloseHandle { handle: r.server_pageset.0 },
                            ),
                        ),
                        None => {
                            proof {
                                crate::posix_regions::lemma_region_from(
                                    old(self)@.regions,
                                    token,
                                    base,
                                    0,
                                );
                            }
                            self.word(e.einval)
                        },
                    }
                },
                _ => self.halt(PosixText::Panic),
            },
            PosixStage::Answering(w) => self.word(w),
            _ => self.halt(PosixText::Panic),
        }
    }

    fn handle_file_munmap(&mut self, token: u64, base: u64, len: u64) -> (a: PosixAction)
        requires
            old(self)@.stage == PosixStage::MunmapToken(base, len),
            posix_valid(old(self)@),
        ensures
            (final(self)@, a) == region_next(old(self)@, PosixEvent::Token(token)),
            posix_valid(final(self)@),
    {
        let einval = self.config.errors.einval;
        proof {
            crate::posix_regions::lemma_unmap_region(
                self@.regions,
                self@.addresses.next,
                token,
                base,
            );
        }
        let matches = match self.regions.find_by_base_va(token, base) {
            Some(r) => r.len_bytes == len,
            None => false,
        };
        if !matches {
            return self.word(einval);
        }
        match self.regions.take_by_base_va(token, base) {
            Some(r) => self.wait(
                PosixStage::Answering(0),
                PosixAction::Kernel(Request::CloseHandle { handle: r.server_pageset.0 }),
            ),
            None => self.word(einval),
        }
    }

    /// What the server's loop does next, now that `event` has come.
    #[verifier::rlimit(40)]
    pub fn step(&mut self, event: PosixEvent) -> (a: PosixAction)
        requires
            posix_valid(old(self)@),
            posix_awaits(old(self)@.stage, event),
        ensures
            posix_valid(final(self)@),
            (final(self)@, a) == posix_next(old(self)@, event),
    {
        proof {
            crate::slots::lemma_first_free(self@.deferred, 0);
        }
        match self.stage {
            PosixStage::Served => self.drain_deferred_closes(0),
            PosixStage::Retrying(i) => match event {
                PosixEvent::Closed(Ok(_)) => {
                    self.deferred.set(i, None);
                    self.drain_deferred_closes(i + 1)
                },
                _ => self.drain_deferred_closes(i + 1),
            },
            PosixStage::Receiving => match event {
                PosixEvent::Received(Some(call)) => self.call(call),
                _ => self.halt(PosixText::ReceiveFailed),
            },
            PosixStage::Halted => self.halt(PosixText::Done),
            PosixStage::InitAllocating => self.init(event),
            PosixStage::InitAddressing(_) => self.init(event),
            PosixStage::InitMapping(_) => self.init(event),
            PosixStage::InitExporting => self.init(event),
            PosixStage::InitReplying => self.init(event),
            PosixStage::Emitting(w) => self.word(w),
            PosixStage::Leaving => self.halt(PosixText::Done),
            PosixStage::Unknown => {
                let enosys = self.config.errors.enosys;
                self.word(enosys)
            },
            PosixStage::Opening(_) => self.open(event),
            PosixStage::OpenAddressing(_, _) => self.open(event),
            PosixStage::OpenMapping(_, _, _) => self.open(event),
            PosixStage::OpenNumbering(_, _) => self.open(event),
            PosixStage::UndoUnmapping(_, _, _) => self.open(event),
            PosixStage::UndoClosing(_, _, _) => self.open(event),
            PosixStage::UndoFreeing(_, _) => self.open(event),
            PosixStage::UndoRemote(_, _) => self.open(event),
            PosixStage::ReadLookup(_, _) => self.handle_file_read(event),
            PosixStage::Reading(_) => self.handle_file_read(event),
            PosixStage::Copying(_) => self.handle_file_read(event),
            PosixStage::CloseLookup(_) => self.handle_file_close(event),
            PosixStage::Closing(_) => self.handle_file_close(event),
            PosixStage::CloseNumbering(_) => self.handle_file_close(event),
            PosixStage::DropUnmapping(_) => self.handle_file_close(event),
            PosixStage::DropClosing(_) => self.handle_file_close(event),
            PosixStage::DropFreeing => self.handle_file_close(event),
            _ => self.region(event),
        }
    }
}

// ---------------------------------------------------------------------------
// What the server keeps
// ---------------------------------------------------------------------------

/// Addresses that were given to a mapping are never given out again.
pub proof fn lemma_addresses_grow(v: PosixView, event: PosixEvent)
    requires
        posix_valid(v),
        posix_awaits(v.stage, event),
    ensures
        posix_next(v, event).0.addresses.next >= v.addresses.next,
        posix_next(v, event).0.addresses.limit == v.addresses.limit,
{
}

/// A client's unmapping, change of protection or rollback leaves the regions of every other
/// client as they are. One that names a region which is not the client's is refused.
pub proof fn lemma_regions_scoped(v: PosixView, token: u64, base: u64)
    requires
        posix_valid(v),
        match v.stage {
            PosixStage::MunmapToken(b, _) => b == base,
            PosixStage::MprotectToken(b, _) => b == base,
            PosixStage::RollbackToken(b) => b == base,
            _ => false,
        },
    ensures
        forall|i: int|
            0 <= i < v.regions.len() && (#[trigger] v.regions[i]) is Some && (
            v.regions[i]->0).caller_token != token ==> posix_next(
                v,
                PosixEvent::Token(token),
            ).0.regions[i] == v.regions[i],
        (forall|i: int|
            0 <= i < v.regions.len() && (#[trigger] v.regions[i]) is Some ==> !(
            v.regions[i]->0).is(token, base)) ==> posix_next(v, PosixEvent::Token(token))
            == posix_word(v, v.config.errors.einval),
{
    crate::posix_regions::lemma_unmap_region(v.regions, v.addresses.next, token, base);
    crate::posix_regions::lemma_region_from(v.regions, token, base, 0);
}

/// A region that was mapped can be unmapped by its client with the same address and length:
/// the server's handle of its pages is closed, and the client is answered with zero.
pub proof fn lemma_mmap_then_munmap(v: PosixView, e: MmapEntry, handle: u64)
    requires
        posix_valid(v),
        v.stage == PosixStage::MmapExporting(e),
    ensures
        ({
            let mapped = posix_next(v, PosixEvent::Kernel(Ok(handle))).0;
            let asked = PosixView {
                stage: PosixStage::MunmapToken(e.base_va, e.len_bytes),
                ..mapped
            };
            let (closing, action) = posix_next(asked, PosixEvent::Token(e.caller_token));
            &&& action == kernel(Request::CloseHandle { handle: e.server_pageset.0 })
            &&& closing.stage == PosixStage::Answering(0)
            &&& region_at(closing.regions, e.caller_token, e.base_va) is None
        }),
{
    crate::slots::lemma_first_free(v.regions, 0);
    crate::posix_regions::lemma_map_region(
        v.regions,
        MmapVaAllocator { next: e.base_va, limit: u64::MAX },
        e,
    );
    let mapped = posix_next(v, PosixEvent::Kernel(Ok(handle))).0;
    crate::posix_regions::lemma_unmapped_is_gone(
        mapped.regions,
        mapped.addresses.next,
        e.caller_token,
        e.base_va,
    );
}

/// The remote handle that an opening in progress has to close or to keep.
pub open spec fn owed(stage: PosixStage) -> Option<u32> {
    match stage {
        PosixStage::OpenAddressing(file, _) => Some(file.handle),
        PosixStage::OpenMapping(file, _, _) => Some(file.handle),
        PosixStage::OpenNumbering(file, _) => Some(file.handle),
        PosixStage::UndoUnmapping(file, _, _) => Some(file.handle),
        PosixStage::UndoClosing(file, _, _) => Some(file.handle),
        PosixStage::UndoFreeing(handle, _) => Some(handle),
        PosixStage::UndoRemote(handle, _) => Some(handle),
        _ => None,
    }
}

/// Whether a handle waits for its close to be tried again.
pub open spec fn queued(deferred: Seq<Option<u32>>, handle: u32) -> bool {
    exists|i: int| 0 <= i < deferred.len() && #[trigger] deferred[i] == Some(handle)
}

/// The remote handle of an opened file is never lost. While the file is being set up or
/// given up the server owes it; it stops owing it only once a descriptor holds the file, the
/// file system server has closed the handle, the handle is queued, or the server halts.
pub proof fn lemma_remote_not_lost(v: PosixView, event: PosixEvent, handle: u32)
    requires
        posix_valid(v),
        posix_awaits(v.stage, event),
        owed(v.stage) == Some(handle),
    ensures
        ({
            let (w, a) = posix_next(v, event);
            ||| owed(w.stage) == Some(handle)
            ||| a is Halt
            ||| (v.stage matches PosixStage::OpenNumbering(file, va) && (event matches PosixEvent::Fd(
                Some(fd),
            ) && w.resources[fd as int] == Some(
                FileResource {
                    buffer_pageset: file.pageset,
                    buffer_va: va,
                    buffer_size: file.buffer_size,
                },
            )))
            ||| v.stage is UndoRemote && (event matches PosixEvent::Closed(Ok(_)))
            ||| v.stage is UndoRemote && queued(w.deferred, handle)
        }),
{
    crate::slots::lemma_first_free(v.deferred, 0);
    let (w, a) = posix_next(v, event);
    if v.stage is UndoRemote && !(event->Closed_0 is Ok) && first_free(v.deferred)
        < v.deferred.len() {
        assert(w.deferred[first_free(v.deferred)] == Some(handle));
    }
}

/// A queued handle stays queued until the file system server has closed it.
pub proof fn lemma_queued_until_closed(v: PosixView, event: PosixEvent, i: int)
    requires
        posix_valid(v),
        posix_awaits(v.stage, event),
        0 <= i < v.deferred.len(),
        v.deferred[i] is Some,
    ensures
        ({
            let w = posix_next(v, event).0;
            ||| w.deferred[i] == v.deferred[i]
            ||| w.deferred[i] is None && v.stage == PosixStage::Retrying(i as usize)
                && (event matches PosixEvent::Closed(Ok(_)))
        }),
{
    crate::slots::lemma_first_free(v.deferred, 0);
}

/// Nothing is read, printed or opened through the shared buffer before the client's first
/// call has set it up.
pub proof fn lemma_no_buffer_no_access(v: PosixView, call: PosixCall)
    requires
        v.stage is Receiving,
        v.shared_va == 0,
        call is FileOpen || call is FileRead || call is EmitFromShared,
    ensures
        posix_next(v, PosixEvent::Received(Some(call))) == posix_word(v, v.config.errors.einval),
{
}

// ---------------------------------------------------------------------------
// What whole calls come to
// ---------------------------------------------------------------------------

/// A read that goes well: the descriptor is looked up, the file system is asked for no more
/// than the client asked for, the file's buffer holds and a page holds, exactly the bytes that
/// it read are copied from the file's buffer to the shared one, and the client is answered
/// their number. Nothing else changes.
pub proof fn lemma_read_call(v: PosixView, fd: u64, len: u64, file: u32, n: u32)
    requires
        v.stage is Receiving,
        v.shared_va != 0,
        fd < v.resources.len(),
        v.resources[fd as int] is Some,
    ensures
        ({
            let call = PosixEvent::Received(Some(PosixCall::FileRead { fd, len }));
            let entry = FdEntry { kind: FdKind::File, server_handle: file };
            let r = v.resources[fd as int]->0;
            let (v1, a1) = posix_next(v, call);
            let (v2, a2) = posix_next(v1, PosixEvent::Entry(Some(entry)));
            let (v3, a3) = posix_next(v2, PosixEvent::BytesRead(Ok(n)));
            let (v4, a4) = posix_next(v3, PosixEvent::Done);
            &&& a1 == PosixAction::LookupFd { fd: fd as u32 }
            &&& a2 matches PosixAction::FsRead { handle, max } && {
                &&& handle == file
                &&& max <= len as u32 && max <= r.buffer_size && max <= 4096
                &&& max == len as u32 || max == r.buffer_size || max == 4096
            }
            &&& a3 == PosixAction::Copy { from: r.buffer_va, to: v.shared_va, bytes: n }
            &&& a4 == PosixAction::Reply(Words(n as u64, 0, 0, 0))
            &&& v4 == PosixView { stage: PosixStage::Served, ..v }
        }),
{
}

/// Whatever comes, the server copies exactly the bytes that the file system read, from the
/// buffer of the file that is read to the shared one, and what it answers then is the number
/// that it copied.
pub proof fn lemma_copies_what_it_answers(v: PosixView, event: PosixEvent, n: u32, done: PosixEvent)
    ensures
        posix_next(v, event).0.stage == PosixStage::Copying(n) ==> {
            &&& event matches PosixEvent::BytesRead(Ok(m)) && m == n
            &&& v.stage matches PosixStage::Reading(r) && posix_next(v, event).1
                == (PosixAction::Copy { from: r.buffer_va, to: v.shared_va, bytes: n })
        },
        v.stage == PosixStage::Copying(n) ==> posix_next(v, done).1 == PosixAction::Reply(
            Words(n as u64, 0, 0, 0),
        ),
        posix_next(v, event).1 matches PosixAction::Copy { from, to, bytes } ==> posix_next(
            v,
            event,
        ).0.stage == PosixStage::Copying(bytes) && to == v.shared_va && from
            == v.stage->Reading_0.buffer_va,
{
}

/// A read of a descriptor that is not in use, of one that is no file, or of a file without a
/// buffer is answered at once; a read of the standard input finds nothing. A read that the
/// file system refuses is answered what it refused it for, and nothing is copied.
pub proof fn lemma_read_refused(v: PosixView, fd: u64, len: u64, file: u32, f: FsError)
    requires
        v.stage is Receiving,
        v.shared_va != 0,
        fd < v.resources.len(),
    ensures
        ({
            let e = v.config.errors;
            let back = PosixView { stage: PosixStage::Served, ..v };
            let call = PosixEvent::Received(Some(PosixCall::FileRead { fd, len }));
            let v1 = posix_next(v, call).0;
            let stdio = FdEntry { kind: FdKind::Stdio, server_handle: file };
            let entry = FdEntry { kind: FdKind::File, server_handle: file };
            let v2 = posix_next(v1, PosixEvent::Entry(Some(entry))).0;
            &&& posix_next(v1, PosixEvent::Entry(None)) == (
                back,
                PosixAction::Reply(Words(e.ebadf, 0, 0, 0)),
            )
            &&& posix_next(v1, PosixEvent::Entry(Some(stdio))) == (
                back,
                PosixAction::Reply(
                    Words(
                        if fd == v.config.stdin {
                            0
                        } else {
                            e.ebadf
                        },
                        0,
                        0,
                        0,
                    ),
                ),
            )
            &&& v.resources[fd as int] is None ==> posix_next(v1, PosixEvent::Entry(Some(entry)))
                == (back, PosixAction::Reply(Words(e.ebadf, 0, 0, 0)))
            &&& v.resources[fd as int] is Some ==> posix_next(v2, PosixEvent::BytesRead(Err(f)))
                == (back, PosixAction::Reply(Words(errno_of(e, f), 0, 0, 0)))
        }),
{
}

/// An open that goes well: the file whose path stands in the shared buffer is opened, its
/// buffer is mapped at an address of the server's own, a descriptor is given out for it, and
/// the client is answered the descriptor, under which the buffer is then found.
pub proof fn lemma_open_call(
    v: PosixView,
    path_len: u64,
    flags: u64,
    file: OpenedFile,
    va: u64,
    ok: u64,
    fd: u32,
)
    requires
        v.stage is Receiving,
        v.shared_va != 0,
        0 < path_len <= v.config.max_path,
        fd < v.resources.len(),
    ensures
        ({
            let call = PosixEvent::Received(Some(PosixCall::FileOpen { path_len, flags }));
            let (v1, a1) = posix_next(v, call);
            let (v2, a2) = posix_next(v1, PosixEvent::Opened(Ok(file)));
            let (v3, a3) = posix_next(v2, PosixEvent::Va(Some(va)));
            let (v4, a4) = posix_next(v3, PosixEvent::Kernel(Ok(ok)));
            let (v5, a5) = posix_next(v4, PosixEvent::Fd(Some(fd)));
            &&& a1 == PosixAction::FsOpen { path_va: v.shared_va, path_len, buffer_pages: 1 }
            &&& a2 == PosixAction::AllocVa { pages: 1 }
            &&& a3 == PosixAction::Kernel(
                Request::MapPages {
                    pageset: file.pageset.0,
                    va,
                    attribute: MapAttribute::Normal,
                },
            )
            &&& a4 == PosixAction::AllocFd { handle: file.handle, flags: flags as u32 }
            &&& a5 == PosixAction::Reply(Words(fd as u64, 0, 0, 0))
            &&& v5.stage is Served
            &&& v5.resources.len() == v.resources.len()
            &&& v5.resources[fd as int] matches Some(r) && r.buffer_pageset == file.pageset
                && r.buffer_va == va && r.buffer_size == file.buffer_size
            &&& forall|i: int|
                0 <= i < v.resources.len() && i != fd ==> v5.resources[i] == v.resources[i]
            &&& v5.shared_va == v.shared_va && v5.deferred == v.deferred && v5.regions == v.regions
        }),
{
}

/// An open that fails half-way gives back what it had: the buffer's page set is closed, the
/// address freed where there was one, unmapped first where it was mapped, and the file closed
/// with the file system. The client is answered why, and no descriptor leads to the file.
pub proof fn lemma_open_undone(
    v: PosixView,
    flags: u32,
    file: OpenedFile,
    va: u64,
    any: Reply,
    bad: SyscallError,
)
    ensures
        ({
            let e = v.config.errors;
            let close = PosixAction::Kernel(Request::CloseHandle { handle: file.pageset.0 });
            let free = PosixAction::FreeVa { va, pages: 1 };
            let remote = PosixAction::FsClose { handle: file.handle };
            // No address.
            let (a1, x1) = posix_next(
                PosixView { stage: PosixStage::OpenAddressing(file, flags), ..v },
                PosixEvent::Va(None),
            );
            let (a2, x2) = posix_next(a1, PosixEvent::Kernel(any));
            let (a3, x3) = posix_next(a2, PosixEvent::Closed(Ok(())));
            // Not mapped.
            let (b1, y1) = posix_next(
                PosixView { stage: PosixStage::OpenMapping(file, flags, va), ..v },
                PosixEvent::Kernel(Err(bad)),
            );
            let (b2, y2) = posix_next(b1, PosixEvent::Kernel(any));
            let (b3, y3) = posix_next(b2, PosixEvent::Done);
            let (b4, y4) = posix_next(b3, PosixEvent::Closed(Ok(())));
            // No descriptor.
            let (c1, z1) = posix_next(
                PosixView { stage: PosixStage::OpenNumbering(file, va), ..v },
                PosixEvent::Fd(None),
            );
            let (c2, z2) = posix_next(c1, PosixEvent::Kernel(any));
            let (c3, z3) = posix_next(c2, PosixEvent::Kernel(any));
            let (c4, z4) = posix_next(c3, PosixEvent::Done);
            let (c5, z5) = posix_next(c4, PosixEvent::Closed(Ok(())));
            let back = PosixView { stage: PosixStage::Served, ..v };
            &&& (x1, x2) == (close, remote)
            &&& (a3, x3) == (back, PosixAction::Reply(Words(e.enomem, 0, 0, 0)))
            &&& (y1, y2, y3) == (close, free, remote)
            &&& (b4, y4) == (back, PosixAction::Reply(Words(e.enomem, 0, 0, 0)))
            &&& z1 == PosixAction::Kernel(
                Request::UnmapPages { pageset: file.pageset.0, va },
            )
            &&& (z2, z3, z4) == (close, free, remote)
            &&& (c5, z5) == (back, PosixAction::Reply(Words(e.emfile, 0, 0, 0)))
        }),
{
}

/// A close that goes well: the file is closed with the file system, the descriptor is given
/// back, and so are the buffer's mapping, page set and address, in that order; the descriptor
/// then leads nowhere.
pub proof fn lemma_close_call(v: PosixView, fd: u64, file: u32, any: Reply)
    requires
        v.stage is Receiving,
        fd < v.resources.len(),
        v.resources[fd as int] is Some,
    ensures
        ({
            let r = v.resources[fd as int]->0;
            let entry = FdEntry { kind: FdKind::File, server_handle: file };
            let (v1, a1) = posix_next(
                v,
                PosixEvent::Received(Some(PosixCall::FileClose { fd })),
            );
            let (v2, a2) = posix_next(v1, PosixEvent::Entry(Some(entry)));
            let (v3, a3) = posix_next(v2, PosixEvent::Closed(Ok(())));
            let (v4, a4) = posix_next(v3, PosixEvent::Done);
            let (v5, a5) = posix_next(v4, PosixEvent::Kernel(any));
            let (v6, a6) = posix_next(v5, PosixEvent::Kernel(any));
            let (v7, a7) = posix_next(v6, PosixEvent::Done);
            &&& a1 == PosixAction::LookupFd { fd: fd as u32 }
            &&& a2 == PosixAction::FsClose { handle: file }
            &&& a3 == PosixAction::CloseFd { fd: fd as u32 }
            &&& a4 == PosixAction::Kernel(
                Request::UnmapPages { pageset: r.buffer_pageset.0, va: r.buffer_va },
            )
            &&& a5 == PosixAction::Kernel(Request::CloseHandle { handle: r.buffer_pageset.0 })
            &&& a6 == PosixAction::FreeVa { va: r.buffer_va, pages: 1 }
            &&& a7 == PosixAction::Reply(Words(0, 0, 0, 0))
            &&& v7.stage is Served
            &&& v7.resources.len() == v.resources.len()
            &&& v7.resources[fd as int] is None
            &&& forall|i: int|
                0 <= i < v.resources.len() && i != fd ==> v7.resources[i] == v.resources[i]
        }),
{
}

/// A close that is refused, by the server or by the file system, changes nothing.
pub proof fn lemma_close_refused(v: PosixView, fd: u64, file: u32, f: FsError)
    requires
        v.stage is Receiving,
    ensures
        ({
            let e = v.config.errors;
            let back = PosixView { stage: PosixStage::Served, ..v };
            let v1 = posix_next(v, PosixEvent::Received(Some(PosixCall::FileClose { fd }))).0;
            let stdio = FdEntry { kind: FdKind::Stdio, server_handle: file };
            let entry = FdEntry { kind: FdKind::File, server_handle: file };
            let v2 = posix_next(v1, PosixEvent::Entry(Some(entry))).0;
            let bad = (back, PosixAction::Reply(Words(e.ebadf, 0, 0, 0)));
            &&& posix_next(v1, PosixEvent::Entry(None)) == bad
            &&& posix_next(v1, PosixEvent::Entry(Some(stdio))) == bad
            &&& posix_next(v2, PosixEvent::Closed(Err(f))) == (
                back,
                PosixAction::Reply(Words(errno_of(e, f), 0, 0, 0)),
            )
        }),
{
}

/// A mapping that goes well: pages for all the bytes, and not one more, are allocated and
/// handed to the client, which is answered where they go, the handle and their number; the
/// address is the next free one, and the region is kept under the client's token.
pub proof fn lemma_mmap_call(v: PosixView, len: u64, token: u64, pageset: u64, handle: u64)
    requires
        posix_valid(v),
        v.stage is Receiving,
        mappable(len),
        first_free(v.regions) < v.regions.len(),
        v.addresses.after(pages_for(len)) is Some,
    ensures
        ({
            let (v1, a1) = posix_next(
                v,
                PosixEvent::Received(Some(PosixCall::FileMmap { len_bytes: len })),
            );
            let (v2, a2) = posix_next(v1, PosixEvent::Token(token));
            let (v3, a3) = posix_next(v2, PosixEvent::Kernel(Ok(pageset)));
            let (v4, a4) = posix_next(v3, PosixEvent::Kernel(Ok(handle)));
            let base = v.addresses.next;
            &&& a1 is QueryCallerToken
            &&& a2 matches PosixAction::Kernel(Request::AllocPages { count }) && {
                &&& count * 4096 >= len && (count - 1) * 4096 < len
                &&& a4 == PosixAction::Reply(Words(0, base, handle, count))
                &&& v4.addresses.next == base + count * 4096
            }
            &&& a3 == PosixAction::Kernel(Request::ExportHandle { handle: pageset })
            &&& v4.stage is Served
            &&& region_at(v4.regions, token, base) matches Some(r) && r.len_bytes == len
                && r.server_pageset.0 == pageset
        }),
{
    let entry = MmapEntry {
        caller_token: token,
        base_va: v.addresses.next,
        len_bytes: len,
        server_pageset: PageSetHandle(pageset),
    };
    crate::slots::lemma_first_free(v.regions, 0);
    crate::posix_regions::lemma_map_region(v.regions, v.addresses, entry);
}

/// A mapping that fails half-way closes the page set that it had, keeps no region, and is
/// answered that memory ran out.
pub proof fn lemma_mmap_refused(
    v: PosixView,
    token: u64,
    len: u64,
    e: MmapEntry,
    ps: u64,
    any: Reply,
    bad: SyscallError,
)
    ensures
        ({
            let enomem = PosixAction::Reply(Words(v.config.errors.enomem, 0, 0, 0));
            let asked = PosixView { stage: PosixStage::MmapToken(len), ..v };
            let allocating = PosixView { stage: PosixStage::MmapAllocating(token, len), ..v };
            let exporting = PosixView { stage: PosixStage::MmapExporting(e), ..v };
            let back = PosixView { stage: PosixStage::Served, ..v };
            &&& first_free(v.regions) >= v.regions.len() ==> posix_next(
                asked,
                PosixEvent::Token(token),
            ) == (back, enomem)
            &&& posix_next(allocating, PosixEvent::Kernel(Err(bad))) == (back, enomem)
            &&& v.addresses.after(pages_for(len)) is None ==> {
                let (w, a) = posix_next(allocating, PosixEvent::Kernel(Ok(ps)));
                &&& a == PosixAction::Kernel(Request::CloseHandle { handle: ps })
                &&& posix_next(w, PosixEvent::Kernel(any)) == (back, enomem)
            }
            &&& {
                let (w, a) = posix_next(exporting, PosixEvent::Kernel(Err(bad)));
                &&& a == PosixAction::Kernel(
                    Request::CloseHandle { handle: e.server_pageset.0 },
                )
                &&& posix_next(w, PosixEvent::Kernel(any)) == (back, enomem)
            }
        }),
{
}

/// Unmapping and rolling back close the page set of the client's region and forget the region;
/// unmapping asks for its whole length. A change of protection answers success for a whole
/// region, and changes nothing.
pub proof fn lemma_region_calls(v: PosixView, token: u64, base: u64, len: u64, any: Reply)
    requires
        posix_valid(v),
        v.stage is Receiving,
        region_at(v.regions, token, base) is Some,
    ensures
        ({
            let e = v.config.errors;
            let r = region_at(v.regions, token, base)->0;
            let close = PosixAction::Kernel(Request::CloseHandle { handle: r.server_pageset.0 });
            let u1 = posix_next(
                v,
                PosixEvent::Received(Some(PosixCall::FileMunmap { base_va: base, len_bytes: len })),
            );
            let u2 = posix_next(u1.0, PosixEvent::Token(token));
            let p1 = posix_next(
                v,
                PosixEvent::Received(Some(PosixCall::FileMprotect { base_va: base, len_bytes: len })),
            );
            let p2 = posix_next(p1.0, PosixEvent::Token(token));
            let b1 = posix_next(
                v,
                PosixEvent::Received(Some(PosixCall::FileMmapRollback { base_va: base })),
            );
            let b2 = posix_next(b1.0, PosixEvent::Token(token));
            let answered = PosixAction::Reply(Words(0, 0, 0, 0));
            let refused = PosixAction::Reply(Words(e.einval, 0, 0, 0));
            &&& u1.1 is QueryCallerToken && p1.1 is QueryCallerToken && b1.1 is QueryCallerToken
            &&& b2.1 == close && region_at(b2.0.regions, token, base) is None
            &&& posix_next(b2.0, PosixEvent::Kernel(any)).1 == answered
            &&& r.len_bytes == len ==> u2.1 == close && region_at(u2.0.regions, token, base) is None
                && posix_next(u2.0, PosixEvent::Kernel(any)).1 == answered
            &&& r.len_bytes != len ==> u2.1 == refused && u2.0.regions == v.regions
            &&& p2.0.regions == v.regions && p2.1 == (if r.len_bytes == len {
                answered
            } else {
                refused
            })
        }),
{
    let t = without_region(v.regions, token, base);
    crate::posix_regions::lemma_unmap_region(v.regions, v.addresses.next, token, base);
    crate::posix_regions::lemma_region_from(v.regions, token, base, 0);
    crate::posix_regions::lemma_region_from(t, token, base, 0);
    let i = crate::posix_regions::region_from(v.regions, token, base, 0);
    let j = crate::posix_regions::region_from(t, token, base, 0);
    if j < t.len() {
        assert(v.regions[i] is Some && v.regions[j] is Some);
        assert(t[j] == v.regions[j]);
    }
}

/// The other calls: what is to be printed is printed from the shared buffer and answered as
/// the call says; an unknown call is told about and refused; advice is taken; the end of the
/// program ends the server.
pub proof fn lemma_other_calls(v: PosixView, len: u64, word: u64, nr: u64, w: Words)
    requires
        v.stage is Receiving,
        v.shared_va != 0,
    ensures
        ({
            let ask = |c: PosixCall| posix_next(v, PosixEvent::Received(Some(c)));
            let e1 = ask(PosixCall::EmitFromShared { len, then_reply: word });
            let n1 = ask(PosixCall::Unknown { nr });
            let x1 = ask(PosixCall::Exit);
            let back = PosixView { stage: PosixStage::Served, ..v };
            &&& e1.1 == PosixAction::Emit { va: v.shared_va, len }
            &&& posix_next(e1.0, PosixEvent::Done) == (
                back,
                PosixAction::Reply(Words(word, 0, 0, 0)),
            )
            &&& n1.1 == PosixAction::PrintUnknown { nr }
            &&& posix_next(n1.0, PosixEvent::Done) == (
                back,
                PosixAction::Reply(Words(v.config.errors.enosys, 0, 0, 0)),
            )
            &&& ask(PosixCall::FileMadvise) == (back, PosixAction::Reply(Words(0, 0, 0, 0)))
            &&& ask(PosixCall::Reply(w)) == (back, PosixAction::Reply(w))
            &&& x1.1 == PosixAction::Print(PosixText::ChildExit)
            &&& posix_next(x1.0, PosixEvent::Done).1 == PosixAction::Halt(PosixText::Done)
        }),
{
}

/// The client's first call sets the shared buffer up: one page is allocated, mapped for the
/// server and handed to the client, which is answered the handle, where it goes, and where the
/// client's heap and mappings start.
pub proof fn lemma_init_call(v: PosixView, pageset: u64, va: u64, ok: u64, handle: u64)
    requires
        v.stage is Receiving,
    ensures
        ({
            let (v1, a1) = posix_next(v, PosixEvent::Received(Some(PosixCall::PosixInit)));
            let (v2, a2) = posix_next(v1, PosixEvent::Kernel(Ok(pageset)));
            let (v3, a3) = posix_next(v2, PosixEvent::Va(Some(va)));
            let (v4, a4) = posix_next(v3, PosixEvent::Kernel(Ok(ok)));
            let (v5, a5) = posix_next(v4, PosixEvent::Kernel(Ok(handle)));
            let (v6, a6) = posix_next(v5, PosixEvent::Done);
            &&& a1 == PosixAction::Kernel(Request::AllocPages { count: 1 })
            &&& a2 == PosixAction::AllocVa { pages: 1 }
            &&& a3 == PosixAction::Kernel(
                Request::MapPages { pageset, va, attribute: MapAttribute::Normal },
            )
            &&& a4 == PosixAction::Kernel(Request::ExportHandle { handle: pageset })
            &&& a5 == PosixAction::Reply(
                Words(handle, v.config.child_shared_va, v.config.brk_base, v.config.mmap_base),
            )
            &&& a6 == PosixAction::Print(PosixText::InitDone)
            &&& v6 == PosixView { stage: PosixStage::Served, shared_va: va, ..v }
        }),
{
}

/// Before it waits for the next call, the server tries to close every handle that waits for
/// that, from the first slot on; then it waits.
pub proof fn lemma_served_then_waits(v: PosixView)
    requires
        posix_valid(v),
        v.stage is Served,
    ensures
        ({
            let (w, a) = posix_next(v, PosixEvent::Done);
            if exists|i: int| 0 <= i < v.deferred.len() && (#[trigger] v.deferred[i]) is Some {
                &&& w.stage matches PosixStage::Retrying(k) && {
                    &&& 0 <= k < v.deferred.len()
                    &&& a matches PosixAction::FsClose { handle } && v.deferred[k as int] == Some(
                        handle,
                    )
                    &&& forall|i: int| 0 <= i < k ==> (#[trigger] v.deferred[i]) is None
                }
            } else {
                a is Receive && w.stage is Receiving
            }
        }),
{
    crate::slots::lemma_first_used(v.deferred, 0);
}

/// The client is told of each refusal of the file system by the error of its kind.
pub proof fn lemma_errors_of_files(e: PosixErrors)
    ensures
        errno_of(e, FsError::NotFound) == e.enoent,
        errno_of(e, FsError::IsDirectory) == e.eisdir,
        errno_of(e, FsError::NotDirectory) == e.enotdir,
        errno_of(e, FsError::TooManyOpen) == e.emfile,
        errno_of(e, FsError::AllocFailed) == e.enomem,
        errno_of(e, FsError::Io) == e.eio,
        forall|f: FsError|
            f is PathTooLong || f is Invalid || f is InvalidBufferPages || f is Unknown
                || f is IpcFailed ==> errno_of(e, f) == e.einval,
{
}

} // verus!
