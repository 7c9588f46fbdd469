use lockjaw::fs::{FsClient, FsCodes, FsError, OpenedFile};
use lockjaw::handle::{EndpointHandle, PageSetHandle, ReplyHandle};
use lockjaw::posix::{
    fs_error_to_errno, unknown_line, FdEntry, FdKind, PosixAction, PosixCall, PosixConfig,
    PosixErrors, PosixEvent, PosixServer, PosixText,
};
use lockjaw::posix_boot::{
    load_elf_segments, posix_boot, BootAction, BootEvent, BootText, ElfLoadEntry, LoadAction,
    ProcessMapping, VaLayout,
};
use lockjaw::posix_regions::{MmapEntry, MmapTable, MmapVaAllocator, MAX_MMAP_REGIONS};
use lockjaw::syscall::{MapAttribute, Request, SyscallError, Words};

const EBADF: u64 = 109;
const EINVAL: u64 = 122;
const EIO: u64 = 105;
const EISDIR: u64 = 121;
const EMFILE: u64 = 124;
const ENOENT: u64 = 102;
const ENOMEM: u64 = 112;
const ENOSYS: u64 = 138;
const ENOTDIR: u64 = 120;

fn errors() -> PosixErrors {
    PosixErrors {
        ebadf: EBADF,
        einval: EINVAL,
        eio: EIO,
        eisdir: EISDIR,
        emfile: EMFILE,
        enoent: ENOENT,
        enomem: ENOMEM,
        enosys: ENOSYS,
        enotdir: ENOTDIR,
    }
}

fn config() -> PosixConfig {
    PosixConfig {
        errors: errors(),
        stdin: 0,
        max_fds: 8,
        max_path: 16,
        child_shared_va: 0x50_0000,
        brk_base: 0x60_0000,
        mmap_base: 0x4000_0000,
        region_base: 0x4000_0000,
        region_limit: 0x4000_8000,
    }
}

fn word(w: u64) -> PosixAction {
    PosixAction::Reply(Words(w, 0, 0, 0))
}

/// A server that waits for its first call.
fn server() -> PosixServer {
    let mut s = PosixServer::new(config());
    assert_eq!(s.step(PosixEvent::Done), PosixAction::Receive);
    s
}

fn call(s: &mut PosixServer, c: PosixCall) -> PosixAction {
    s.step(PosixEvent::Received(Some(c)))
}

/// A server whose client has its shared buffer.
fn ready() -> PosixServer {
    let mut s = server();
    assert_eq!(
        call(&mut s, PosixCall::PosixInit),
        PosixAction::Kernel(Request::AllocPages { count: 1 })
    );
    assert_eq!(s.step(PosixEvent::Kernel(Ok(30))), PosixAction::AllocVa { pages: 1 });
    assert_eq!(
        s.step(PosixEvent::Va(Some(0x9000))),
        PosixAction::Kernel(Request::MapPages {
            pageset: 30,
            va: 0x9000,
            attribute: MapAttribute::Normal
        })
    );
    assert_eq!(
        s.step(PosixEvent::Kernel(Ok(0))),
        PosixAction::Kernel(Request::ExportHandle { handle: 30 })
    );
    assert_eq!(
        s.step(PosixEvent::Kernel(Ok(5))),
        PosixAction::Reply(Words(5, 0x50_0000, 0x60_0000, 0x4000_0000))
    );
    assert_eq!(s.step(PosixEvent::Done), PosixAction::Print(PosixText::InitDone));
    assert_eq!(s.step(PosixEvent::Done), PosixAction::Receive);
    s
}

fn served(s: &mut PosixServer) {
    assert_eq!(s.step(PosixEvent::Done), PosixAction::Receive);
}

fn file() -> OpenedFile {
    OpenedFile { handle: 44, pageset: PageSetHandle(60), buffer_size: 4096 }
}

fn open_file(s: &mut PosixServer, fd: u32) {
    assert_eq!(
        call(s, PosixCall::FileOpen { path_len: 5, flags: 2 }),
        PosixAction::FsOpen { path_va: 0x9000, path_len: 5, buffer_pages: 1 }
    );
    assert_eq!(s.step(PosixEvent::Opened(Ok(file()))), PosixAction::AllocVa { pages: 1 });
    assert_eq!(
        s.step(PosixEvent::Va(Some(0xA000))),
        PosixAction::Kernel(Request::MapPages {
            pageset: 60,
            va: 0xA000,
            attribute: MapAttribute::Normal
        })
    );
    assert_eq!(
        s.step(PosixEvent::Kernel(Ok(0))),
        PosixAction::AllocFd { handle: 44, flags: 2 }
    );
    assert_eq!(s.step(PosixEvent::Fd(Some(fd))), word(fd as u64));
    served(s);
}

#[test]
fn nothing_goes_through_a_buffer_that_is_not_there() {
    let mut s = server();
    for c in [
        PosixCall::FileOpen { path_len: 5, flags: 0 },
        PosixCall::FileRead { fd: 0, len: 10 },
        PosixCall::EmitFromShared { len: 3, then_reply: 3 },
    ] {
        assert_eq!(call(&mut s, c), word(EINVAL));
        served(&mut s);
    }
}

#[test]
fn simple_calls_are_answered() {
    let mut s = ready();
    assert_eq!(
        call(&mut s, PosixCall::EmitFromShared { len: 3, then_reply: 9 }),
        PosixAction::Emit { va: 0x9000, len: 3 }
    );
    assert_eq!(s.step(PosixEvent::Done), word(9));
    served(&mut s);
    assert_eq!(call(&mut s, PosixCall::FileMadvise), word(0));
    served(&mut s);
    assert_eq!(
        call(&mut s, PosixCall::Reply(Words(1, 2, 3, 4))),
        PosixAction::Reply(Words(1, 2, 3, 4))
    );
    served(&mut s);
    assert_eq!(
        call(&mut s, PosixCall::Unknown { nr: 0x77 }),
        PosixAction::PrintUnknown { nr: 0x77 }
    );
    assert_eq!(s.step(PosixEvent::Done), word(ENOSYS));
    served(&mut s);
    assert_eq!(
        call(&mut s, PosixCall::Exit),
        PosixAction::Print(PosixText::ChildExit)
    );
    assert_eq!(s.step(PosixEvent::Done), PosixAction::Halt(PosixText::Done));
    assert_eq!(PosixText::Done.words(), "posix-server: done\n");
}

#[test]
fn a_server_that_cannot_start_a_client_halts() {
    let mut s = server();
    assert_eq!(s.step(PosixEvent::Received(None)), PosixAction::Halt(PosixText::ReceiveFailed));
    let mut s = server();
    call(&mut s, PosixCall::PosixInit);
    assert_eq!(
        s.step(PosixEvent::Kernel(Err(SyscallError::OutOfMemory))),
        PosixAction::Halt(PosixText::SharedAllocFailed)
    );
    let mut s = server();
    call(&mut s, PosixCall::PosixInit);
    s.step(PosixEvent::Kernel(Ok(30)));
    assert_eq!(s.step(PosixEvent::Va(None)), PosixAction::Halt(PosixText::Panic));
    let mut s = server();
    call(&mut s, PosixCall::PosixInit);
    s.step(PosixEvent::Kernel(Ok(30)));
    s.step(PosixEvent::Va(Some(0x9000)));
    assert_eq!(
        s.step(PosixEvent::Kernel(Err(SyscallError::Kernel(1)))),
        PosixAction::Halt(PosixText::SharedMapFailed)
    );
    let mut s = server();
    call(&mut s, PosixCall::PosixInit);
    s.step(PosixEvent::Kernel(Ok(30)));
    s.step(PosixEvent::Va(Some(0x9000)));
    s.step(PosixEvent::Kernel(Ok(0)));
    assert_eq!(
        s.step(PosixEvent::Kernel(Err(SyscallError::Kernel(1)))),
        PosixAction::Halt(PosixText::SharedExportFailed)
    );
}

#[test]
fn a_file_is_read_and_closed() {
    let mut s = ready();
    open_file(&mut s, 3);
    assert_eq!(
        call(&mut s, PosixCall::FileRead { fd: 3, len: 100 }),
        PosixAction::LookupFd { fd: 3 }
    );
    let entry = FdEntry { kind: FdKind::File, server_handle: 44 };
    assert_eq!(
        s.step(PosixEvent::Entry(Some(entry))),
        PosixAction::FsRead { handle: 44, max: 100 }
    );
    assert_eq!(
        s.step(PosixEvent::BytesRead(Ok(70))),
        PosixAction::Copy { from: 0xA000, to: 0x9000, bytes: 70 }
    );
    assert_eq!(s.step(PosixEvent::Done), word(70));
    served(&mut s);
    call(&mut s, PosixCall::FileRead { fd: 3, len: 9000 });
    assert_eq!(
        s.step(PosixEvent::Entry(Some(entry))),
        PosixAction::FsRead { handle: 44, max: 4096 }
    );
    assert_eq!(s.step(PosixEvent::BytesRead(Err(FsError::Io))), word(EIO));
    served(&mut s);
    assert_eq!(
        call(&mut s, PosixCall::FileClose { fd: 3 }),
        PosixAction::LookupFd { fd: 3 }
    );
    assert_eq!(s.step(PosixEvent::Entry(Some(entry))), PosixAction::FsClose { handle: 44 });
    assert_eq!(s.step(PosixEvent::Closed(Ok(()))), PosixAction::CloseFd { fd: 3 });
    assert_eq!(
        s.step(PosixEvent::Done),
        PosixAction::Kernel(Request::UnmapPages { pageset: 60, va: 0xA000 })
    );
    assert_eq!(
        s.step(PosixEvent::Kernel(Ok(0))),
        PosixAction::Kernel(Request::CloseHandle { handle: 60 })
    );
    assert_eq!(
        s.step(PosixEvent::Kernel(Ok(0))),
        PosixAction::FreeVa { va: 0xA000, pages: 1 }
    );
    assert_eq!(s.step(PosixEvent::Done), word(0));
    served(&mut s);
    call(&mut s, PosixCall::FileRead { fd: 3, len: 1 });
    assert_eq!(s.step(PosixEvent::Entry(Some(entry))), word(EBADF));
}

#[test]
fn standard_streams_are_neither_files_nor_closed() {
    let mut s = ready();
    let stdio = FdEntry { kind: FdKind::Stdio, server_handle: 0 };
    call(&mut s, PosixCall::FileRead { fd: 0, len: 1 });
    assert_eq!(s.step(PosixEvent::Entry(Some(stdio))), word(0));
    served(&mut s);
    call(&mut s, PosixCall::FileRead { fd: 1, len: 1 });
    assert_eq!(s.step(PosixEvent::Entry(Some(stdio))), word(EBADF));
    served(&mut s);
    call(&mut s, PosixCall::FileRead { fd: 7, len: 1 });
    assert_eq!(s.step(PosixEvent::Entry(None)), word(EBADF));
    served(&mut s);
    call(&mut s, PosixCall::FileClose { fd: 1 });
    assert_eq!(s.step(PosixEvent::Entry(Some(stdio))), word(EBADF));
    served(&mut s);
    call(&mut s, PosixCall::FileClose { fd: 7 });
    assert_eq!(s.step(PosixEvent::Entry(None)), word(EBADF));
}

#[test]
fn a_close_that_fails_keeps_the_file() {
    let mut s = ready();
    open_file(&mut s, 3);
    let entry = FdEntry { kind: FdKind::File, server_handle: 44 };
    call(&mut s, PosixCall::FileClose { fd: 3 });
    s.step(PosixEvent::Entry(Some(entry)));
    assert_eq!(s.step(PosixEvent::Closed(Err(FsError::IpcFailed))), word(EINVAL));
    served(&mut s);
    call(&mut s, PosixCall::FileRead { fd: 3, len: 1 });
    assert_eq!(
        s.step(PosixEvent::Entry(Some(entry))),
        PosixAction::FsRead { handle: 44, max: 1 }
    );
}

#[test]
fn a_path_that_is_empty_or_too_long_is_refused() {
    let mut s = ready();
    assert_eq!(call(&mut s, PosixCall::FileOpen { path_len: 0, flags: 0 }), word(EINVAL));
    served(&mut s);
    assert_eq!(call(&mut s, PosixCall::FileOpen { path_len: 17, flags: 0 }), word(EINVAL));
    served(&mut s);
    call(&mut s, PosixCall::FileOpen { path_len: 16, flags: 0 });
    assert_eq!(s.step(PosixEvent::Opened(Err(FsError::NotFound))), word(ENOENT));
}

/// Gives an opened file up for want of addresses; the remote close fails.
fn open_fails(s: &mut PosixServer) -> PosixAction {
    call(s, PosixCall::FileOpen { path_len: 5, flags: 2 });
    s.step(PosixEvent::Opened(Ok(file())));
    assert_eq!(
        s.step(PosixEvent::Va(None)),
        PosixAction::Kernel(Request::CloseHandle { handle: 60 })
    );
    assert_eq!(s.step(PosixEvent::Kernel(Ok(0))), PosixAction::FsClose { handle: 44 });
    s.step(PosixEvent::Closed(Err(FsError::IpcFailed)))
}

#[test]
fn a_remote_handle_is_never_lost() {
    let mut s = ready();
    assert_eq!(open_fails(&mut s), word(ENOMEM));
    assert_eq!(s.step(PosixEvent::Done), PosixAction::FsClose { handle: 44 });
    assert_eq!(s.step(PosixEvent::Closed(Err(FsError::IpcFailed))), PosixAction::Receive);
    assert_eq!(call(&mut s, PosixCall::FileMadvise), word(0));
    assert_eq!(s.step(PosixEvent::Done), PosixAction::FsClose { handle: 44 });
    assert_eq!(s.step(PosixEvent::Closed(Ok(()))), PosixAction::Receive);
    assert_eq!(call(&mut s, PosixCall::FileMadvise), word(0));
    served(&mut s);
}

#[test]
fn a_full_queue_halts_the_server() {
    let mut s = ready();
    for queued in 1..5 {
        assert_eq!(open_fails(&mut s), word(ENOMEM));
        let mut a = s.step(PosixEvent::Done);
        for _ in 0..queued {
            assert_eq!(a, PosixAction::FsClose { handle: 44 });
            a = s.step(PosixEvent::Closed(Err(FsError::IpcFailed)));
        }
        assert_eq!(a, PosixAction::Receive);
    }
    assert_eq!(open_fails(&mut s), PosixAction::Halt(PosixText::QueueFull));
}

#[test]
fn a_file_without_a_descriptor_is_given_up() {
    let mut s = ready();
    call(&mut s, PosixCall::FileOpen { path_len: 5, flags: 2 });
    s.step(PosixEvent::Opened(Ok(file())));
    s.step(PosixEvent::Va(Some(0xA000)));
    s.step(PosixEvent::Kernel(Ok(0)));
    assert_eq!(
        s.step(PosixEvent::Fd(None)),
        PosixAction::Kernel(Request::UnmapPages { pageset: 60, va: 0xA000 })
    );
    assert_eq!(
        s.step(PosixEvent::Kernel(Ok(0))),
        PosixAction::Kernel(Request::CloseHandle { handle: 60 })
    );
    assert_eq!(
        s.step(PosixEvent::Kernel(Ok(0))),
        PosixAction::FreeVa { va: 0xA000, pages: 1 }
    );
    assert_eq!(s.step(PosixEvent::Done), PosixAction::FsClose { handle: 44 });
    assert_eq!(s.step(PosixEvent::Closed(Ok(()))), word(EMFILE));
}

#[test]
fn a_file_that_cannot_be_mapped_is_given_up() {
    let mut s = ready();
    call(&mut s, PosixCall::FileOpen { path_len: 5, flags: 2 });
    s.step(PosixEvent::Opened(Ok(file())));
    s.step(PosixEvent::Va(Some(0xA000)));
    assert_eq!(
        s.step(PosixEvent::Kernel(Err(SyscallError::Kernel(2)))),
        PosixAction::Kernel(Request::CloseHandle { handle: 60 })
    );
    assert_eq!(
        s.step(PosixEvent::Kernel(Ok(0))),
        PosixAction::FreeVa { va: 0xA000, pages: 1 }
    );
    assert_eq!(s.step(PosixEvent::Done), PosixAction::FsClose { handle: 44 });
    assert_eq!(s.step(PosixEvent::Closed(Ok(()))), word(ENOMEM));
}

fn mmap(s: &mut PosixServer, token: u64, len_bytes: u64, pageset: u64) -> PosixAction {
    assert_eq!(call(s, PosixCall::FileMmap { len_bytes }), PosixAction::QueryCallerToken);
    assert_eq!(
        s.step(PosixEvent::Token(token)),
        PosixAction::Kernel(Request::AllocPages { count: (len_bytes + 4095) / 4096 })
    );
    s.step(PosixEvent::Kernel(Ok(pageset)))
}

#[test]
fn regions_are_mapped_and_unmapped() {
    let mut s = ready();
    assert_eq!(
        mmap(&mut s, 7, 5000, 80),
        PosixAction::Kernel(Request::ExportHandle { handle: 80 })
    );
    assert_eq!(
        s.step(PosixEvent::Kernel(Ok(9))),
        PosixAction::Reply(Words(0, 0x4000_0000, 9, 2))
    );
    served(&mut s);
    mmap(&mut s, 8, 1, 81);
    assert_eq!(
        s.step(PosixEvent::Kernel(Ok(9))),
        PosixAction::Reply(Words(0, 0x4000_2000, 9, 1))
    );
    served(&mut s);
    // Another client's region, another length, another address: refused.
    for (token, base_va, len_bytes) in
        [(8, 0x4000_0000, 5000), (7, 0x4000_0000, 4096), (7, 0x4000_1000, 5000)]
    {
        call(&mut s, PosixCall::FileMunmap { base_va, len_bytes });
        assert_eq!(s.step(PosixEvent::Token(token)), word(EINVAL));
        served(&mut s);
        call(&mut s, PosixCall::FileMprotect { base_va, len_bytes });
        assert_eq!(s.step(PosixEvent::Token(token)), word(EINVAL));
        served(&mut s);
    }
    call(&mut s, PosixCall::FileMprotect { base_va: 0x4000_0000, len_bytes: 5000 });
    assert_eq!(s.step(PosixEvent::Token(7)), word(0));
    served(&mut s);
    call(&mut s, PosixCall::FileMunmap { base_va: 0x4000_0000, len_bytes: 5000 });
    assert_eq!(
        s.step(PosixEvent::Token(7)),
        PosixAction::Kernel(Request::CloseHandle { handle: 80 })
    );
    assert_eq!(s.step(PosixEvent::Kernel(Ok(0))), word(0));
    served(&mut s);
    call(&mut s, PosixCall::FileMunmap { base_va: 0x4000_0000, len_bytes: 5000 });
    assert_eq!(s.step(PosixEvent::Token(7)), word(EINVAL));
    served(&mut s);
    call(&mut s, PosixCall::FileMmapRollback { base_va: 0x4000_2000 });
    assert_eq!(s.step(PosixEvent::Token(7)), word(EINVAL));
    served(&mut s);
    call(&mut s, PosixCall::FileMmapRollback { base_va: 0x4000_2000 });
    assert_eq!(
        s.step(PosixEvent::Token(8)),
        PosixAction::Kernel(Request::CloseHandle { handle: 81 })
    );
    assert_eq!(s.step(PosixEvent::Kernel(Ok(0))), word(0));
}

#[test]
fn a_mapping_that_fails_gives_its_pages_back() {
    let mut s = ready();
    call(&mut s, PosixCall::FileMmap { len_bytes: 1 });
    s.step(PosixEvent::Token(7));
    assert_eq!(s.step(PosixEvent::Kernel(Err(SyscallError::OutOfMemory))), word(ENOMEM));
    served(&mut s);
    // Nine pages are more than the eight that there are.
    assert_eq!(
        mmap(&mut s, 7, 9 * 4096, 80),
        PosixAction::Kernel(Request::CloseHandle { handle: 80 })
    );
    assert_eq!(s.step(PosixEvent::Kernel(Ok(0))), word(ENOMEM));
    served(&mut s);
    mmap(&mut s, 7, 4096, 81);
    assert_eq!(
        s.step(PosixEvent::Kernel(Err(SyscallError::Kernel(4)))),
        PosixAction::Kernel(Request::CloseHandle { handle: 81 })
    );
    assert_eq!(s.step(PosixEvent::Kernel(Ok(0))), word(ENOMEM));
    served(&mut s);
    // The addresses of the failed mapping are not used again.
    mmap(&mut s, 7, 4096, 82);
    assert_eq!(
        s.step(PosixEvent::Kernel(Ok(1))),
        PosixAction::Reply(Words(0, 0x4000_1000, 1, 1))
    );
}

#[test]
fn a_full_table_of_regions_refuses_at_once() {
    let mut t = MmapTable::new();
    let e = |i: u64| MmapEntry {
        caller_token: 1,
        base_va: 0x1000 * i,
        len_bytes: 1,
        server_pageset: PageSetHandle(i),
    };
    for i in 0..MAX_MMAP_REGIONS as u64 {
        assert!(t.has_room());
        assert_eq!(t.insert(e(i)), Ok(()));
    }
    assert!(!t.has_room());
    assert_eq!(t.insert(e(99)), Err(()));
    assert_eq!(t.find_by_base_va(1, 0x3000), Some(e(3)));
    assert_eq!(t.find_by_base_va(2, 0x3000), None);
    assert_eq!(t.take_by_base_va(1, 0x3000), Some(e(3)));
    assert_eq!(t.take_by_base_va(1, 0x3000), None);
    assert!(t.has_room());
}

#[test]
fn addresses_only_grow() {
    let mut a = MmapVaAllocator::new(0x1000, 0x4000);
    assert_eq!(a.claim(2), Some(0x1000));
    assert_eq!(a.claim(2), None);
    assert_eq!(a.claim(1), Some(0x3000));
    assert_eq!(a.claim(1), None);
    assert_eq!(MmapVaAllocator::new(0x1000, u64::MAX).claim(u64::MAX), None);
    assert_eq!(MmapVaAllocator::new(u64::MAX, u64::MAX).claim(1), None);
}

#[test]
fn errors_have_their_numbers() {
    let e = errors();
    assert_eq!(fs_error_to_errno(&e, FsError::NotFound), ENOENT);
    assert_eq!(fs_error_to_errno(&e, FsError::IsDirectory), EISDIR);
    assert_eq!(fs_error_to_errno(&e, FsError::NotDirectory), ENOTDIR);
    assert_eq!(fs_error_to_errno(&e, FsError::TooManyOpen), EMFILE);
    assert_eq!(fs_error_to_errno(&e, FsError::AllocFailed), ENOMEM);
    assert_eq!(fs_error_to_errno(&e, FsError::Io), EIO);
    for f in [
        FsError::PathTooLong,
        FsError::Invalid,
        FsError::InvalidBufferPages,
        FsError::Unknown,
        FsError::IpcFailed,
    ] {
        assert_eq!(fs_error_to_errno(&e, f), EINVAL);
    }
}

#[test]
fn a_program_is_loaded_page_by_page() {
    let text = ElfLoadEntry {
        page_va: 0x40_0000,
        src_start: 0x100,
        src_end: 0x300,
        in_page_offset: 0x20,
        executable: true,
    };
    let bss = ElfLoadEntry {
        page_va: 0x40_1000,
        src_start: 0,
        src_end: 0,
        in_page_offset: 0,
        executable: false,
    };
    let (mut l, a) = load_elf_segments(vec![text, bss], 0x10_0000, 1);
    assert_eq!(a, LoadAction::Kernel(Request::AllocPages { count: 1 }));
    assert_eq!(
        l.apply_elf_load_entry(Ok(70)),
        LoadAction::Kernel(Request::MapPages {
            pageset: 70,
            va: 0x10_0000,
            attribute: MapAttribute::Normal
        })
    );
    assert_eq!(
        l.apply_elf_load_entry(Ok(0)),
        LoadAction::Kernel(Request::Zero { va: 0x10_0000, bytes: 4096 })
    );
    assert_eq!(
        l.apply_elf_load_entry(Ok(0)),
        LoadAction::Copy { from: 0x100, to: 0x10_0020, bytes: 0x200 }
    );
    assert_eq!(
        l.apply_elf_load_entry(Ok(0)),
        LoadAction::Kernel(Request::AllocPages { count: 1 })
    );
    l.apply_elf_load_entry(Ok(71));
    assert_eq!(
        l.apply_elf_load_entry(Ok(0)),
        LoadAction::Kernel(Request::Zero { va: 0x10_1000, bytes: 4096 })
    );
    assert_eq!(l.apply_elf_load_entry(Ok(0)), LoadAction::Finished);
    let m = |virt_addr, pageset_id, flags| ProcessMapping {
        virt_addr,
        pageset_id,
        page_index: 0,
        flags,
    };
    assert_eq!(*l.mappings(), vec![m(0x40_0000, 70, 1), m(0x40_1000, 71, 0)]);

    let (mut l, _) = load_elf_segments(vec![bss], 0x10_0000, 1);
    assert_eq!(
        l.apply_elf_load_entry(Err(SyscallError::OutOfMemory)),
        LoadAction::Failed(BootText::SegmentAllocFailed)
    );
    let (mut l, _) = load_elf_segments(vec![bss], 0x10_0000, 1);
    l.apply_elf_load_entry(Ok(70));
    assert_eq!(
        l.apply_elf_load_entry(Err(SyscallError::Kernel(1))),
        LoadAction::Failed(BootText::SegmentMapFailed)
    );
    assert_eq!(load_elf_segments(vec![], 0, 1).1, LoadAction::Finished);
}

#[test]
fn the_server_starts_its_program() {
    let (mut b, a) = posix_boot();
    assert_eq!(a, BootAction::Print(BootText::Starting));
    let ok = |v| BootEvent::Kernel(Ok(v));
    let ask = |r| BootAction::Kernel(r);
    let map = |pageset, va| {
        ask(Request::MapPages { pageset, va, attribute: MapAttribute::Normal })
    };
    assert_eq!(b.step(BootEvent::Done), ask(Request::AllocPages { count: 1 }));
    assert_eq!(b.step(ok(10)), ask(Request::CreateReply { pageset: 10 }));
    assert_eq!(
        b.step(ok(11)),
        ask(Request::Call { endpoint: 0, reply: 11, message: Words(0, 0, 0, 0) })
    );
    assert_eq!(
        b.step(BootEvent::Message(Ok(Words(21, 0, 0, 0)))),
        BootAction::Print(BootText::Bootstrapped)
    );
    assert_eq!(b.step(BootEvent::Done), BootAction::ParseElf);
    assert_eq!(b.step(BootEvent::Checked(true)), BootAction::LayOut { stack_pages: 4 });
    let layout = VaLayout { child_shared_va: 1, brk_base: 2, mmap_base: 3 };
    assert_eq!(b.step(BootEvent::Layout(Some(layout))), BootAction::AllocVa { pages: 1 });
    assert_eq!(b.step(BootEvent::Va(Some(0x1000))), BootAction::AllocVa { pages: 128 });
    assert_eq!(b.step(BootEvent::Va(Some(0x2000))), ask(Request::AllocPages { count: 1 }));
    assert_eq!(b.step(ok(12)), ask(Request::AllocPages { count: 1 }));
    assert_eq!(b.step(ok(13)), map(13, 0x1000));
    assert_eq!(
        b.step(ok(0)),
        BootAction::LoadSegments { array_va: 0x1000, temp_base_va: 0x2000 }
    );
    assert_eq!(b.step(BootEvent::Loaded(Ok(5))), ask(Request::AllocPages { count: 4 }));
    assert_eq!(b.step(ok(14)), BootAction::AllocVa { pages: 4 });
    assert_eq!(b.step(BootEvent::Va(Some(0x8000))), map(14, 0x8000));
    assert_eq!(b.step(ok(0)), ask(Request::Zero { va: 0x8000, bytes: 0x4000 }));
    assert_eq!(b.step(ok(0)), BootAction::WriteStack { layout_va: 0xB000 });
    assert_eq!(b.step(BootEvent::Checked(true)), ask(Request::AllocPages { count: 1 }));
    assert_eq!(b.step(ok(15)), ask(Request::CreateEndpoint { pageset: 15 }));
    assert_eq!(b.step(ok(16)), BootAction::Print(BootText::Spawning));
    assert_eq!(
        b.step(BootEvent::Done),
        BootAction::CreateProcess {
            array_va: 0x1000,
            mappings: 5,
            stack: 14,
            scratch: 12,
            endpoint: 16
        }
    );
    assert_eq!(b.step(ok(0)), BootAction::Print(BootText::Spawned));
    assert_eq!(b.step(BootEvent::Done), BootAction::Serve);
    assert_eq!((b.fs_endpoint, b.reply), (EndpointHandle(21), ReplyHandle(11)));
    assert_eq!(b.layout, layout);
}

#[test]
fn a_start_that_fails_says_why() {
    let failed = BootEvent::Kernel(Err(SyscallError::OutOfMemory));
    let (mut b, _) = posix_boot();
    b.step(BootEvent::Done);
    assert_eq!(b.step(failed), BootAction::Halt(BootText::ReplyFailed));
    let (mut b, _) = posix_boot();
    b.step(BootEvent::Done);
    b.step(BootEvent::Kernel(Ok(1)));
    assert_eq!(b.step(failed), BootAction::Halt(BootText::ReplyFailed));
    let (mut b, _) = posix_boot();
    b.step(BootEvent::Done);
    b.step(BootEvent::Kernel(Ok(1)));
    b.step(BootEvent::Kernel(Ok(1)));
    assert_eq!(
        b.step(BootEvent::Message(Err(SyscallError::Kernel(1)))),
        BootAction::Halt(BootText::CallFailed)
    );
    assert_eq!(BootText::CallFailed.words(), "posix: bootstrap call FAILED\n");
}

#[test]
fn the_file_system_answers() {
    let codes = FsCodes {
        open: 1,
        read: 2,
        close: 3,
        ok: 0,
        err_not_found: 10,
        err_invalid: 11,
        err_too_many_open: 12,
        err_io: 13,
        err_path_too_long: 14,
        err_invalid_buffer_pages: 15,
        err_alloc: 16,
        err_is_directory: 17,
        err_not_directory: 18,
        max_inline_path: 16,
        max_buffer_pages: 4,
    };
    let c = FsClient::new(EndpointHandle(4), ReplyHandle(5), codes);
    let call = |w: Words| Request::Call { endpoint: 4, reply: 5, message: w };
    assert_eq!(c.open(5, 1, 0xAA, 0xBB, 0xCC), Ok(call(Words(1, 0xAA, 0xBB, 0xCC))));
    assert_eq!(c.open(0, 1, 0, 0, 0), Err(FsError::PathTooLong));
    assert_eq!(c.open(17, 1, 0, 0, 0), Err(FsError::PathTooLong));
    assert_eq!(c.open(5, 0, 0, 0, 0), Err(FsError::InvalidBufferPages));
    assert_eq!(c.open(5, 5, 0, 0, 0), Err(FsError::InvalidBufferPages));
    assert_eq!(
        c.opened(Ok(Words(0, 44, 60, 4096))),
        Ok(OpenedFile { handle: 44, pageset: PageSetHandle(60), buffer_size: 4096 })
    );
    assert_eq!(c.read(44, 100), call(Words(2, 44, 100, 0)));
    assert_eq!(c.read_answer(Ok(Words(0, 70, 0, 0))), Ok(70));
    assert_eq!(c.close(44), call(Words(3, 44, 0, 0)));
    for (status, e) in [
        (10, FsError::NotFound),
        (11, FsError::Invalid),
        (12, FsError::TooManyOpen),
        (13, FsError::Io),
        (14, FsError::PathTooLong),
        (15, FsError::InvalidBufferPages),
        (16, FsError::AllocFailed),
        (17, FsError::IsDirectory),
        (18, FsError::NotDirectory),
        (99, FsError::Unknown),
    ] {
        assert_eq!(c.close_answer(Ok(Words(status, 0, 0, 0))), Err(e));
    }
    assert_eq!(c.close_answer(Ok(Words(0, 0, 0, 0))), Ok(()));
    assert_eq!(c.read_answer(Err(SyscallError::Kernel(1))), Err(FsError::IpcFailed));
}

#[test]
fn a_call_that_is_not_known_is_reported() {
    assert_eq!(unknown_line(0x1fe), "posix: unknown nr=0x1fe -> ENOSYS\n");
    assert_eq!(unknown_line(0), "posix: unknown nr=0x0 -> ENOSYS\n");
}
