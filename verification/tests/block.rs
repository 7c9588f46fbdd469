use lockjaw::block::{
    AllocatedBuffer, BlockAction, BlockClient, BlockCodes, BlockError, BlockEvent, BlockGeometry,
    BlockInfo, BlockServer, BufferTracker, MAX_BUFFERS,
};
use lockjaw::handle::{EndpointHandle, PageSetHandle, ReplyHandle};
use lockjaw::partition::{
    choose_partition, BootstrapBuf, DiskLayout, Partition, PartitionBlockEngine,
    Teardown,
};
use lockjaw::syscall::{MapAttribute, Request, SyscallError, Words};
use lockjaw::virtio_blk::{queue_pages, queue_size, BlkBuffers, Placed};
use lockjaw::virtual_memory::VirtualMemory;

fn codes() -> BlockCodes {
    BlockCodes {
        get_info: 1,
        alloc_buffer: 2,
        read: 3,
        write: 4,
        free_buffer: 5,
        ok: 0,
        err_io: 10,
        err_unsupported: 11,
        err_invalid: 12,
        err_alloc: 13,
    }
}

fn status(s: u64) -> BlockAction {
    BlockAction::Reply(Words(s, 0, 0, 0))
}

fn take_buffer(s: &mut BlockServer, caller: u64, pageset: u64) -> u64 {
    assert_eq!(s.step(BlockEvent::Message(Words(2, 8, 0, 0), caller)), BlockAction::Alloc(8));
    let ps = PageSetHandle(pageset);
    assert_eq!(s.step(BlockEvent::Buffer(Ok(ps))), BlockAction::Export(ps));
    match s.step(BlockEvent::Exported(Some(77))) {
        BlockAction::Reply(Words(0, 77, id, 0)) => id,
        a => panic!("{a:?}"),
    }
}

#[test]
fn numbers_are_given_out_in_turn() {
    let mut t = BufferTracker::new();
    assert_eq!(t.track(1, PageSetHandle(100)), Some(1));
    assert_eq!(t.track(2, PageSetHandle(200)), Some(2));
    assert_eq!(t.translate(1, 1), Some(PageSetHandle(100)));
    assert_eq!(t.translate(1, 2), None);
    assert_eq!(t.translate(2, 2), Some(PageSetHandle(200)));
    assert_eq!(t.remove(1, 2), None);
    assert_eq!(t.remove(1, 1), Some(PageSetHandle(100)));
    assert_eq!(t.translate(1, 1), None);
    assert_eq!(t.track(1, PageSetHandle(300)), Some(3));
    for _ in 2..MAX_BUFFERS {
        assert!(t.track(1, PageSetHandle(1)).is_some());
    }
    assert_eq!(t.track(1, PageSetHandle(9)), None);
}

#[test]
fn the_server_tells_the_geometry() {
    let mut s = BlockServer::new(codes());
    assert_eq!(s.step(BlockEvent::Message(Words(1, 0, 0, 0), 5)), BlockAction::Info);
    let g = BlockGeometry { capacity_sectors: 100, sector_size: 512, buffer_attribute: 1 };
    assert_eq!(s.step(BlockEvent::Info(g)), BlockAction::Reply(Words(100, 512, 1, 0)));
    assert_eq!(s.step(BlockEvent::Message(Words(99, 0, 0, 0), 5)), status(11));
}

#[test]
fn clients_reach_only_their_own_buffers() {
    let mut s = BlockServer::new(codes());
    let a = take_buffer(&mut s, 1, 100);
    let b = take_buffer(&mut s, 2, 200);
    assert_ne!(a, b);
    assert_eq!(
        s.step(BlockEvent::Message(Words(3, 7, 1, a), 1)),
        BlockAction::Read { sector: 7, count: 1, buffer: PageSetHandle(100) }
    );
    assert_eq!(s.step(BlockEvent::Done(Ok(()))), status(0));
    assert_eq!(s.step(BlockEvent::Message(Words(3, 7, 1, a), 2)), status(12));
    assert_eq!(s.step(BlockEvent::Message(Words(4, 7, 1, a), 2)), status(12));
    assert_eq!(s.step(BlockEvent::Message(Words(5, a, 0, 0), 2)), status(12));
    assert_eq!(
        s.step(BlockEvent::Message(Words(4, 9, 2, b), 2)),
        BlockAction::Write { sector: 9, count: 2, buffer: PageSetHandle(200) }
    );
    assert_eq!(s.step(BlockEvent::Done(Err(BlockError::IoError))), status(10));
    s.step(BlockEvent::Message(Words(4, 9, 2, b), 2));
    assert_eq!(s.step(BlockEvent::Done(Err(BlockError::Unsupported))), status(11));
    s.step(BlockEvent::Message(Words(4, 9, 2, b), 2));
    assert_eq!(s.step(BlockEvent::Done(Err(BlockError::InvalidParameter))), status(12));
    assert_eq!(
        s.step(BlockEvent::Message(Words(5, a, 0, 0), 1)),
        BlockAction::Free(PageSetHandle(100))
    );
    assert_eq!(s.step(BlockEvent::Freed), status(0));
    assert_eq!(s.step(BlockEvent::Message(Words(3, 7, 1, a), 1)), status(12));
}

#[test]
fn a_buffer_that_cannot_be_handed_over_is_freed() {
    let mut s = BlockServer::new(codes());
    s.step(BlockEvent::Message(Words(2, 8, 0, 0), 1));
    s.step(BlockEvent::Buffer(Ok(PageSetHandle(100))));
    assert_eq!(s.step(BlockEvent::Exported(None)), BlockAction::Free(PageSetHandle(100)));
    assert_eq!(s.step(BlockEvent::Freed), status(13));
    s.step(BlockEvent::Message(Words(2, 8, 0, 0), 1));
    assert_eq!(s.step(BlockEvent::Buffer(Err(BlockError::AllocFailed))), status(13));
    for i in 0..MAX_BUFFERS as u64 {
        take_buffer(&mut s, 1, 500 + i);
    }
    s.step(BlockEvent::Message(Words(2, 8, 0, 0), 1));
    assert_eq!(
        s.step(BlockEvent::Buffer(Ok(PageSetHandle(9)))),
        BlockAction::Free(PageSetHandle(9))
    );
    assert_eq!(s.step(BlockEvent::Freed), status(13));
}

#[test]
fn a_client_reads_the_answers() {
    let c = BlockClient::new(EndpointHandle(4), ReplyHandle(5), codes());
    let call = |w: Words| Request::Call { endpoint: 4, reply: 5, message: w };
    assert_eq!(c.get_info(), call(Words(1, 0, 0, 0)));
    assert_eq!(c.alloc_buffer(8), call(Words(2, 8, 0, 0)));
    assert_eq!(c.read(7, 2, 3), call(Words(3, 7, 2, 3)));
    assert_eq!(c.write(7, 2, 3), call(Words(4, 7, 2, 3)));
    assert_eq!(c.free_buffer(3), call(Words(5, 3, 0, 0)));
    assert_eq!(c.status_answer(Ok(Words(0, 0, 0, 0))), Ok(()));
    assert_eq!(c.status_answer(Ok(Words(10, 0, 0, 0))), Err(BlockError::IoError));
    assert_eq!(c.status_answer(Ok(Words(11, 0, 0, 0))), Err(BlockError::Unsupported));
    assert_eq!(c.status_answer(Ok(Words(12, 0, 0, 0))), Err(BlockError::InvalidParameter));
    assert_eq!(c.status_answer(Ok(Words(13, 0, 0, 0))), Err(BlockError::AllocFailed));
    assert_eq!(c.status_answer(Ok(Words(99, 0, 0, 0))), Err(BlockError::InvalidParameter));
    assert_eq!(c.status_answer(Err(SyscallError::Kernel(1))), Err(BlockError::IpcFailed));
    assert_eq!(
        c.buffer_answer(Ok(Words(0, 77, 3, 0))),
        Ok(AllocatedBuffer { pageset: PageSetHandle(77), buffer_id: 3 })
    );
    let info = c.info_answer(Ok(Words(100, 512, 0, 0)), Some(MapAttribute::Normal)).unwrap();
    assert_eq!((info.capacity_sectors, info.sector_size), (100, 512));
    assert!(c.info_answer(Err(SyscallError::Kernel(1)), None).is_err());
}

#[test]
fn the_first_fat_partition_is_chosen() {
    let p = |is_fat32, start_lba| Partition { is_fat32, start_lba, sector_count: 10 };
    let disk = DiskLayout::Mbr { partitions: vec![p(false, 1), p(true, 20), p(true, 30)] };
    assert_eq!(choose_partition(&disk), Some((20, 10)));
    assert_eq!(choose_partition(&DiskLayout::Mbr { partitions: vec![p(false, 1)] }), None);
    assert_eq!(choose_partition(&DiskLayout::BareFat { sector_count: 44 }), Some((0, 44)));
}

fn partition() -> PartitionBlockEngine {
    let c = BlockClient::new(EndpointHandle(4), ReplyHandle(5), codes());
    PartitionBlockEngine::new(c, 2048, 100, 1)
}

#[test]
fn a_partition_is_not_left() {
    let mut e = partition();
    let g = e.info();
    assert_eq!((g.capacity_sectors, g.sector_size, g.buffer_attribute), (100, 512, 1));
    assert_eq!(
        e.alloc_buffer(8),
        Ok(Request::Call { endpoint: 4, reply: 5, message: Words(2, 8, 0, 0) })
    );
    let ps = PageSetHandle(77);
    assert_eq!(e.buffer_allocated(Ok(AllocatedBuffer { pageset: ps, buffer_id: 3 })), Ok(ps));
    assert_eq!(
        e.read(99, 1, ps),
        Ok(Request::Call { endpoint: 4, reply: 5, message: Words(3, 2147, 1, 3) })
    );
    assert_eq!(
        e.write(0, 100, ps),
        Ok(Request::Call { endpoint: 4, reply: 5, message: Words(4, 2048, 100, 3) })
    );
    assert_eq!(e.read(99, 2, ps), Err(BlockError::InvalidParameter));
    assert_eq!(e.write(u64::MAX, 2, ps), Err(BlockError::InvalidParameter));
    assert_eq!(e.read(0, 1, PageSetHandle(78)), Err(BlockError::InvalidBuffer));
    assert_eq!(
        e.free_buffer(ps),
        Some((
            Request::Call { endpoint: 4, reply: 5, message: Words(5, 3, 0, 0) },
            Request::CloseHandle { handle: 77 }
        ))
    );
    assert_eq!(e.free_buffer(ps), None);
    assert_eq!(
        e.buffer_allocated(Err(BlockError::IoError)),
        Err(BlockError::AllocFailed)
    );
}

#[test]
fn a_full_partition_asks_nobody() {
    let mut e = partition();
    for i in 0..8 {
        let a = AllocatedBuffer { pageset: PageSetHandle(100 + i), buffer_id: i as u32 };
        assert!(e.buffer_allocated(Ok(a)).is_ok());
    }
    assert_eq!(e.alloc_buffer(8), Err(BlockError::AllocFailed));
}

#[test]
fn the_first_buffer_is_torn_down_in_order() {
    let c = BlockClient::new(EndpointHandle(4), ReplyHandle(5), codes());
    let free = Request::Call { endpoint: 4, reply: 5, message: Words(5, 3, 0, 0) };
    let close = Request::CloseHandle { handle: 77 };
    let mut b = BootstrapBuf::new(AllocatedBuffer { pageset: PageSetHandle(77), buffer_id: 3 });
    match b.teardown(&c) {
        Teardown::Finish(first, second) => assert_eq!((first, second), (free, close)),
        Teardown::Unmap(_, _) => panic!("nothing is mapped"),
    }
    let mut vm = VirtualMemory::with_region(0x10_0000, 4);
    let va = vm.alloc_pages(1).unwrap();
    b.set_va(va);
    match b.teardown(&c) {
        Teardown::Unmap(u, request) => {
            assert_eq!(request, Request::UnmapPages { pageset: 77, va });
            assert_eq!(b.unmapped(&c, u, Ok(0), &mut vm), (free, close));
        }
        Teardown::Finish(_, _) => panic!("the buffer is mapped"),
    }
    assert_eq!(vm.free_regions(), vec![(0x10_0000, 4)]);
    vm.alloc_pages(1).unwrap();
    if let Teardown::Unmap(u, _) = b.teardown(&c) {
        assert_eq!(b.unmapped(&c, u, Err(SyscallError::Kernel(1)), &mut vm), (free, close));
    }
    assert_eq!(vm.free_regions(), vec![(0x10_1000, 3)]);
}

#[test]
fn the_driver_checks_transfers() {
    let mut b = BlkBuffers::new(100);
    assert_eq!(b.info(0).capacity_sectors, 100);
    assert_eq!(b.alloc_buffer(8), Ok(1));
    assert_eq!(b.alloc_buffer(9), Ok(2));
    let ps = PageSetHandle(50);
    assert!(matches!(b.place(ps, 0x8000, 8), Placed::Kept(PageSetHandle(50))));
    assert_eq!(b.check_transfer(92, 8, ps).unwrap().pa, 0x8000);
    assert!(matches!(b.check_transfer(93, 8, ps), Err(BlockError::InvalidParameter)));
    assert!(matches!(b.check_transfer(0, 9, ps), Err(BlockError::InvalidParameter)));
    assert!(matches!(b.check_transfer(0, 1, PageSetHandle(51)), Err(BlockError::InvalidBuffer)));
    assert_eq!(b.free_buffer(ps), Some(Request::CloseHandle { handle: 50 }));
    assert_eq!(b.free_buffer(ps), None);
    for i in 0..8 {
        assert!(matches!(b.place(PageSetHandle(i), 0x1000 * (i + 1), 1), Placed::Kept(_)));
    }
    assert_eq!(b.alloc_buffer(1), Err(BlockError::AllocFailed));
}

#[test]
fn the_queue_is_as_large_as_both_allow() {
    assert_eq!(queue_size(64), 64);
    assert_eq!(queue_size(1024), 128);
    assert_eq!(queue_pages(4096), 1);
    assert_eq!(queue_pages(4097), 2);
}
