use lockjaw::handle::PageSetHandle;
use lockjaw::syscall::{Request, SyscallError};
use lockjaw::virtual_memory::{unmap_pages_tracked, VirtualMemory};

const USER_VA_END: u64 = 0x8000_0000;

fn make_allocator() -> VirtualMemory {
    VirtualMemory::with_region(0, USER_VA_END / 0x1000)
}

fn make_with_region(base: u64, pages: u64) -> VirtualMemory {
    VirtualMemory::with_region(base, pages)
}

fn free_regions(a: &VirtualMemory) -> Vec<(u64, u64)> {
    a.free_regions()
}

#[test]
fn alloc_single_page() {
    let mut a = make_with_region(0x10_0000, 100);
    let va = a.alloc_pages(1);
    assert_eq!(va, Some(0x10_0000));
    let regions = free_regions(&a);
    assert_eq!(regions, vec![(0x10_1000, 99)]);
}

#[test]
fn alloc_exact_fit() {
    let mut a = make_with_region(0x10_0000, 4);
    let va = a.alloc_pages(4);
    assert_eq!(va, Some(0x10_0000));
    let regions = free_regions(&a);
    assert_eq!(regions, vec![]);
}

#[test]
fn alloc_too_large() {
    let mut a = make_with_region(0x10_0000, 4);
    let va = a.alloc_pages(5);
    assert_eq!(va, None);
}

#[test]
fn alloc_zero_pages() {
    let mut a = make_with_region(0x10_0000, 100);
    assert_eq!(a.alloc_pages(0), None);
}

#[test]
fn alloc_multiple_sequential() {
    let mut a = make_with_region(0x10_0000, 100);
    let v1 = a.alloc_pages(10).unwrap();
    let v2 = a.alloc_pages(20).unwrap();
    let v3 = a.alloc_pages(5).unwrap();
    assert_eq!(v1, 0x10_0000);
    assert_eq!(v2, 0x10_0000 + 10 * 0x1000);
    assert_eq!(v3, 0x10_0000 + 30 * 0x1000);
    let regions = free_regions(&a);
    assert_eq!(regions, vec![(0x10_0000 + 35 * 0x1000, 65)]);
}

#[test]
fn reserve_from_front() {
    let mut a = make_with_region(0x10_0000, 100);
    assert!(a.reserve(0x10_0000, 10));
    let regions = free_regions(&a);
    assert_eq!(regions, vec![(0x10_0000 + 10 * 0x1000, 90)]);
}

#[test]
fn reserve_from_back() {
    let mut a = make_with_region(0x10_0000, 100);
    let back_va = 0x10_0000 + 90 * 0x1000;
    assert!(a.reserve(back_va, 10));
    let regions = free_regions(&a);
    assert_eq!(regions, vec![(0x10_0000, 90)]);
}

#[test]
fn reserve_splits_region() {
    let mut a = make_with_region(0x10_0000, 100);
    let mid_va = 0x10_0000 + 40 * 0x1000;
    assert!(a.reserve(mid_va, 10));
    let regions = free_regions(&a);
    assert_eq!(regions, vec![
        (0x10_0000, 40),
        (0x10_0000 + 50 * 0x1000, 50),
    ]);
}

#[test]
fn reserve_exact_match() {
    let mut a = make_with_region(0x10_0000, 10);
    assert!(a.reserve(0x10_0000, 10));
    let regions = free_regions(&a);
    assert_eq!(regions, vec![]);
}

#[test]
fn reserve_overlapping_fails() {
    let mut a = make_with_region(0x10_0000, 10);
    a.reserve(0x10_0000, 5);
    assert!(!a.reserve(0x10_0000 + 3 * 0x1000, 5));
}

#[test]
fn free_merges_with_predecessor() {
    let mut a = make_with_region(0x10_0000, 100);
    let v1 = a.alloc_pages(10).unwrap();
    let v2 = a.alloc_pages(10).unwrap();
    a.free_internal(v1, 10);
    a.free_internal(v2, 10);
    let regions = free_regions(&a);
    assert_eq!(regions, vec![(0x10_0000, 100)]);
}

#[test]
fn free_merges_with_successor() {
    let mut a = make_with_region(0x10_0000, 100);
    let v1 = a.alloc_pages(10).unwrap();
    let _v2 = a.alloc_pages(10).unwrap();
    a.free_internal(v1, 10);
    let regions = free_regions(&a);
    assert_eq!(regions.len(), 2);
    assert_eq!(regions[0], (0x10_0000, 10));
}

#[test]
fn alloc_after_free_reuses_space() {
    let mut a = make_with_region(0x10_0000, 20);
    let v1 = a.alloc_pages(10).unwrap();
    let _v2 = a.alloc_pages(10).unwrap();
    assert_eq!(a.alloc_pages(1), None);
    a.free_internal(v1, 10);
    let v3 = a.alloc_pages(5).unwrap();
    assert_eq!(v3, v1);
}

#[test]
fn reserve_then_alloc_avoids_reserved() {
    let mut a = make_allocator();
    a.reserve(0x40_0000, 4);
    let va = a.alloc_pages(1).unwrap();
    assert!(va < 0x40_0000 || va >= 0x40_4000);
}

#[test]
fn double_free_is_rejected() {
    let mut a = make_with_region(0x10_0000, 20);
    let v1 = a.alloc_pages(10).unwrap();
    a.free_internal(v1, 10);
    a.free_internal(v1, 10);
    let regions = free_regions(&a);
    assert_eq!(regions, vec![(0x10_0000, 20)]);
}

#[test]
fn overlapping_free_is_rejected() {
    let mut a = make_with_region(0x10_0000, 20);
    let v1 = a.alloc_pages(10).unwrap();
    let _v2 = a.alloc_pages(10).unwrap();
    a.free_internal(v1, 10);
    a.free_internal(0x10_5000, 10);
    let regions = free_regions(&a);
    assert_eq!(regions, vec![(0x10_0000, 10)]);
}

#[test]
fn next_fit_advances_cursor() {
    let mut a = make_with_region(0x10_0000, 100);
    let v1 = a.alloc_pages(10).unwrap();
    let v2 = a.alloc_pages(10).unwrap();
    assert_eq!(v1, 0x10_0000);
    assert_eq!(v2, 0x10_0000 + 10 * 0x1000);
    let v3 = a.alloc_pages(10).unwrap();
    assert_eq!(v3, 0x10_0000 + 20 * 0x1000);
}

#[test]
fn the_first_use_leaves_out_what_is_mapped() {
    let mut a = VirtualMemory::new();
    assert!(!a.ready());
    a.ensure_init(USER_VA_END, Some((true, 4)), None);
    assert!(a.ready());
    let regions = free_regions(&a);
    assert!(regions.len() >= 2, "{regions:?}");
    assert!(regions.iter().all(|r| r.0 + r.1 * 0x1000 <= 0x40_0000 || r.0 >= 0x40_4000));
    let before = free_regions(&a);
    a.ensure_init(USER_VA_END, None, None);
    assert_eq!(free_regions(&a), before);
}

#[test]
fn the_first_use_leaves_exactly_the_rest_free() {
    let mut a = VirtualMemory::new();
    a.ensure_init(USER_VA_END, Some((true, 0x400)), Some((true, 4)));
    assert_eq!(
        free_regions(&a),
        vec![(0x1_0000, 0x3f0), (0x80_4000, 0x8_0000 - 0x804)]
    );
    let mut b = VirtualMemory::new();
    b.ensure_init(USER_VA_END, Some((false, u64::MAX)), Some((false, u64::MAX)));
    assert_eq!(free_regions(&b), vec![(0x1_0000, 0x8_0000 - 0x10)]);
    let mut c = VirtualMemory::new();
    c.ensure_init(USER_VA_END, Some((true, 0x500)), Some((true, 4)));
    assert_eq!(
        free_regions(&c),
        vec![(0x1_0000, 0x3f0), (0x90_0000, 0x8_0000 - 0x900)]
    );
}

#[test]
fn what_was_unmapped_can_be_taken_again() {
    let mut a = make_with_region(0x10_0000, 8);
    let va = a.alloc_pages(8).unwrap();
    let (pending, request) = unmap_pages_tracked(PageSetHandle(7), va, 8);
    assert_eq!(request, Request::UnmapPages { pageset: 7, va });
    let unmapped = pending.resume(Ok(0)).unwrap();
    assert_eq!((unmapped.va(), unmapped.pages()), (va, 8));
    a.free_unmapped(unmapped);
    assert_eq!(free_regions(&a), vec![(0x10_0000, 8)]);
    assert_eq!(a.alloc_pages(8), Some(va));
    a.free_unused_allocation(va, 8);
    assert_eq!(a.alloc_pages(8), Some(va));
}

#[test]
fn a_failed_unmap_frees_nothing() {
    let (pending, _) = unmap_pages_tracked(PageSetHandle(7), 0x10_0000, 1);
    match pending.resume(Err(SyscallError::Kernel(3))) {
        Ok(_) => panic!("unmapped"),
        Err(e) => assert_eq!(e, SyscallError::Kernel(3)),
    }
}

#[test]
fn the_largest_gap_is_found_past_smaller_ones() {
    let mut a = make_with_region(0x10_0000, 100);
    assert!(a.reserve(0x10_0000 + 2 * 0x1000, 1));
    assert!(a.reserve(0x10_0000 + 5 * 0x1000, 1));
    assert_eq!(a.alloc_pages(10), Some(0x10_0000 + 6 * 0x1000));
    assert_eq!(a.alloc_pages(3), Some(0x10_0000 + 16 * 0x1000));
    assert_eq!(a.alloc_pages(200), None);
}

#[test]
fn a_full_list_refuses_only_what_would_split_a_region() {
    let mut a = make_with_region(0x10_0000, 1000);
    for i in 0..63 {
        assert!(a.reserve(0x10_0000 + (2 * i + 1) * 0x1000, 1));
    }
    assert_eq!(free_regions(&a).len(), 64);
    assert!(!a.reserve(0x10_0000 + 500 * 0x1000, 1));
    assert_eq!(free_regions(&a).len(), 64);
    assert!(a.reserve(0x10_0000 + 990 * 0x1000, 10));
    assert!(a.reserve(0x10_0000, 1));
    assert!(a.reserve(0x10_0000 + 500 * 0x1000, 1));
}

#[test]
fn regions_that_start_at_pages_stay_at_pages() {
    let mut a = make_with_region(0x10_0000, 100);
    let at_pages = |a: &VirtualMemory| free_regions(a).iter().all(|r| r.0 % 0x1000 == 0);
    assert!(a.reserve(0x11_0000, 4));
    assert_eq!(free_regions(&a), vec![(0x10_0000, 16), (0x11_4000, 80)]);
    let va = a.alloc_pages(3).unwrap();
    assert!(va % 0x1000 == 0 && at_pages(&a));
    a.free_unused_allocation(va, 3);
    assert!(at_pages(&a));
    // A range that does not start at a page takes the pages that it touches.
    assert!(a.reserve(0x11_4800, 1));
    assert!(!at_pages(&a));
}
