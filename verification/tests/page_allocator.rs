use kfs::arch::x86::vmm::page_allocator::PageAllocator;

#[test]
fn fresh_allocator_has_all_memory_free() {
    let a = PageAllocator::new();
    assert_eq!(a.free_memory(), (4096, 0));
}

#[test]
fn allocate_takes_block_and_dealloc_returns_it() {
    let mut a = PageAllocator::new();
    let p = a.allocate(4096).unwrap();
    assert_eq!(p % 4096, 0);
    assert_eq!(a.free_memory(), (4095, 1020));
    a.dealloc(p, 4096);
    assert_eq!(a.free_memory(), (4096, 0));
}

#[test]
fn allocations_do_not_overlap() {
    let mut a = PageAllocator::new();
    let p = a.allocate(8192).unwrap();
    let q = a.allocate(8192).unwrap();
    assert_eq!(p % 8192, 0);
    assert_eq!(q % 8192, 0);
    assert!(p + 8192 <= q || q + 8192 <= p);
}

#[test]
fn alloc_at_reserves_exact_range_once() {
    let mut a = PageAllocator::new();
    assert_eq!(a.alloc_at(0x10_0000, 0x1000), Some(0x10_0000));
    assert_eq!(a.alloc_at(0x10_0000, 0x1000), None);
    a.dealloc(0x10_0000, 0x1000);
    assert_eq!(a.alloc_at(0x10_0000, 0x1000), Some(0x10_0000));
}

#[test]
fn coalesce_rebuilds_large_blocks() {
    let mut a = PageAllocator::new();
    let p = a.allocate(4096).unwrap();
    a.dealloc(p, 4096);
    a.coalesce();
    let big = a.allocate(0x8000_0000);
    assert!(big.is_some());
}

#[test]
fn allocate_hands_out_the_head_of_the_lowest_listed_order() {
    let mut a = PageAllocator::new();
    assert_eq!(a.allocate(0x3000), Some(0));
    assert_eq!(a.allocate(0x1000), Some(0x4000));
    assert_eq!(a.allocate(0x1000), Some(0x5000));
    assert_eq!(a.allocate(0x2000), Some(0x6000));
}

#[test]
fn taken_pages_are_no_longer_free() {
    let mut a = PageAllocator::new();
    assert!(a.is_free_page(0));
    assert!(a.is_free_page(0xF_FFFF));
    assert!(!a.is_free_page(0x10_0000));
    let p = a.allocate(0x2000).unwrap();
    assert!(!a.is_free_page(p / 4096));
    assert!(!a.is_free_page(p / 4096 + 1));
    assert!(a.is_free_page(p / 4096 + 2));
    a.dealloc(p, 0x2000);
    assert!(a.is_free_page(p / 4096));
}

#[test]
fn alloc_at_refuses_a_range_no_block_holds() {
    let mut a = PageAllocator::new();
    assert_eq!(a.alloc_at(0x7FFF_F001, 0x7FFF_FFFF), None);
    assert_eq!(a.free_memory(), (4096, 0));
}
