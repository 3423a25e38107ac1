use kfs::arch::x86::vmm::init::{bytes_to_pages, init, mark_above_available, mark_reserved_regions, ReserveError};
use kfs::arch::x86::vmm::page_allocator::PageAllocator;
use kfs::boot::{multiboot_checksum, multiboot_flags, parse_mmap, MultibootFlag, MultibootMmapEntry};

fn entry(addr: u64, len: u64, ty: u32) -> MultibootMmapEntry {
    MultibootMmapEntry { size: 20, addr, len, ty }
}

fn encode(e: &MultibootMmapEntry) -> Vec<u8> {
    let mut v = Vec::new();
    v.extend_from_slice(&e.size.to_le_bytes());
    v.extend_from_slice(&e.addr.to_le_bytes());
    v.extend_from_slice(&e.len.to_le_bytes());
    v.extend_from_slice(&e.ty.to_le_bytes());
    v
}

#[test]
fn memory_map_is_decoded_entry_by_entry() {
    let a = entry(0, 0x9fc00, 1);
    let b = entry(0x10_0000, 0x7ee_0000, 1);
    let mut bytes = encode(&a);
    bytes.extend(encode(&b));
    assert_eq!(parse_mmap(&bytes), vec![a, b]);
    bytes.extend_from_slice(&[1, 2, 3]);
    assert_eq!(parse_mmap(&bytes), vec![a, b]);
    assert_eq!(parse_mmap(&[]), vec![]);
}

#[test]
fn memory_map_entries_can_be_longer() {
    let mut a = entry(0x1000, 0x2000, 2);
    a.size = 24;
    let mut bytes = encode(&a);
    bytes.extend_from_slice(&[0, 0, 0, 0]);
    let b = entry(0x5000, 0x1000, 1);
    bytes.extend(encode(&b));
    assert_eq!(parse_mmap(&bytes), vec![a, b]);
}

#[test]
fn multiboot_header_values() {
    assert_eq!(MultibootFlag::Syms.value(), 0x30);
    assert_eq!(MultibootFlag::Mem.bitor(MultibootFlag::Mmap), 0x41);
    assert_eq!(multiboot_flags(), 3);
    let c = multiboot_checksum(3);
    assert_eq!(0x1bad_b002usize.wrapping_add(3).wrapping_add(c), 0);
}

#[test]
fn pages_round_up() {
    assert_eq!(bytes_to_pages(0), 0);
    assert_eq!(bytes_to_pages(1), 1);
    assert_eq!(bytes_to_pages(4096), 1);
    assert_eq!(bytes_to_pages(4097), 2);
}

#[test]
fn reserved_regions_above_1mib_are_taken() {
    let mut a = PageAllocator::new();
    let entries = [entry(0, 0x9fc00, 1), entry(0x9fc00, 0x400, 2), entry(0x20_0000, 0x1800, 2)];
    assert_eq!(mark_reserved_regions(&mut a, &entries), Ok(()));
    assert_eq!(a.alloc_at(0x20_0000, 0x1000), None);
    assert_eq!(a.alloc_at(0x20_1000, 0x1000), None);
    assert_eq!(a.alloc_at(0x20_2000, 0x1000), Some(0x20_2000));
    assert_eq!(a.alloc_at(0x9_f000, 0x1000), Some(0x9_f000));
}

#[test]
fn overlapping_reserved_regions_fail() {
    let mut a = PageAllocator::new();
    let entries = [entry(0x20_0000, 0x2000, 2), entry(0x20_1000, 0x1000, 3)];
    assert_eq!(mark_reserved_regions(&mut a, &entries), Err(ReserveError::PageUnavailable));
}

#[test]
fn memory_above_the_available_ram_is_taken() {
    let mut a = PageAllocator::new();
    let entries = [entry(0, 0x9fc00, 1), entry(0x10_0000, 0x7f0_0000, 1)];
    mark_above_available(&mut a, &entries);
    assert_eq!(a.free_memory(), (128, 0));
    assert_eq!(a.alloc_at(0x800_0000, 0x1000), None);
}

#[test]
fn init_marks_both() {
    let mut a = PageAllocator::new();
    let entries = [entry(0, 0x9fc00, 1), entry(0x10_0000, 0x7f0_0000, 1), entry(0x40_0000, 0x10_0000, 2)];
    assert_eq!(init(&mut a, &entries), Ok(()));
    assert_eq!(a.free_memory(), (127, 0));
}
