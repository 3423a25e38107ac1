use kfs::arch::x86::vmm::addressspace::{Addressspace, MappedPage};
use kfs::arch::x86::vmm::demand_paging::{fault_source, page_fault, FaultStep};
use kfs::arch::x86::vmm::page::{PageDirectory, PageDirectoryEntry, PageTable, PageTableEntry, PdeField, PteField};
use kfs::arch::x86::vmm::process::VMA;
use kfs::binary::Permissions;

#[test]
fn table_entry_fields_round_trip() {
    let mut e = PageTableEntry::empty();
    e.set_address(0x12345);
    e.set_present(1);
    e.set_read_write(1);
    assert_eq!(e.address(), 0x12345);
    assert_eq!(e.present(), 1);
    assert_eq!(e.read_write(), 1);
    assert_eq!(e.user_supervisor(), 0);
    assert_eq!(e.bits(), 0x1234_5003);
    e.set_address(0x123456);
    assert_eq!(e.address(), 0x23456);
    e.set(PteField::Dirty, 1);
    assert_eq!(e.get(PteField::Dirty), 1);
    assert_eq!(e.present(), 1);
    e.set_present(0);
    assert_eq!(e.bits(), 0x2345_6042);
}

#[test]
fn directory_entry_fields_round_trip() {
    let mut e = PageDirectoryEntry::from_bits(0x83);
    assert_eq!(e.present(), 1);
    assert_eq!(e.get(PdeField::Ps), 1);
    e.set_user_supervisor(1);
    assert_eq!(e.bits(), 0x87);
    e.set(PdeField::Available4, 0x1f);
    assert_eq!(e.get(PdeField::Available4), 0xf);
    assert_eq!(e.address(), 0);
}

#[test]
fn empty_tables_have_1024_clear_entries() {
    let d = PageDirectory::empty();
    assert_eq!(d.0.len(), 1024);
    assert!(d.0.iter().all(|e| e.0 == 0));
    let t = PageTable::empty();
    assert_eq!(t.0.len(), 1024);
    assert!(t.0.iter().all(|e| e.0 == 0));
}

fn kernel_directory() -> PageDirectory {
    let mut d = PageDirectory::empty();
    d.0[768] = PageDirectoryEntry::from_bits(0x83);
    d
}

#[test]
fn map_writes_directory_and_table_entries() {
    let mut s = Addressspace::new(&kernel_directory());
    assert_eq!(s.page_directory.0[768].bits(), 0x83);
    s.map(0x40_1000, 0x20_0000, Permissions::ReadWrite, 0x30_0000);
    assert_eq!(s.page_directory.0[1].bits(), 0x30_0007);
    assert_eq!(s.page_tables[1].as_ref().unwrap().0[1].bits(), 0x20_0007);
    s.map(0x1000, 0x50_0000, Permissions::Read, 0x31_0000);
    assert_eq!(s.page_tables[0].as_ref().unwrap().0[1].bits(), 0x50_0005);
    assert_eq!(
        s.fork_pages(),
        vec![
            MappedPage { vaddr: 0x1000, paddr: 0x50_0000, permissions: Permissions::Read },
            MappedPage { vaddr: 0x40_1000, paddr: 0x20_0000, permissions: Permissions::ReadWrite },
        ]
    );
}

#[test]
fn unmap_drops_empty_tables() {
    let mut s = Addressspace::new(&kernel_directory());
    s.map(0x40_1000, 0x20_0000, Permissions::ReadWrite, 0x30_0000);
    s.map(0x40_2000, 0x21_0000, Permissions::ReadWrite, 0x30_0000);
    s.unmap(0x40_1000);
    assert!(s.page_tables[1].is_some());
    assert_eq!(s.page_directory.0[1].bits(), 0x30_0007);
    s.unmap(0x40_2000);
    assert!(s.page_tables[1].is_none());
    assert_eq!(s.page_directory.0[1].bits(), 0);
    s.unmap(0x80_0000);
    assert!(s.mapped_pages().is_empty());
}

#[test]
fn tables_are_created_and_removed_on_demand() {
    let mut s = Addressspace::new(&kernel_directory());
    assert_eq!(s.get_or_create(5).0.len(), 1024);
    assert!(s.page_tables[5].is_some());
    assert!(s.remove(5).is_some());
    assert!(s.remove(5).is_none());
    assert!(s.remove(2000).is_none());
}

#[test]
fn page_faults_are_served_inside_vmas_only() {
    let vmas = [
        VMA { start: 0x1000, offset: Some(0x10_0000), size: 0x1000, permissions: Permissions::Read },
        VMA { start: 0x2000, offset: None, size: 0x1000, permissions: Permissions::ReadWrite },
    ];
    assert_eq!(page_fault(&vmas, 0x1234, 0, 0), FaultStep::Allocate { vma: 0, page: 0x1000 });
    assert_eq!(page_fault(&vmas, 0x1234, 2, 0), FaultStep::Kill);
    assert_eq!(page_fault(&vmas, 0x2004, 3, 0), FaultStep::Kill);
    assert_eq!(page_fault(&vmas, 0x2004, 2, 0), FaultStep::Allocate { vma: 1, page: 0x2000 });
    assert_eq!(page_fault(&vmas, 0x1234, 0, 1), FaultStep::Kill);
    assert_eq!(page_fault(&vmas, 0x9000, 0, 0), FaultStep::Kill);
    assert_eq!(fault_source(&vmas[0], 0x1000), Some(0x10_0000));
    assert_eq!(fault_source(&vmas[1], 0x2000), None);
}
