//! Mapping pages into the kernel half: the kernel's page directory and the
//! 256 page tables behind its last quarter, which lie one after the other in
//! physical memory.
use vstd::prelude::*;
use crate::arch::x86::vmm::page::{PageDirectory, PageDirectoryEntry, PageTable, PageTableEntry, with_field, lemma_field_masks};
use crate::arch::x86::vmm::page_allocator::{PageAllocator, first_fit_at_from, block_pages, addr_index, pages_for};
use crate::arch::x86::vmm::init::bytes_to_pages;
use crate::boot::KERNEL_BASE;

verus! {

/// Number of page tables of the kernel half.
pub const KERNEL_TABLES: usize = 256;

/// Directory slot of the first kernel page table.
pub const KERNEL_TABLE_OFFSET: usize = 768;

/// The directory entry of a kernel page table at `table_paddr`: its frame,
/// writable, present.
pub open spec fn kernel_pde(table_paddr: int) -> PageDirectoryEntry {
    PageDirectoryEntry((((table_paddr / 0x1000) % 0x10_0000) * 0x1000 + 3) as u32)
}

/// The table entry of a kernel page at `paddr`: its frame, writable, present.
pub open spec fn kernel_pte(paddr: int) -> PageTableEntry {
    PageTableEntry((((paddr / 0x1000) % 0x10_0000) * 0x1000 + 3) as u32)
}

/// The virtual address entry `e` of kernel table `t` translates.
pub open spec fn kernel_vaddr(t: int, e: int) -> int {
    0xC000_0000 + t * 0x40_0000 + e * 0x1000
}

/// Physical address of kernel table `t`.
pub open spec fn kernel_table_paddr(tables_paddr: int, t: int) -> int {
    tables_paddr + t * 0x1000
}

/// Directory `new` is `old` with every slot from the one of `vaddr` to the
/// one of the last of `n` pages pointing at its kernel table.
pub open spec fn directory_mapped(
    new: Seq<PageDirectoryEntry>,
    old: Seq<PageDirectoryEntry>,
    tables_paddr: int,
    vaddr: int,
    n: int,
) -> bool {
    forall|d: int|
        0 <= d < 1024 ==> #[trigger] new[d] == (if n > 0 && vaddr / 0x40_0000 <= d <= (vaddr + (n - 1) * 0x1000)
            / 0x40_0000 {
            kernel_pde(kernel_table_paddr(tables_paddr, d - 768))
        } else {
            old[d]
        })
}

/// Tables `new` are `old` with the entry of every page of `vaddr ..
/// vaddr + n * 4096` pointing at the frame as far past `paddr` as the page
/// is past `vaddr`.
pub open spec fn tables_mapped(new: Seq<PageTable>, old: Seq<PageTable>, vaddr: int, paddr: int, n: int) -> bool {
    &&& new.len() == 256
    &&& forall|t: int| 0 <= t < 256 ==> (#[trigger] new[t]).0@.len() == 1024
    &&& forall|t: int, e: int|
        0 <= t < 256 && 0 <= e < 1024 ==> #[trigger] new[t].0@[e] == (if vaddr <= kernel_vaddr(t, e) < vaddr + n
            * 0x1000 {
            kernel_pte(paddr + (kernel_vaddr(t, e) - vaddr))
        } else {
            old[t].0@[e]
        })
}

/// Frame `x >> 12`, writable and present on a zero entry give the frame's
/// address plus 3.
proof fn lemma_kernel_entry_bits(x: usize, a: u32)
    requires
        a == (x >> 12) as u32,
    ensures
        with_field(with_field(with_field(0, 12, 20, a), 1, 1, 1), 0, 1, 1) == (((x / 0x1000) % 0x10_0000)
            * 0x1000 + 3) as u32,
{
    lemma_field_masks();
    let v1 = (0u32 & !(0xF_FFFFu32 << 12u32)) | ((a & 0xF_FFFFu32) << 12u32);
    let v2 = (v1 & !(1u32 << 1u32)) | ((1u32 & 1u32) << 1u32);
    let v3 = (v2 & !(1u32 << 0u32)) | ((1u32 & 1u32) << 0u32);
    assert(v3 == ((a & 0xF_FFFFu32) << 12u32) + 3) by (bit_vector)
        requires
            v1 == (0u32 & !(0xF_FFFFu32 << 12u32)) | ((a & 0xF_FFFFu32) << 12u32),
            v2 == (v1 & !(1u32 << 1u32)) | ((1u32 & 1u32) << 1u32),
            v3 == (v2 & !(1u32 << 0u32)) | ((1u32 & 1u32) << 0u32),
    ;
    assert((a & 0xF_FFFFu32) << 12u32 == (a & 0xF_FFFFu32) * 0x1000) by (bit_vector);
    let q = x >> 12usize;
    assert(q == x / 4096) by (bit_vector)
        requires
            q == x >> 12usize,
    ;
    assert(a == q as u32);
    assert(((q as u32) & 0xF_FFFFu32) == (q % 0x10_0000usize) as u32) by (bit_vector);
}

/// Builds the directory entry of a kernel page table at `table_paddr`.
fn kernel_directory_entry(table_paddr: usize) -> (r: PageDirectoryEntry)
    ensures
        r == kernel_pde(table_paddr as int),
{
    let mut pde = PageDirectoryEntry::empty();
    let a = (table_paddr >> 12) as u32;
    pde.set_address(a);
    pde.set_read_write(1);
    pde.set_present(1);
    proof {
        lemma_kernel_entry_bits(table_paddr, a);
    }
    pde
}

/// Builds the table entry of a kernel page at `paddr`.
fn kernel_table_entry(paddr: usize) -> (r: PageTableEntry)
    ensures
        r == kernel_pte(paddr as int),
{
    let mut pte = PageTableEntry::empty();
    let a = (paddr >> 12) as u32;
    pte.set_address(a);
    pte.set_read_write(1);
    pte.set_present(1);
    proof {
        lemma_kernel_entry_bits(paddr, a);
    }
    pte
}

/// One more page moves the directory slot by at most one.
proof fn lemma_next_slot(a: int)
    requires
        0 <= a,
    ensures
        a / 0x40_0000 <= (a + 0x1000) / 0x40_0000 <= a / 0x40_0000 + 1,
{
    vstd::arithmetic::div_mod::lemma_fundamental_div_mod(a, 0x40_0000);
    vstd::arithmetic::div_mod::lemma_fundamental_div_mod(a + 0x1000, 0x40_0000);
}

/// A page-aligned kernel address is entry `(va / 4096) % 1024` of table
/// `va / 4 MiB - 768`, and no other entry translates it.
proof fn lemma_kernel_slot(va: int, t: int, e: int)
    requires
        0xC000_0000 <= va < 0x1_0000_0000,
        va % 0x1000 == 0,
        0 <= t < 256,
        0 <= e < 1024,
    ensures
        kernel_vaddr(va / 0x40_0000 - 768, (va / 0x1000) % 1024) == va,
        kernel_vaddr(t, e) == va <==> (t == va / 0x40_0000 - 768 && e == (va / 0x1000) % 1024),
{
    let d = va / 0x40_0000;
    let q = va / 0x1000;
    vstd::arithmetic::div_mod::lemma_fundamental_div_mod(va, 0x1000);
    vstd::arithmetic::div_mod::lemma_fundamental_div_mod(q, 1024);
    vstd::arithmetic::div_mod::lemma_div_denominator(va, 0x1000, 1024);
    assert(va == d * 0x40_0000 + (q % 1024) * 0x1000);
    if kernel_vaddr(t, e) == va {
        let r = e * 0x1000;
        assert(va - 0xC000_0000 == t * 0x40_0000 + r);
        vstd::arithmetic::div_mod::lemma_fundamental_div_mod_converse(va, 0x40_0000, t + 768, r);
        vstd::arithmetic::div_mod::lemma_fundamental_div_mod_converse(va, 0x1000, (t + 768) * 1024 + e, 0);
        vstd::arithmetic::div_mod::lemma_fundamental_div_mod_converse(q, 1024, t + 768, e);
    }
}

/// Maps `pages` pages from `vaddr` in the kernel half to the frames from
/// `paddr`: for each page, its directory slot points (writable, present) at
/// its kernel table, found `tables_paddr` onwards, and its table entry at
/// its frame.
pub fn map_to(
    directory: &mut PageDirectory,
    tables: &mut Vec<PageTable>,
    tables_paddr: usize,
    vaddr: usize,
    paddr: usize,
    pages: usize,
)
    requires
        old(directory).0@.len() == 1024,
        old(tables)@.len() == 256,
        forall|t: int| 0 <= t < 256 ==> (#[trigger] old(tables)@[t]).0@.len() == 1024,
        vaddr % 0x1000 == 0,
        paddr % 0x1000 == 0,
        pages != 0,
        0xC000_0000 <= vaddr,
        vaddr + (pages - 1) * 0x1000 <= 0xFFFF_FFFF,
        paddr + (pages - 1) * 0x1000 <= 0xFFFF_FFFF,
        tables_paddr + 255 * 0x1000 <= usize::MAX,
    ensures
        final(directory).0@.len() == 1024,
        directory_mapped(final(directory).0@, old(directory).0@, tables_paddr as int, vaddr as int, pages as int),
        tables_mapped(final(tables)@, old(tables)@, vaddr as int, paddr as int, pages as int),
{
    let ghost dir0 = directory.0@;
    let ghost tab0 = tables@;
    let mut i: usize = 0;
    proof {
        assert(tables_mapped(tables@, tab0, vaddr as int, paddr as int, 0));
    }
    while i < pages
        invariant
            i <= pages,
            dir0.len() == 1024,
            tab0.len() == 256,
            forall|t: int| 0 <= t < 256 ==> (#[trigger] tab0[t]).0@.len() == 1024,
            vaddr % 0x1000 == 0,
            paddr % 0x1000 == 0,
            0xC000_0000 <= vaddr,
            vaddr + (pages - 1) * 0x1000 <= 0xFFFF_FFFF,
            paddr + (pages - 1) * 0x1000 <= 0xFFFF_FFFF,
            tables_paddr + 255 * 0x1000 <= usize::MAX,
            directory.0@.len() == 1024,
            directory_mapped(directory.0@, dir0, tables_paddr as int, vaddr as int, i as int),
            tables_mapped(tables@, tab0, vaddr as int, paddr as int, i as int),
        decreases pages - i,
    {
        let va = vaddr + i * 0x1000;
        let pa = paddr + i * 0x1000;
        let d = va >> 22;
        let te = (va >> 12) & 0x3FF;
        proof {
            assert(d == va / 0x40_0000 && te == (va / 0x1000) % 1024) by (bit_vector)
                requires
                    d == va >> 22,
                    te == (va >> 12) & 0x3FF,
            ;
            assert(va % 0x1000 == 0) by {
                vstd::arithmetic::div_mod::lemma_mod_multiples_vanish(i as int, vaddr as int, 0x1000);
            }
        }
        let t = d - KERNEL_TABLE_OFFSET;
        let table_paddr = tables_paddr + t * 0x1000;
        let pde = kernel_directory_entry(table_paddr);
        let pte = kernel_table_entry(pa);
        directory.0.set(d, pde);
        let mut table = PageTable(Vec::new());
        std::mem::swap(&mut table, &mut tables[t]);
        table.0.set(te, pte);
        tables.set(t, table);
        proof {
            if i > 0 {
                lemma_next_slot(vaddr + (i - 1) * 0x1000);
                assert(vaddr + (i - 1) * 0x1000 + 0x1000 == va);
            }
            assert forall|t2: int, e2: int| 0 <= t2 < 256 && 0 <= e2 < 1024 implies #[trigger] tables@[t2].0@[e2]
                == (if vaddr <= kernel_vaddr(t2, e2) < vaddr + (i + 1) * 0x1000 {
                kernel_pte(paddr + (kernel_vaddr(t2, e2) - vaddr))
            } else {
                tab0[t2].0@[e2]
            }) by {
                lemma_kernel_slot(va as int, t2, e2);
                let v = kernel_vaddr(t2, e2);
                vstd::arithmetic::div_mod::lemma_fundamental_div_mod(v, 0x1000);
                if v < va && vaddr <= v {
                    assert(v < vaddr + i * 0x1000);
                }
            }
        }
        i = i + 1;
    }
}

/// The order of the block that holds the kernel's `size` bytes from physical
/// address 0.
pub open spec fn kernel_order(size: int) -> int {
    first_fit_at_from(0, size, 0).unwrap()
}

/// Maps the kernel image: the block holding its `kernel_end - KERNEL_BASE`
/// bytes from physical address 0 is taken from `allocator`, and the kernel
/// half from `KERNEL_BASE` is mapped onto it, page by page (see `map_to`).
/// That block must still be free.
pub fn map_kernel(
    allocator: &mut PageAllocator,
    directory: &mut PageDirectory,
    tables: &mut Vec<PageTable>,
    tables_paddr: usize,
    kernel_end: usize,
)
    requires
        old(allocator).wf(),
        KERNEL_BASE < kernel_end <= 0xFFFF_FFFF,
        first_fit_at_from(0, kernel_end - KERNEL_BASE, 0).is_some(),
        block_pages(kernel_order(kernel_end - KERNEL_BASE), 0).subset_of(old(allocator).free_pages()),
        old(directory).0@.len() == 1024,
        old(tables)@.len() == 256,
        forall|t: int| 0 <= t < 256 ==> (#[trigger] old(tables)@[t]).0@.len() == 1024,
        tables_paddr + 255 * 0x1000 <= usize::MAX,
    ensures
        final(allocator).wf(),
        final(allocator).free_pages() == old(allocator).free_pages().difference(
            block_pages(kernel_order(kernel_end - KERNEL_BASE), 0),
        ),
        final(directory).0@.len() == 1024,
        directory_mapped(
            final(directory).0@,
            old(directory).0@,
            tables_paddr as int,
            KERNEL_BASE as int,
            pages_for(kernel_end - KERNEL_BASE),
        ),
        tables_mapped(final(tables)@, old(tables)@, KERNEL_BASE as int, 0, pages_for(kernel_end - KERNEL_BASE)),
{
    let size = kernel_end - KERNEL_BASE;
    proof {
        lemma_fit_search_zero(size as int);
        let s = kernel_order(size as int);
        crate::arch::x86::vmm::page_allocator::lemma_first_fit_at_range(0, size as int, 0);
        assert(addr_index(0, s) == 0) by {
            crate::arch::x86::vmm::page_allocator::lemma_block_bytes(s);
        }
    }
    let got = allocator.alloc_at(0, size);
    proof {
        assert(got.is_some());
    }
    let pages = bytes_to_pages(size);
    map_to(directory, tables, tables_paddr, KERNEL_BASE, 0, pages);
}

/// The sums of the placed search from address 0 fit in a `usize`.
proof fn lemma_fit_search_zero(size: int)
    requires
        0 < size <= 0x4000_0000,
    ensures
        crate::arch::x86::vmm::page_allocator::fit_search_in_range(0, size),
{
    assert forall|o: int| 0 <= o < 20 implies size + #[trigger] (0int % crate::arch::x86::vmm::page_allocator::block_bytes(o))
        + crate::arch::x86::vmm::page::PAGE_SIZE <= usize::MAX by {
        crate::arch::x86::vmm::page_allocator::lemma_block_bytes(o);
    }
}

} // verus!
