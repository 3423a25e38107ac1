//! Page faults of user processes: a fault inside one of the process's VMAs
//! is served by mapping a fresh page (filled from the binary or zeroed);
//! any other fault ends the process.
use vstd::prelude::*;
use crate::arch::x86::vmm::page::PAGE_SIZE;
use crate::arch::x86::vmm::process::VMA;
use crate::binary::Permissions;
use crate::arch::x86::vmm::addressspace::{Addressspace, mapped_into};
use crate::arch::x86::vmm::page_allocator::{
    PageAllocator, block_free, block_pages, alloc_order, pages_for, block_bytes, addr_index, lemma_block_bytes,
    lemma_pw_values,
};

verus! {

/// What to do next about a page fault.
#[derive(Clone, Copy, Debug, PartialEq, Eq, Structural)]
pub enum FaultStep {
    /// Try to back the page at `page` with a new frame for VMA `vma`.
    Allocate { vma: usize, page: usize },
    /// No VMA can serve the fault: the process is ended.
    Kill,
}

/// Whether VMA `v` contains address `addr`.
pub open spec fn vma_contains(v: VMA, addr: int) -> bool {
    v.start <= addr && v.start + v.size > addr
}

/// The VMAs from `k` on can be scanned without overflow.
pub open spec fn vmas_in_range(vmas: Seq<VMA>) -> bool {
    forall|i: int| 0 <= i < vmas.len() ==> (#[trigger] vmas[i]).start + vmas[i].size <= usize::MAX
}

/// The fault scan from VMA `k` on: the first VMA containing the address
/// decides unless it is read-only and the access was a write (then the
/// process is ended); a fault on a page that is not present is served by
/// that VMA, a fault on a present page moves on to the next VMA.
pub open spec fn fault_from(vmas: Seq<VMA>, addr: int, write: bool, present: bool, k: int) -> FaultStep
    decreases vmas.len() - k,
{
    if k < 0 || k >= vmas.len() {
        FaultStep::Kill
    } else if !vma_contains(vmas[k], addr) {
        fault_from(vmas, addr, write, present, k + 1)
    } else if write && vmas[k].permissions == Permissions::Read {
        FaultStep::Kill
    } else if !present {
        FaultStep::Allocate { vma: k as usize, page: (addr - addr % 4096) as usize }
    } else {
        fault_from(vmas, addr, write, present, k + 1)
    }
}

/// Decides a page fault at `addr` with error code `err_code` (bit 0: the
/// page was present, bit 1: the access was a write), scanning the VMAs
/// from index `from` on. The caller tries the allocation it asks for and,
/// if that fails, asks again from the next VMA.
pub fn page_fault(vmas: &[VMA], addr: usize, err_code: u32, from: usize) -> (r: FaultStep)
    requires
        vmas_in_range(vmas@),
    ensures
        r == fault_from(vmas@, addr as int, err_code & 2 != 0, err_code & 1 != 0, from as int),
{
    let present = err_code & 0b01 != 0;
    let write = err_code & 0b10 != 0;
    let mut k = from;
    while k < vmas.len()
        invariant
            vmas_in_range(vmas@),
            write == (err_code & 2 != 0),
            present == (err_code & 1 != 0),
            from <= k,
            fault_from(vmas@, addr as int, write, present, from as int) == fault_from(vmas@, addr as int, write, present, k as int),
        decreases vmas@.len() - k,
    {
        let vma = vmas[k];
        assert(vma == vmas@[k as int]);
        assert(vma.start + vma.size <= usize::MAX);
        let access_allowed = vma.start <= addr && vma.start + vma.size > addr;
        assert(access_allowed == vma_contains(vmas@[k as int], addr as int));
        if access_allowed {
            let read_only = match vma.permissions {
                Permissions::Read => true,
                Permissions::ReadWrite => false,
            };
            if write && read_only {
                assert(fault_from(vmas@, addr as int, write, present, k as int) == FaultStep::Kill);
                return FaultStep::Kill;
            }
            if !present {
                proof {
                    vstd::arithmetic::div_mod::lemma_fundamental_div_mod(addr as int, 4096);
                }
                return FaultStep::Allocate { vma: k, page: (addr / PAGE_SIZE) * PAGE_SIZE };
            }
        }
        k = k + 1;
    }
    FaultStep::Kill
}

/// Where the new page's contents come from: the binary's bytes at the same
/// distance from the VMA's file offset, or zeroes (`None`) for a VMA
/// without one.
pub fn fault_source(vma: &VMA, vaddr: usize) -> (r: Option<usize>)
    requires
        vma.start <= vaddr,
        vma.offset is Some ==> vma.offset.unwrap() + (vaddr - vma.start) <= usize::MAX,
    ensures
        r == (match vma.offset {
            Some(off) => Some((off + (vaddr - vma.start)) as usize),
            None => None,
        }),
{
    let diff = vaddr - vma.start;
    match vma.offset {
        Some(offset) => Some(offset + diff),
        None => None,
    }
}

/// A page fault that `fault_from` serves from VMA `k` on is served by a VMA
/// at or after `k` that contains the address, on the address's page.
proof fn lemma_fault_from(vmas: Seq<VMA>, addr: int, write: bool, present: bool, k: int)
    requires
        0 <= k,
        0 <= addr <= usize::MAX,
        vmas.len() <= usize::MAX,
    ensures
        fault_from(vmas, addr, write, present, k) matches FaultStep::Allocate { vma, page } ==> k <= vma < vmas.len()
            && vma_contains(vmas[vma as int], addr) && page == addr - addr % 4096,
    decreases vmas.len() - k,
{
    if k < vmas.len() {
        lemma_fault_from(vmas, addr, write, present, k + 1);
        assert(0 <= addr % 4096 < 4096);
        assert((k as usize) as int == k);
        assert(((addr - addr % 4096) as usize) as int == addr - addr % 4096);
    }
}

/// How a page fault ended.
#[derive(Clone, Copy, Debug, PartialEq, Eq, Structural)]
pub enum FaultOutcome {
    /// The page at `page` is now mapped, for VMA `vma`, on the new frame
    /// `frame`; the caller fills the frame (from the VMA's source, see
    /// `fault_source`, or with zeroes) before the process runs again.
    Mapped { vma: usize, page: usize, frame: usize },
    /// No VMA can serve the fault (or no frame is left): the process is ended.
    Kill,
}

/// Serves a page fault at `addr` with error code `err_code` in address space
/// `space` with VMAs `vmas`: the VMA that `page_fault` picks gets a frame
/// from `allocator`, mapped at the faulting page with the VMA's rights (the
/// page's table is kept at `table_paddr`). When no frame is left, the next
/// VMAs are tried, which fail the same way, and the process is ended.
pub fn serve_page_fault(
    space: &mut Addressspace,
    allocator: &mut PageAllocator,
    vmas: &[VMA],
    addr: usize,
    err_code: u32,
    table_paddr: usize,
) -> (r: FaultOutcome)
    requires
        old(space).wf(),
        old(allocator).wf(),
        vmas_in_range(vmas@),
        forall|i: int| 0 <= i < vmas@.len() ==> (#[trigger] vmas@[i]).start + vmas@[i].size <= 0xC000_0000,
    ensures
        final(space).wf(),
        final(allocator).wf(),
        match fault_from(vmas@, addr as int, err_code & 2 != 0, err_code & 1 != 0, 0) {
            FaultStep::Kill => r is Kill && *final(space) == *old(space) && final(allocator).free_pages() == old(allocator).free_pages(),
            FaultStep::Allocate { vma, page } => if block_free(old(allocator).free_pages(), 0) {
                r matches FaultOutcome::Mapped { vma: v, page: pg, frame } && v == vma && pg == page && frame as int % 0x1000
                    == 0 && old(allocator).free_pages().contains(frame as int / 0x1000) && final(allocator).free_pages()
                    == old(allocator).free_pages().remove(frame as int / 0x1000) && mapped_into(
                    *old(space),
                    *final(space),
                    page as int,
                    frame,
                    vmas@[vma as int].permissions,
                    table_paddr,
                )
            } else {
                r is Kill && *final(space) == *old(space) && final(allocator).free_pages() == old(allocator).free_pages()
            },
        },
{
    let ghost w = err_code & 2 != 0;
    let ghost p = err_code & 1 != 0;
    proof {
        lemma_pw_values();
        lemma_block_bytes(0);
        assert(pages_for(4096) == 1);
        assert(alloc_order(4096) == 0);
    }
    let mut from: usize = 0;
    assert(vmas@.len() == vmas.len());
    loop
        invariant
            space.wf(),
            allocator.wf(),
            *space == *old(space),
            allocator.free_pages() == old(allocator).free_pages(),
            vmas_in_range(vmas@),
            forall|i: int| 0 <= i < vmas@.len() ==> (#[trigger] vmas@[i]).start + vmas@[i].size <= 0xC000_0000,
            alloc_order(4096) == 0,
            block_bytes(0) == 4096,
            w == (err_code & 2 != 0),
            p == (err_code & 1 != 0),
            from <= vmas@.len(),
            vmas@.len() <= usize::MAX,
            from > 0 ==> !block_free(old(allocator).free_pages(), 0) && fault_from(vmas@, addr as int, w, p, 0) is Allocate,
        decreases vmas@.len() - from,
    {
        let step = page_fault(vmas, addr, err_code, from);
        proof {
            lemma_fault_from(vmas@, addr as int, w, p, from as int);
        }
        match step {
            FaultStep::Kill => {
                return FaultOutcome::Kill;
            },
            FaultStep::Allocate { vma, page } => {
                let got = allocator.allocate(0x1000);
                match got {
                    Some(frame) => {
                        proof {
                            assert(addr_index(frame as int, 0) == frame as int / 0x1000);
                            assert(block_pages(0, frame as int / 0x1000) =~= set![frame as int / 0x1000]);
                            assert(allocator.free_pages() =~= old(allocator).free_pages().remove(frame as int / 0x1000));
                            assert(page as int <= addr < 0xC000_0000);
                        }
                        space.map(page, frame, vmas[vma].permissions, table_paddr);
                        return FaultOutcome::Mapped { vma, page, frame };
                    },
                    None => {
                        from = vma + 1;
                    },
                }
            },
        }
    }
}

} // verus!
