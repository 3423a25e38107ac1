//! A process's address space: its page directory and the page tables of its
//! user half. Where a page table lives in physical memory is chosen by the
//! caller, who also loads the directory and flushes translations.
use vstd::prelude::*;
use crate::arch::x86::vmm::page::{
    PageDirectory, PageDirectoryEntry, PageTable, PageTableEntry, PAGE_DIRECTORY_SIZE, PAGE_TABLE_SIZE,
    field_of, field_mask, with_field, lemma_field_masks,
};
use crate::arch::x86::vmm::page_allocator::{PageAllocator, frame_numbers};
use crate::arch::x86::vmm::init::lemma_single_page;
use crate::binary::Permissions;

verus! {

/// First directory slot of the kernel half.
pub const KERNEL_DIRECTORY_START: usize = 768;

/// Directory slot of virtual address `vaddr`.
pub open spec fn pde_index(vaddr: int) -> int {
    vaddr / 0x40_0000
}

/// Table slot of virtual address `vaddr`.
pub open spec fn pte_index(vaddr: int) -> int {
    (vaddr / 0x1000) % 1024
}

/// The directory entry of a user page table at `table_paddr`: its frame,
/// user, writable, present.
pub open spec fn user_pde(table_paddr: usize) -> PageDirectoryEntry {
    PageDirectoryEntry((((table_paddr / 0x1000) % 0x10_0000) * 0x1000 + 7) as u32)
}

/// The table entry of a user page at `paddr`: its frame, user, writable as
/// the permissions say, present.
pub open spec fn user_pte(paddr: usize, permissions: Permissions) -> PageTableEntry {
    PageTableEntry(
        (((paddr / 0x1000) % 0x10_0000) * 0x1000 + 5 + (if permissions == Permissions::ReadWrite { 2int } else { 0 })) as u32,
    )
}

/// Whether a table entry is present.
pub open spec fn pte_present(e: PageTableEntry) -> bool {
    field_of(e.0, 0, 1) != 0
}

/// Builds the directory entry of a user page table at `table_paddr`.
fn user_directory_entry(table_paddr: usize) -> (r: PageDirectoryEntry)
    ensures
        r == user_pde(table_paddr),
{
    let mut pde = PageDirectoryEntry::empty();
    let a = (table_paddr >> 12) as u32;
    pde.set_address(a);
    pde.set_user_supervisor(1);
    pde.set_read_write(1);
    pde.set_present(1);
    proof {
        lemma_entry_bits(table_paddr, a, 1);
    }
    pde
}

/// Builds the table entry of a user page at `paddr`.
fn user_table_entry(paddr: usize, permissions: Permissions) -> (r: PageTableEntry)
    ensures
        r == user_pte(paddr, permissions),
{
    let mut pte = PageTableEntry::empty();
    let a = (paddr >> 12) as u32;
    pte.set_address(a);
    pte.set_user_supervisor(1);
    let w = permissions.bit();
    pte.set_read_write(w);
    pte.set_present(1);
    proof {
        lemma_entry_bits(paddr, a, w as u32);
    }
    pte
}

/// Setting frame `paddr >> 12`, user, read/write `w` and present on a zero
/// entry gives the frame's address plus the flag bits.
proof fn lemma_entry_bits(paddr: usize, a: u32, w: u32)
    requires
        a == (paddr >> 12) as u32,
        w <= 1,
    ensures
        with_field(
            with_field(
                with_field(
                    with_field(0, 12, 20, a),
                    2,
                    1,
                    1,
                ),
                1,
                1,
                w,
            ),
            0,
            1,
            1,
        ) == (((paddr / 0x1000) % 0x10_0000) * 0x1000 + 5 + 2 * w) as u32,
{
    lemma_field_masks();
    let v1 = (0u32 & !(0xF_FFFFu32 << 12u32)) | ((a & 0xF_FFFFu32) << 12u32);
    let v2 = (v1 & !(1u32 << 2u32)) | ((1u32 & 1u32) << 2u32);
    let v3 = (v2 & !(1u32 << 1u32)) | ((w & 1u32) << 1u32);
    let v4 = (v3 & !(1u32 << 0u32)) | ((1u32 & 1u32) << 0u32);
    assert(v4 == ((a & 0xF_FFFFu32) << 12u32) + 5 + 2 * w) by (bit_vector)
        requires
            w <= 1,
            v1 == (0u32 & !(0xF_FFFFu32 << 12u32)) | ((a & 0xF_FFFFu32) << 12u32),
            v2 == (v1 & !(1u32 << 2u32)) | ((1u32 & 1u32) << 2u32),
            v3 == (v2 & !(1u32 << 1u32)) | ((w & 1u32) << 1u32),
            v4 == (v3 & !(1u32 << 0u32)) | ((1u32 & 1u32) << 0u32),
    ;
    assert((a & 0xF_FFFFu32) << 12u32 == (a & 0xF_FFFFu32) * 0x1000) by (bit_vector);
    let q = paddr >> 12usize;
    assert(q == paddr / 4096) by (bit_vector)
        requires
            q == paddr >> 12usize,
    ;
    assert(a == q as u32);
    assert(((q as u32) & 0xF_FFFFu32) == (q % 0x10_0000usize) as u32) by (bit_vector);
    assert((a & 0xF_FFFFu32) as int == (paddr as int / 0x1000) % 0x10_0000);
}

/// An address space: a directory of 1024 entries and, for each directory
/// slot, the page table the address space owns there (if any).
pub struct Addressspace {
    pub page_directory: PageDirectory,
    pub page_tables: Vec<Option<PageTable>>,
}

impl Addressspace {
    /// 1024 directory entries, 1024 table slots, every table of 1024 entries.
    pub open spec fn wf(&self) -> bool {
        &&& self.page_directory.0@.len() == 1024
        &&& self.page_tables@.len() == 1024
        &&& forall|i: int| 0 <= i < 1024 && (#[trigger] self.page_tables@[i]) is Some ==> (self.page_tables@[i]->0).0@.len() == 1024
    }

    /// Whether the address space is well formed (see `wf`).
    pub fn check_wf(&self) -> (r: bool)
        ensures
            r == self.wf(),
    {
        if self.page_directory.0.len() != PAGE_DIRECTORY_SIZE || self.page_tables.len() != PAGE_DIRECTORY_SIZE {
            return false;
        }
        let mut i: usize = 0;
        while i < PAGE_DIRECTORY_SIZE
            invariant
                i <= 1024,
                self.page_directory.0@.len() == 1024,
                self.page_tables@.len() == 1024,
                forall|k: int| 0 <= k < i && (#[trigger] self.page_tables@[k]) is Some ==> (self.page_tables@[k]->0).0@.len() == 1024,
            decreases 1024 - i,
        {
            match &self.page_tables[i] {
                Some(t) => {
                    if t.0.len() != PAGE_TABLE_SIZE {
                        return false;
                    }
                },
                None => {},
            }
            i = i + 1;
        }
        true
    }

    /// A fresh address space: the kernel's directory entries, no tables of its own.
    pub fn new(kernel_directory: &PageDirectory) -> (r: Self)
        requires
            kernel_directory.0@.len() == 1024,
        ensures
            r.wf(),
            r.page_directory.0@ == kernel_directory.0@,
            forall|i: int| 0 <= i < 1024 ==> (#[trigger] r.page_tables@[i]) is None,
    {
        let mut pd: Vec<PageDirectoryEntry> = Vec::new();
        let mut i: usize = 0;
        while i < PAGE_DIRECTORY_SIZE
            invariant
                i <= 1024,
                kernel_directory.0@.len() == 1024,
                pd@ == kernel_directory.0@.subrange(0, i as int),
            decreases 1024 - i,
        {
            pd.push(kernel_directory.0[i]);
            i = i + 1;
        }
        let mut tables: Vec<Option<PageTable>> = Vec::new();
        while tables.len() < PAGE_DIRECTORY_SIZE
            invariant
                tables@.len() <= 1024,
                forall|i: int| 0 <= i < tables@.len() ==> (#[trigger] tables@[i]) is None,
            decreases 1024 - tables@.len(),
        {
            tables.push(None);
        }
        Self { page_directory: PageDirectory(pd), page_tables: tables }
    }

    /// The page table for directory slot `pde_idx`, created empty if there is none.
    pub fn get_or_create(&mut self, pde_idx: u16) -> (r: &mut PageTable)
        requires
            old(self).wf(),
            pde_idx < 1024,
        ensures
            old(self).page_tables@[pde_idx as int] is Some ==> *r == old(self).page_tables@[pde_idx as int]->0,
            old(self).page_tables@[pde_idx as int] is None ==> r.0@ == Seq::new(1024, |i: int| PageTableEntry(0)),
            final(r).0@.len() == r.0@.len() ==> final(self).wf(),
            final(self).page_directory == old(self).page_directory,
            final(self).page_tables@ == old(self).page_tables@.update(pde_idx as int, Some(*final(r))),
    {
        let i = pde_idx as usize;
        if self.page_tables[i].is_none() {
            self.page_tables.set(i, Some(PageTable::empty()));
        }
        match &mut self.page_tables[i] {
            Some(t) => t,
            None => vstd::pervasive::unreached(),
        }
    }

    /// Takes the page table of directory slot `pde_idx` out of the address space.
    pub fn remove(&mut self, pde_idx: u16) -> (r: Option<PageTable>)
        requires
            old(self).wf(),
        ensures
            final(self).wf(),
            final(self).page_directory == old(self).page_directory,
            (pde_idx as int) < 1024 ==> r == old(self).page_tables@[pde_idx as int]
                && final(self).page_tables@ == old(self).page_tables@.update(pde_idx as int, None),
            (pde_idx as int) >= 1024 ==> r is None && final(self).page_tables@ == old(self).page_tables@,
    {
        if pde_idx as usize >= PAGE_DIRECTORY_SIZE {
            return None;
        }
        let mut slot: Option<PageTable> = None;
        std::mem::swap(&mut slot, &mut self.page_tables[pde_idx as usize]);
        slot
    }
}

/// The entries of the table at directory slot `p`, or an empty table if
/// there is none.
pub open spec fn table_or_empty(s: Addressspace, p: int) -> Seq<PageTableEntry> {
    match s.page_tables@[p] {
        Some(t) => t.0@,
        None => Seq::new(1024, |i: int| PageTableEntry(0)),
    }
}

/// A mapped page: where it is seen, the frame behind it, and its rights.
#[derive(Clone, Copy, Debug, PartialEq, Eq, Structural)]
pub struct MappedPage {
    pub vaddr: usize,
    pub paddr: usize,
    pub permissions: Permissions,
}

/// Whether the table at directory slot `p` has a present entry at `t`.
pub open spec fn present_at(s: Addressspace, p: int, t: int) -> bool {
    0 <= t < 1024 && (s.page_tables@[p] matches Some(tb) && pte_present(tb.0@[t]))
}

/// The page described by entry `t` of the table at directory slot `p`.
pub open spec fn page_at(s: Addressspace, p: int, t: int) -> MappedPage {
    let e = (s.page_tables@[p]->0).0@[t];
    MappedPage {
        vaddr: (p * 0x40_0000 + t * 0x1000) as usize,
        paddr: (field_of(e.0, 12, 20) * 0x1000) as usize,
        permissions: if field_of(e.0, 1, 1) == 0 { Permissions::Read } else { Permissions::ReadWrite },
    }
}

/// The present pages from flat slot `k` (directory slot `k / 1024`, table
/// slot `k % 1024`) up to flat slot `limit`, in address order.
pub open spec fn pages_from(s: Addressspace, k: int, limit: int) -> Seq<MappedPage>
    decreases limit - k,
{
    if k < 0 || k >= limit {
        Seq::empty()
    } else {
        (if present_at(s, k / 1024, k % 1024) { seq![page_at(s, k / 1024, k % 1024)] } else { Seq::empty() })
            + pages_from(s, k + 1, limit)
    }
}

/// The table of `vaddr` with its entry cleared.
pub open spec fn unmapped_table(s: Addressspace, vaddr: int) -> Seq<PageTableEntry> {
    (s.page_tables@[pde_index(vaddr)]->0).0@.update(pte_index(vaddr), PageTableEntry(0))
}

/// Whether clearing the entry of `vaddr` leaves its table without a present entry.
pub open spec fn table_cleared(s: Addressspace, vaddr: int) -> bool {
    forall|i: int| 0 <= i < 1024 ==> !pte_present(#[trigger] unmapped_table(s, vaddr)[i])
}

/// `s1` is `s0` with the page at `vaddr` mapped to the frame at `paddr`:
/// the directory slot of `vaddr` points at `table_paddr`, its table (created
/// empty if there was none) has the page's entry set, and every other table
/// is unchanged.
pub open spec fn mapped_into(
    s0: Addressspace,
    s1: Addressspace,
    vaddr: int,
    paddr: usize,
    permissions: Permissions,
    table_paddr: usize,
) -> bool {
    let p = pde_index(vaddr);
    let t = pte_index(vaddr);
    &&& s1.page_directory.0@ == s0.page_directory.0@.update(p, user_pde(table_paddr))
    &&& s1.page_tables@[p] is Some
    &&& (s1.page_tables@[p]->0).0@ == table_or_empty(s0, p).update(t, user_pte(paddr, permissions))
    &&& forall|i: int| 0 <= i < 1024 && i != p ==> #[trigger] s1.page_tables@[i] == s0.page_tables@[i]
}

/// `s1` is `s0` with the page at `vaddr` unmapped: nothing changes where
/// there is no table; otherwise the page's entry is cleared, and a table
/// left without a present entry is dropped with its directory entry.
pub open spec fn unmapped_from(s0: Addressspace, s1: Addressspace, vaddr: int) -> bool {
    let p = pde_index(vaddr);
    &&& s0.page_tables@[p] is None ==> s1 == s0
    &&& forall|i: int| 0 <= i < 1024 && i != p ==> #[trigger] s1.page_tables@[i] == s0.page_tables@[i]
    &&& s0.page_tables@[p] is Some && table_cleared(s0, vaddr) ==> {
        &&& s1.page_tables@[p] is None
        &&& s1.page_directory.0@ == s0.page_directory.0@.update(p, PageDirectoryEntry(0))
    }
    &&& s0.page_tables@[p] is Some && !table_cleared(s0, vaddr) ==> {
        &&& s1.page_tables@[p] is Some
        &&& (s1.page_tables@[p]->0).0@ == unmapped_table(s0, vaddr)
        &&& s1.page_directory.0@ == s0.page_directory.0@
    }
}

/// A directory slot without a table contributes no page.
proof fn lemma_skip_table(s: Addressspace, p: int, t: int, limit: int)
    requires
        0 <= p,
        0 <= t <= 1024,
        (p + 1) * 1024 <= limit,
        s.page_tables@[p] is None,
    ensures
        pages_from(s, p * 1024 + t, limit) == pages_from(s, (p + 1) * 1024, limit),
    decreases 1024 - t,
{
    if t < 1024 {
        let k = p * 1024 + t;
        assert(k / 1024 == p && k % 1024 == t) by {
            vstd::arithmetic::div_mod::lemma_fundamental_div_mod_converse(k, 1024, p, t);
        }
        lemma_skip_table(s, p, t + 1, limit);
        assert(p * 1024 + t + 1 == p * 1024 + (t + 1));
    } else {
        assert(p * 1024 + t == (p + 1) * 1024);
    }
}

impl Addressspace {
    /// Maps the page at `vaddr` to the frame at `paddr` with `permissions`,
    /// for the user. The table for `vaddr` is created if needed, and its
    /// directory entry points at `table_paddr`, where the caller keeps it.
    pub fn map(&mut self, vaddr: usize, paddr: usize, permissions: Permissions, table_paddr: usize)
        requires
            old(self).wf(),
            pde_index(vaddr as int) < 768,
        ensures
            final(self).wf(),
            mapped_into(*old(self), *final(self), vaddr as int, paddr, permissions, table_paddr),
    {
        let pde_idx = vaddr >> 22;
        let pt_idx = (vaddr >> 12) & 0x3FF;
        proof {
            assert(pde_idx == vaddr / 0x40_0000 && pt_idx == (vaddr / 0x1000) % 1024) by (bit_vector)
                requires
                    pde_idx == vaddr >> 22,
                    pt_idx == (vaddr >> 12) & 0x3FF,
            ;
        }
        let pte = user_table_entry(paddr, permissions);
        {
            let pt = self.get_or_create(pde_idx as u16);
            pt.0.set(pt_idx, pte);
        }
        self.page_directory.0.set(pde_idx, user_directory_entry(table_paddr));
    }

    /// Unmaps the page at `vaddr`; a table left without a present entry is
    /// dropped and its directory entry cleared.
    pub fn unmap(&mut self, vaddr: usize)
        requires
            old(self).wf(),
            (vaddr as int) < 0x1_0000_0000,
        ensures
            final(self).wf(),
            unmapped_from(*old(self), *final(self), vaddr as int),
    {
        let pde = vaddr >> 22;
        let pt_idx = (vaddr >> 12) & 0x3FF;
        proof {
            assert(pde == vaddr / 0x40_0000 && pt_idx == (vaddr / 0x1000) % 1024 && pde < 1024) by (bit_vector)
                requires
                    pde == vaddr >> 22,
                    pt_idx == (vaddr >> 12) & 0x3FF,
                    vaddr < 0x1_0000_0000,
            ;
        }
        if self.page_tables[pde].is_none() {
            return;
        }
        let empty_now = {
            let pt = self.get_or_create(pde as u16);
            pt.0.set(pt_idx, PageTableEntry::empty());
            table_is_empty(pt)
        };
        proof {
            let cur = (self.page_tables@[pde as int]->0).0@;
            assert(cur =~= unmapped_table(*old(self), vaddr as int));
            if table_cleared(*old(self), vaddr as int) {
                assert forall|i: int| 0 <= i < 1024 implies !pte_present(#[trigger] cur[i]) by {
                    assert(cur[i] == unmapped_table(*old(self), vaddr as int)[i]);
                }
            }
        }
        if empty_now {
            self.page_directory.0.set(pde, PageDirectoryEntry::empty());
            let _ = self.remove(pde as u16);
        }
    }

    /// The present pages of the user half, in address order: what a fork copies.
    pub fn fork_pages(&self) -> (r: Vec<MappedPage>)
        requires
            self.wf(),
        ensures
            r@ == pages_from(*self, 0, 0xC_0000),
    {
        self.pages_below(768)
    }

    /// Every present page, in address order: the frames given back when the
    /// address space goes away.
    pub fn mapped_pages(&self) -> (r: Vec<MappedPage>)
        requires
            self.wf(),
        ensures
            r@ == pages_from(*self, 0, 0x10_0000),
    {
        self.pages_below(1024)
    }

    fn pages_below(&self, slots: usize) -> (r: Vec<MappedPage>)
        requires
            self.wf(),
            slots <= 1024,
        ensures
            r@ == pages_from(*self, 0, slots as int * 1024),
    {
        let ghost limit = slots as int * 1024;
        let mut out: Vec<MappedPage> = Vec::new();
        let mut p: usize = 0;
        while p < slots
            invariant
                self.wf(),
                slots <= 1024,
                limit == slots as int * 1024,
                p <= slots,
                pages_from(*self, 0, limit) == out@ + pages_from(*self, p * 1024, limit),
            decreases slots - p,
        {
            match &self.page_tables[p] {
                None => {
                    proof {
                        lemma_skip_table(*self, p as int, 0, limit);
                    }
                },
                Some(table) => {
                    assert(self.page_tables@[p as int] is Some);
                    assert(*table == self.page_tables@[p as int]->0);
                    let mut t: usize = 0;
                    while t < PAGE_TABLE_SIZE
                        invariant
                            self.wf(),
                            slots <= 1024,
                            limit == slots as int * 1024,
                            p < slots,
                            t <= 1024,
                            self.page_tables@[p as int] is Some,
                            *table == self.page_tables@[p as int]->0,
                            table.0@.len() == 1024,
                            pages_from(*self, 0, limit) == out@ + pages_from(*self, p * 1024 + t, limit),
                        decreases 1024 - t,
                    {
                        let e = table.0[t];
                        let ghost k = p * 1024 + t;
                        let ghost out0 = out@;
                        proof {
                            assert(k / 1024 == p && k % 1024 == t) by {
                                vstd::arithmetic::div_mod::lemma_fundamental_div_mod_converse(k, 1024, p as int, t as int);
                            }
                            assert(k < limit);
                        }
                        proof {
                            assert(pages_from(*self, k, limit) == (if present_at(*self, p as int, t as int) {
                                seq![page_at(*self, p as int, t as int)]
                            } else {
                                Seq::<MappedPage>::empty()
                            }) + pages_from(*self, k + 1, limit));
                            assert(e == table.0@[t as int]);
                        }
                        let pres = e.present();
                        proof {
                            assert((pres != 0) == present_at(*self, p as int, t as int));
                        }
                        if pres != 0 {
                            let a = e.address();
                            let w = e.read_write();
                            let vaddr = (p << 22) | (t << 12);
                            proof {
                                assert(vaddr == p * 0x40_0000 + t * 0x1000) by (bit_vector)
                                    requires
                                        vaddr == (p << 22) | (t << 12),
                                        p < 1024,
                                        t < 1024,
                                ;
                                let v = e.0;
                                lemma_field_masks();
                                assert(a < 0x10_0000) by (bit_vector)
                                    requires
                                        a == (v >> 12u32) & 0xF_FFFFu32,
                                ;
                            }
                            let page = MappedPage {
                                vaddr,
                                paddr: (a as usize) << 12,
                                permissions: if w == 0 { Permissions::Read } else { Permissions::ReadWrite },
                            };
                            proof {
                                let au = a as usize;
                                assert(au << 12usize == au * 0x1000) by (bit_vector)
                                    requires
                                        au < 0x10_0000,
                                ;
                                assert(page == page_at(*self, p as int, t as int));
                            }
                            out.push(page);
                        }
                        proof {
                            assert(p * 1024 + t + 1 == p * 1024 + (t + 1));
                            if present_at(*self, p as int, t as int) {
                                assert(out@ == out0.push(page_at(*self, p as int, t as int)));
                                assert(out0 + pages_from(*self, k, limit) =~= out@ + pages_from(*self, k + 1, limit));
                            } else {
                                assert(out@ == out0);
                                assert(out0 + pages_from(*self, k, limit) =~= out@ + pages_from(*self, k + 1, limit));
                            }
                        }
                        t = t + 1;
                    }
                    proof {
                        assert(p * 1024 + 1024 == (p + 1) * 1024);
                    }
                },
            }
            p = p + 1;
        }
        out
    }
}

/// Whether no entry of `table` is present.
fn table_is_empty(table: &PageTable) -> (r: bool)
    requires
        table.0@.len() == 1024,
    ensures
        r == forall|i: int| 0 <= i < 1024 ==> !pte_present(#[trigger] table.0@[i]),
{
    let mut i: usize = 0;
    while i < PAGE_TABLE_SIZE
        invariant
            i <= 1024,
            table.0@.len() == 1024,
            forall|k: int| 0 <= k < i ==> !pte_present(#[trigger] table.0@[k]),
        decreases 1024 - i,
    {
        if table.0[i].present() != 0 {
            return false;
        }
        i = i + 1;
    }
    true
}

/// The frame numbers of `pages`, in order.
pub open spec fn frames_of(pages: Seq<MappedPage>) -> Seq<int> {
    pages.map_values(|pg: MappedPage| pg.paddr as int / 0x1000)
}

/// `s` is well formed and the frames of its pages are distinct and in use
/// in `allocator`: they can be given back one by one.
pub open spec fn releasable(s: Addressspace, allocator: PageAllocator) -> bool {
    &&& s.wf()
    &&& frames_of(pages_from(s, 0, 0x10_0000)).no_duplicates()
    &&& forall|k: int|
        0 <= k < pages_from(s, 0, 0x10_0000).len() ==> !allocator.free_pages().contains(
            #[trigger] frames_of(pages_from(s, 0, 0x10_0000))[k],
        )
}

/// The frame field of an entry is below 2^20.
proof fn lemma_frame_field_bound(v: u32)
    ensures
        field_of(v, 12, 20) < 0x10_0000,
{
    lemma_field_masks();
    assert((v >> 12u32) & 0xF_FFFFu32 < 0x10_0000u32) by (bit_vector);
}

/// Every page listed from flat slot `k` on lies on a page-aligned frame
/// below 4 GiB.
proof fn lemma_pages_frames(s: Addressspace, k: int, limit: int)
    requires
        s.wf(),
        0 <= k,
        limit <= 0x10_0000,
    ensures
        forall|j: int|
            0 <= j < pages_from(s, k, limit).len() ==> (#[trigger] pages_from(s, k, limit)[j]).paddr as int % 0x1000 == 0
                && (pages_from(s, k, limit)[j].paddr as int) < 0x1_0000_0000,
    decreases limit - k,
{
    if k < limit {
        lemma_pages_frames(s, k + 1, limit);
        let p = k / 1024;
        let t = k % 1024;
        if present_at(s, p, t) {
            let e = (s.page_tables@[p]->0).0@[t];
            lemma_frame_field_bound(e.0);
            let f = field_of(e.0, 12, 20) as int;
            vstd::arithmetic::div_mod::lemma_mod_multiples_basic(f, 0x1000);
            assert(page_at(s, p, t).paddr as int == f * 0x1000);
            let head = seq![page_at(s, p, t)];
            assert(pages_from(s, k, limit) == head + pages_from(s, k + 1, limit));
            assert forall|j: int| 0 <= j < pages_from(s, k, limit).len() implies (#[trigger] pages_from(s, k, limit)[j]).paddr as int
                % 0x1000 == 0 && (pages_from(s, k, limit)[j].paddr as int) < 0x1_0000_0000 by {
                if j > 0 {
                    assert(pages_from(s, k, limit)[j] == pages_from(s, k + 1, limit)[j - 1]);
                }
            }
        } else {
            assert(pages_from(s, k, limit) =~= pages_from(s, k + 1, limit));
        }
    }
}

impl Addressspace {
    /// Gives the frame of every present page back to `allocator`, one page
    /// at a time, as the address space goes away. The frames must be
    /// distinct and in use.
    pub fn release(&self, allocator: &mut PageAllocator)
        requires
            old(allocator).wf(),
            releasable(*self, *old(allocator)),
        ensures
            final(allocator).wf(),
            final(allocator).free_pages() == old(allocator).free_pages().union(
                frames_of(pages_from(*self, 0, 0x10_0000)).to_set(),
            ),
    {
        let pages = self.mapped_pages();
        let ghost frames = frames_of(pages@);
        proof {
            lemma_pages_frames(*self, 0, 0x10_0000);
        }
        let mut i: usize = 0;
        while i < pages.len()
            invariant
                allocator.wf(),
                i <= pages@.len(),
                frames == frames_of(pages@),
                frames.no_duplicates(),
                forall|k: int| 0 <= k < pages@.len() ==> !old(allocator).free_pages().contains(#[trigger] frames[k]),
                forall|j: int|
                    0 <= j < pages@.len() ==> (#[trigger] pages@[j]).paddr as int % 0x1000 == 0 && (pages@[j].paddr as int)
                        < 0x1_0000_0000,
                allocator.free_pages() == old(allocator).free_pages().union(frames.subrange(0, i as int).to_set()),
            decreases pages@.len() - i,
        {
            let paddr = pages[i].paddr;
            let ghost fr = frames[i as int];
            proof {
                lemma_single_page(paddr as int);
                assert(fr == paddr as int / 4096);
                assert(!frames.subrange(0, i as int).contains(fr)) by {
                    if frames.subrange(0, i as int).contains(fr) {
                        let k = choose|k: int| 0 <= k < i && frames.subrange(0, i as int)[k] == fr;
                        assert(frames[k] == frames[i as int]);
                    }
                }
                assert(set![fr].disjoint(allocator.free_pages()));
            }
            allocator.dealloc(paddr, 0x1000);
            proof {
                assert(frames.subrange(0, i + 1).to_set() =~= frames.subrange(0, i as int).to_set().insert(fr)) by {
                    assert(frames.subrange(0, i + 1) =~= frames.subrange(0, i as int).push(fr));
                    frames.subrange(0, i as int).lemma_push_to_set_commute(fr);
                }
                assert(allocator.free_pages() =~= old(allocator).free_pages().union(frames.subrange(0, i + 1).to_set()));
            }
            i = i + 1;
        }
        proof {
            assert(frames.subrange(0, pages@.len() as int) =~= frames);
        }
    }
}

/// The frames (byte addresses) of `ps`, in order.
pub open spec fn page_frames(ps: Seq<MappedPage>) -> Seq<usize> {
    ps.map_values(|pg: MappedPage| pg.paddr)
}

/// `c`'s user pages lie on frames that were free in `free_before`, each
/// used once, and taking them left exactly `free_after`.
pub open spec fn fresh_frames(c: Addressspace, free_before: Set<int>, free_after: Set<int>) -> bool {
    let fr = frames_of(pages_from(c, 0, 0xC_0000));
    &&& fr.no_duplicates()
    &&& forall|k: int| 0 <= k < fr.len() ==> free_before.contains(#[trigger] fr[k])
    &&& free_after == free_before.difference(fr.to_set())
}

/// The pages of a fork lie on the given frames when these are page-aligned
/// and below 4 GiB.
pub proof fn lemma_forked_frames(ps: Seq<MappedPage>, f: Seq<usize>)
    requires
        ps.len() == f.len(),
        forall|k: int| 0 <= k < f.len() ==> (#[trigger] f[k]) as int % 0x1000 == 0 && (f[k] as int) < 0x1_0000_0000,
    ensures
        page_frames(forked(ps, f)) == f,
        frames_of(forked(ps, f)) == frame_numbers(f),
{
    assert forall|k: int| 0 <= k < f.len() implies (#[trigger] forked(ps, f)[k]).paddr == f[k] by {
        let a = f[k] as int;
        vstd::arithmetic::div_mod::lemma_fundamental_div_mod(a, 0x1000);
        assert(a / 0x1000 < 0x10_0000);
        vstd::arithmetic::div_mod::lemma_small_mod((a / 0x1000) as nat, 0x10_0000);
    }
    assert(page_frames(forked(ps, f)) =~= f);
    assert(frames_of(forked(ps, f)) =~= frame_numbers(f));
}

/// No frame of `s`'s pages is among the `free` pages.
pub open spec fn frames_in_use(s: Addressspace, free: Set<int>) -> bool {
    forall|k: int|
        0 <= k < frames_of(pages_from(s, 0, 0x10_0000)).len() ==> !free.contains(#[trigger] frames_of(pages_from(s, 0, 0x10_0000))[k])
}

/// No user frame of `child` is a frame of `parent`.
pub open spec fn frames_disjoint(child: Addressspace, parent: Addressspace) -> bool {
    forall|j: int, k: int|
        0 <= j < frames_of(pages_from(child, 0, 0xC_0000)).len() && 0 <= k < frames_of(pages_from(parent, 0, 0x10_0000)).len()
            ==> #[trigger] frames_of(pages_from(child, 0, 0xC_0000))[j] != #[trigger] frames_of(pages_from(parent, 0, 0x10_0000))[k]
}

/// A forked child's memory is separate from its parent's: when the
/// parent's frames are in use and the child's frames were free, no frame of
/// the child is a frame of the parent, and the parent's frames stay in use.
pub proof fn law_fork_separate(child: Addressspace, parent: Addressspace, free_before: Set<int>, free_after: Set<int>)
    requires
        frames_in_use(parent, free_before),
        fresh_frames(child, free_before, free_after),
    ensures
        frames_disjoint(child, parent),
        frames_in_use(parent, free_after),
{
    assert forall|j: int, k: int|
        0 <= j < frames_of(pages_from(child, 0, 0xC_0000)).len() && 0 <= k < frames_of(pages_from(parent, 0, 0x10_0000)).len()
            implies #[trigger] frames_of(pages_from(child, 0, 0xC_0000))[j] != #[trigger] frames_of(pages_from(parent, 0, 0x10_0000))[k] by {
        assert(free_before.contains(frames_of(pages_from(child, 0, 0xC_0000))[j]));
        assert(!free_before.contains(frames_of(pages_from(parent, 0, 0x10_0000))[k]));
    }
}

/// The page a user entry for frame `paddr` with `permissions` describes,
/// seen at `vaddr` rounded down to its page.
pub open spec fn user_page(vaddr: int, paddr: usize, permissions: Permissions) -> MappedPage {
    MappedPage {
        vaddr: (vaddr - vaddr % 0x1000) as usize,
        paddr: (((paddr / 0x1000) % 0x10_0000) * 0x1000) as usize,
        permissions,
    }
}

/// The fields of `f * 4096 + 5 + 2 * w`: present, writable `w`, frame `f`.
proof fn lemma_user_entry_fields(f: u32, w: u32)
    requires
        f < 0x10_0000,
        w <= 1,
    ensures
        field_of((f * 0x1000 + 5 + 2 * w) as u32, 0, 1) == 1,
        field_of((f * 0x1000 + 5 + 2 * w) as u32, 1, 1) == w,
        field_of((f * 0x1000 + 5 + 2 * w) as u32, 12, 20) == f,
{
    lemma_field_masks();
    let x = (f * 0x1000 + 5 + 2 * w) as u32;
    assert((x >> 0u32) & 1u32 == 1u32 && (x >> 1u32) & 1u32 == w && (x >> 12u32) & 0xF_FFFFu32 == f) by (bit_vector)
        requires
            f < 0x10_0000,
            w <= 1,
            x == (f * 0x1000 + 5 + 2 * w) as u32,
    ;
}

/// The page start of `v` is its directory slot's base plus its table slot's offset.
proof fn lemma_page_start(v: int)
    requires
        0 <= v,
    ensures
        pde_index(v) * 0x40_0000 + pte_index(v) * 0x1000 == v - v % 0x1000,
{
    let q = v / 0x1000;
    vstd::arithmetic::div_mod::lemma_fundamental_div_mod(v, 0x1000);
    vstd::arithmetic::div_mod::lemma_fundamental_div_mod(q, 1024);
    vstd::arithmetic::div_mod::lemma_div_denominator(v, 0x1000, 1024);
}

/// Mapping a page makes the address space translate it: after
/// `map(vaddr, paddr, permissions, _)` the entry of `vaddr` is present and
/// describes the page of `vaddr` on the frame of `paddr` with `permissions`;
/// every other entry translates as before.
pub proof fn law_map_translates(
    s0: Addressspace,
    s1: Addressspace,
    vaddr: usize,
    paddr: usize,
    permissions: Permissions,
    table_paddr: usize,
)
    requires
        s0.wf(),
        pde_index(vaddr as int) < 768,
        mapped_into(s0, s1, vaddr as int, paddr, permissions, table_paddr),
    ensures
        present_at(s1, pde_index(vaddr as int), pte_index(vaddr as int)),
        page_at(s1, pde_index(vaddr as int), pte_index(vaddr as int)) == user_page(vaddr as int, paddr, permissions),
        forall|p: int, t: int|
            0 <= p < 1024 && (p != pde_index(vaddr as int) || t != pte_index(vaddr as int)) ==> present_at(s1, p, t)
                == present_at(s0, p, t) && (present_at(s0, p, t) ==> #[trigger] page_at(s1, p, t) == page_at(s0, p, t)),
{
    let p0 = pde_index(vaddr as int);
    let t0 = pte_index(vaddr as int);
    let f = ((paddr / 0x1000) % 0x10_0000) as u32;
    let w: u32 = if permissions == Permissions::ReadWrite { 1 } else { 0 };
    lemma_user_entry_fields(f, w);
    assert(user_pte(paddr, permissions).0 == (f * 0x1000 + 5 + 2 * w) as u32);
    lemma_page_start(vaddr as int);
    assert(0 <= t0 < 1024);
    assert(s0.page_tables@[p0] is Some ==> (s0.page_tables@[p0]->0).0@.len() == 1024);
    assert(table_or_empty(s0, p0).len() == 1024);
    let e = (s1.page_tables@[p0]->0).0@[t0];
    assert(e == user_pte(paddr, permissions));
    assert(f as int == (paddr / 0x1000) % 0x10_0000);
    assert(field_of(e.0, 12, 20) == f);
    assert(present_at(s1, p0, t0));
    assert(page_at(s1, p0, t0).permissions == permissions);
    assert(page_at(s1, p0, t0).paddr == user_page(vaddr as int, paddr, permissions).paddr);
    assert(page_at(s1, p0, t0).vaddr == user_page(vaddr as int, paddr, permissions).vaddr);
    assert forall|p: int, t: int|
        0 <= p < 1024 && (p != p0 || t != t0) implies present_at(s1, p, t) == present_at(s0, p, t) && (present_at(s0, p, t)
            ==> #[trigger] page_at(s1, p, t) == page_at(s0, p, t)) by {
        if p == p0 && 0 <= t < 1024 {
            if s0.page_tables@[p] is None {
                lemma_field_masks();
            }
        }
    }
}

/// Unmapping a page stops the address space from translating it; every
/// other entry translates as before.
pub proof fn law_unmap_clears(s0: Addressspace, s1: Addressspace, vaddr: usize)
    requires
        s0.wf(),
        (vaddr as int) < 0x1_0000_0000,
        unmapped_from(s0, s1, vaddr as int),
    ensures
        !present_at(s1, pde_index(vaddr as int), pte_index(vaddr as int)),
        forall|p: int, t: int|
            0 <= p < 1024 && (p != pde_index(vaddr as int) || t != pte_index(vaddr as int)) ==> present_at(s1, p, t)
                == present_at(s0, p, t) && (present_at(s0, p, t) ==> #[trigger] page_at(s1, p, t) == page_at(s0, p, t)),
{
    let p0 = pde_index(vaddr as int);
    let t0 = pte_index(vaddr as int);
    lemma_field_masks();
    if s0.page_tables@[p0] is Some && table_cleared(s0, vaddr as int) {
        assert forall|p: int, t: int|
            0 <= p < 1024 && (p != p0 || t != t0) implies present_at(s1, p, t) == present_at(s0, p, t) && (present_at(
            s0,
            p,
            t,
        ) ==> #[trigger] page_at(s1, p, t) == page_at(s0, p, t)) by {
            if p == p0 && 0 <= t < 1024 {
                assert(unmapped_table(s0, vaddr as int)[t] == (s0.page_tables@[p0]->0).0@[t]);
                assert(!pte_present(unmapped_table(s0, vaddr as int)[t]));
            }
        }
    }
}

/// Whether flat slot `m` (directory slot `m / 1024`, table slot `m % 1024`)
/// holds a present page.
pub open spec fn present_slot(s: Addressspace, m: int) -> bool {
    present_at(s, m / 1024, m % 1024)
}

/// The page at flat slot `m`.
pub open spec fn page_slot(s: Addressspace, m: int) -> MappedPage {
    page_at(s, m / 1024, m % 1024)
}

/// The flat slot of a page.
pub open spec fn slot_of(pg: MappedPage) -> int {
    pg.vaddr as int / 0x1000
}

/// The pages of a fork: each page of `ps` at the same place with the same
/// rights, on the frame of the matching entry of `frames`.
pub open spec fn forked(ps: Seq<MappedPage>, frames: Seq<usize>) -> Seq<MappedPage> {
    Seq::new(ps.len(), |k: int| user_page(ps[k].vaddr as int, frames[k], ps[k].permissions))
}

/// `c` is the child a fork of `p` makes (see `Addressspace::fork`): its
/// user pages are those of `p` on the new frames, it has no table of its own
/// in the kernel half, and each directory slot points at the child's table
/// there (kept at `table_paddrs[p]`) or keeps the kernel's entry.
pub open spec fn forked_space(
    c: Addressspace,
    p: Addressspace,
    kernel_directory: Seq<PageDirectoryEntry>,
    frames: Seq<usize>,
    table_paddrs: Seq<usize>,
) -> bool {
    &&& pages_from(c, 0, 0xC_0000) == forked(pages_from(p, 0, 0xC_0000), frames)
    &&& forall|i: int| 768 <= i < 1024 ==> (#[trigger] c.page_tables@[i]) is None
    &&& forall|i: int|
        0 <= i < 1024 ==> #[trigger] c.page_directory.0@[i] == (if c.page_tables@[i] is Some {
            user_pde(table_paddrs[i])
        } else {
            kernel_directory[i]
        })
}

/// The pages listed from flat slot `k` on are present pages of their own
/// slots, page-aligned, in strictly increasing slot order.
proof fn lemma_pages_from_slots(s: Addressspace, k: int, limit: int)
    requires
        0 <= k,
        limit <= 0x10_0000,
    ensures
        forall|j: int|
            0 <= j < pages_from(s, k, limit).len() ==> {
                let pg = #[trigger] pages_from(s, k, limit)[j];
                &&& k <= slot_of(pg) < limit
                &&& pg.vaddr as int == slot_of(pg) * 0x1000
                &&& present_slot(s, slot_of(pg))
                &&& pg == page_slot(s, slot_of(pg))
            },
        forall|i: int, j: int|
            0 <= i < j < pages_from(s, k, limit).len() ==> slot_of(#[trigger] pages_from(s, k, limit)[i]) < slot_of(
                #[trigger] pages_from(s, k, limit)[j],
            ),
    decreases limit - k,
{
    if k < limit {
        lemma_pages_from_slots(s, k + 1, limit);
        let p = k / 1024;
        let t = k % 1024;
        let rest = pages_from(s, k + 1, limit);
        if present_at(s, p, t) {
            let pg = page_at(s, p, t);
            assert(p * 0x40_0000 + t * 0x1000 == k * 0x1000);
            assert(pg.vaddr as int == k * 0x1000);
            assert(slot_of(pg) == k);
            assert(pages_from(s, k, limit) == seq![pg] + rest);
            assert forall|j: int| 0 < j < pages_from(s, k, limit).len() implies #[trigger] pages_from(s, k, limit)[j]
                == rest[j - 1] by {}
        } else {
            assert(pages_from(s, k, limit) =~= rest);
        }
    }
}

/// No present page from flat slot `k` on: nothing is listed.
proof fn lemma_pages_from_none(s: Addressspace, k: int, limit: int)
    requires
        0 <= k,
        forall|m: int| k <= m < limit ==> !#[trigger] present_slot(s, m),
    ensures
        pages_from(s, k, limit) == Seq::<MappedPage>::empty(),
    decreases limit - k,
{
    if k < limit {
        assert(!present_slot(s, k));
        lemma_pages_from_none(s, k + 1, limit);
        assert(pages_from(s, k, limit) =~= pages_from(s, k + 1, limit));
    }
}

/// Adding a present page at flat slot `m0`, above every present page, and
/// changing nothing else appends that page to the listing.
proof fn lemma_pages_from_extend(s0: Addressspace, s1: Addressspace, m0: int, pg: MappedPage, k: int, limit: int)
    requires
        0 <= k,
        0 <= m0 < limit,
        present_slot(s1, m0),
        page_slot(s1, m0) == pg,
        forall|m: int|
            0 <= m < limit && m != m0 ==> present_slot(s1, m) == present_slot(s0, m) && (present_slot(s0, m)
                ==> #[trigger] page_slot(s1, m) == page_slot(s0, m)),
        forall|m: int| m0 <= m < limit ==> !#[trigger] present_slot(s0, m),
    ensures
        k <= m0 ==> pages_from(s1, k, limit) == pages_from(s0, k, limit).push(pg),
        k > m0 ==> pages_from(s1, k, limit) == pages_from(s0, k, limit),
    decreases limit - k,
{
    if k < limit {
        lemma_pages_from_extend(s0, s1, m0, pg, k + 1, limit);
        assert(present_slot(s1, k) == present_at(s1, k / 1024, k % 1024));
        assert(present_slot(s0, k) == present_at(s0, k / 1024, k % 1024));
        if k == m0 {
            lemma_pages_from_none(s0, k + 1, limit);
            assert(pages_from(s1, k, limit) =~= pages_from(s0, k, limit).push(pg));
        } else if k < m0 {
            if present_slot(s0, k) {
                assert(page_slot(s1, k) == page_slot(s0, k));
            }
            assert(pages_from(s1, k, limit) =~= pages_from(s0, k, limit).push(pg));
        } else {
            if present_slot(s0, k) {
                assert(page_slot(s1, k) == page_slot(s0, k));
            }
            assert(pages_from(s1, k, limit) =~= pages_from(s0, k, limit));
        }
    }
}

impl Addressspace {
    /// The child of a fork: an address space with the kernel's directory
    /// entries in which every user page of this one is mapped at the same
    /// place with the same rights, the `k`-th (in address order) on
    /// `frames[k]`, where the caller has copied it. The table for directory
    /// slot `p` is kept at `table_paddrs[p]`.
    pub fn fork(&self, kernel_directory: &PageDirectory, frames: &[usize], table_paddrs: &[usize]) -> (child: Addressspace)
        requires
            self.wf(),
            kernel_directory.0@.len() == 1024,
            frames@.len() == pages_from(*self, 0, 0xC_0000).len(),
            table_paddrs@.len() == 768,
        ensures
            child.wf(),
            forked_space(child, *self, kernel_directory.0@, frames@, table_paddrs@),
    {
        let pages = self.fork_pages();
        let ghost ps = pages@;
        let ghost fk = forked(ps, frames@);
        let mut child = Addressspace::new(kernel_directory);
        proof {
            lemma_pages_from_slots(*self, 0, 0xC_0000);
            assert forall|m: int| 0 <= m < 0xC_0000 implies !#[trigger] present_slot(child, m) by {
                assert(child.page_tables@[m / 1024] is None);
            }
            lemma_pages_from_none(child, 0, 0xC_0000);
            assert(fk.take(0) =~= Seq::<MappedPage>::empty());
        }
        let mut n: usize = 0;
        while n < pages.len()
            invariant
                child.wf(),
                pages@ == ps,
                ps == pages_from(*self, 0, 0xC_0000),
                fk == forked(ps, frames@),
                frames@.len() == ps.len(),
                table_paddrs@.len() == 768,
                kernel_directory.0@.len() == 1024,
                n <= ps.len(),
                forall|j: int|
                    0 <= j < ps.len() ==> {
                        let pg = #[trigger] ps[j];
                        &&& 0 <= slot_of(pg) < 0xC_0000
                        &&& pg.vaddr as int == slot_of(pg) * 0x1000
                    },
                forall|i: int, j: int| 0 <= i < j < ps.len() ==> slot_of(#[trigger] ps[i]) < slot_of(#[trigger] ps[j]),
                pages_from(child, 0, 0xC_0000) == fk.take(n as int),
                forall|m: int| 0 <= m < 0xC_0000 && #[trigger] present_slot(child, m) ==> n > 0 && m <= slot_of(ps[n - 1]),
                forall|p: int| 768 <= p < 1024 ==> (#[trigger] child.page_tables@[p]) is None,
                forall|p: int|
                    0 <= p < 1024 ==> #[trigger] child.page_directory.0@[p] == (if child.page_tables@[p] is Some {
                        user_pde(table_paddrs@[p])
                    } else {
                        kernel_directory.0@[p]
                    }),
            decreases ps.len() - n,
        {
            let pg = pages[n];
            let v = pg.vaddr;
            let ghost m0 = slot_of(pg);
            proof {
                assert(pde_index(v as int) == m0 / 1024 && pte_index(v as int) == m0 % 1024) by {
                    vstd::arithmetic::div_mod::lemma_div_denominator(v as int, 0x1000, 1024);
                    vstd::arithmetic::mul::lemma_mul_is_commutative(m0, 0x1000);
                    vstd::arithmetic::div_mod::lemma_div_multiples_vanish(m0, 0x1000);
                }
            }
            let p = v / 0x40_0000;
            let tp = table_paddrs[p];
            let ghost c0 = child;
            child.map(v, frames[n], pg.permissions, tp);
            proof {
                law_map_translates(c0, child, v, frames@[n as int], pg.permissions, tp);
                assert(user_page(v as int, frames@[n as int], pg.permissions) == fk[n as int]);
                assert forall|m: int| 0 <= m < 0xC_0000 && m != m0 implies present_slot(child, m) == present_slot(c0, m)
                    && (present_slot(c0, m) ==> #[trigger] page_slot(child, m) == page_slot(c0, m)) by {
                    assert(m / 1024 != m0 / 1024 || m % 1024 != m0 % 1024);
                }
                assert forall|m: int| m0 <= m < 0xC_0000 implies !#[trigger] present_slot(c0, m) by {
                    if n > 0 {
                        assert(slot_of(ps[n - 1]) < slot_of(ps[n as int]));
                    }
                }
                lemma_pages_from_extend(c0, child, m0, fk[n as int], 0, 0xC_0000);
                assert(fk.take(n as int).push(fk[n as int]) =~= fk.take(n + 1));
                assert forall|m: int| 0 <= m < 0xC_0000 && #[trigger] present_slot(child, m) implies n + 1 > 0 && m
                    <= slot_of(ps[n as int]) by {
                    if m != m0 {
                        assert(present_slot(child, m) == present_slot(c0, m) && (present_slot(c0, m) ==> page_slot(child, m)
                            == page_slot(c0, m)));
                        assert(present_slot(c0, m));
                        if n > 0 {
                            assert(slot_of(ps[n - 1]) < slot_of(ps[n as int]));
                        }
                    }
                }
            }
            n = n + 1;
        }
        proof {
            assert(fk.take(ps.len() as int) =~= fk);
        }
        child
    }
}

} // verus!
