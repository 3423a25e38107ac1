//! Boot-time setup of physical memory: the pages the loader reports as
//! reserved, and everything above the highest available RAM, are taken out
//! of the page allocator.
use vstd::prelude::*;
use crate::arch::x86::vmm::page::PAGE_SIZE;
use crate::arch::x86::vmm::page_allocator::{
    PageAllocator, pw, block_pages, block_bytes, addr_index, fit_search_in_range, first_fit_at_from, first_fit_from,
    pages_for, total_pages, blk, lemma_block_bytes, lemma_fit_at_aligned, lemma_pw_values, lemma_addr_index_bound,
    lemma_pw, lemma_pw_bounds, lemma_blk_range,
};
use crate::boot::MultibootMmapEntry;

verus! {

/// Why taking the reserved regions out of the allocator failed: a reserved
/// page was no longer free.
#[derive(Clone, Copy, Debug, PartialEq, Eq, Structural)]
pub enum ReserveError {
    PageUnavailable,
}

/// `x` rounded down to a page boundary.
pub open spec fn page_floor(x: int) -> int {
    x - x % 4096
}

/// The pages a memory map entry reserves: for an entry that is not
/// available RAM and starts at or above 1 MiB, every page from its start
/// (rounded down) to its end (rounded up).
pub open spec fn region_pages(e: MultibootMmapEntry) -> Seq<int> {
    let base = page_floor(e.addr as int);
    let end = page_floor(e.addr + e.len + 4095);
    if e.ty == 1 || base < 0x10_0000 || end <= base {
        Seq::empty()
    } else {
        Seq::new(((end - base) / 4096) as nat, |k: int| base / 4096 + k)
    }
}

/// The pages reserved by the entries, in the order they are taken.
pub open spec fn reserved_pages(es: Seq<MultibootMmapEntry>) -> Seq<int>
    decreases es.len(),
{
    if es.len() == 0 {
        Seq::empty()
    } else {
        reserved_pages(es.drop_last()) + region_pages(es.last())
    }
}

/// The memory map lies below 4 GiB: every entry starts there, and every
/// entry that is not available RAM also ends there with room to round up.
pub open spec fn mmap_below_4g(es: Seq<MultibootMmapEntry>) -> bool {
    forall|i: int|
        0 <= i < es.len() ==> (#[trigger] es[i]).addr < 0x1_0000_0000 && (es[i].ty != 1 ==> es[i].addr + es[i].len
            + 4095 < 0x1_0000_0000)
}

/// `2^power`.
fn pow2(power: usize) -> (r: usize)
    requires
        power < 20,
    ensures
        r == pw(power as int),
{
    proof {
        crate::arch::x86::vmm::page_allocator::lemma_pw_bounds(power as int);
        vstd::bits::lemma_usize_shl_is_mul(1, power);
    }
    1usize << power
}

/// Number of pages needed to hold `size` bytes.
pub fn bytes_to_pages(size: usize) -> (r: usize)
    requires
        size + PAGE_SIZE - 1 <= usize::MAX,
    ensures
        r == pages_for(size as int),
{
    (size + (PAGE_SIZE - 1)) / PAGE_SIZE
}

/// Every order's search for a request of at most 1 GiB below 4 GiB stays in range.
proof fn lemma_fit_search_small(addr: int, size: int)
    requires
        0 <= addr < 0x1_0000_0000,
        0 <= size <= 0x4000_0000,
    ensures
        fit_search_in_range(addr, size),
{
    assert forall|o: int| 0 <= o < 20 implies size + #[trigger] (addr % block_bytes(o)) + PAGE_SIZE <= usize::MAX by {
        lemma_block_bytes(o);
        vstd::arithmetic::div_mod::lemma_mod_bound(addr, block_bytes(o));
    }
}

/// A page-aligned address below 4 GiB names exactly one page, and a request
/// for one page there takes exactly that page.
pub proof fn lemma_single_page(addr: int)
    requires
        0 <= addr < 0x1_0000_0000,
        addr % 4096 == 0,
    ensures
        first_fit_at_from(addr, 4096, 0) == Some(0int),
        addr_index(addr, 0) == addr / 4096,
        block_pages(0, addr / 4096) == set![addr / 4096],
        0 <= addr / 4096 < total_pages(),
        fit_search_in_range(addr, 4096),
{
    lemma_pw_values();
    lemma_block_bytes(0);
    assert(pages_for(4096) == 1);
    assert(first_fit_from(1, 0) == Some(0int));
    lemma_fit_at_aligned(1, 4096, addr, 0, 0);
    lemma_addr_index_bound(addr, 0);
    assert(block_pages(0, addr / 4096) =~= set![addr / 4096]);
    lemma_fit_search_small(addr, 4096);
}

/// Rounding down to a page boundary gives a multiple of the page size.
proof fn lemma_page_floor(x: int)
    requires
        0 <= x,
    ensures
        page_floor(x) == 4096 * (x / 4096),
        page_floor(x) % 4096 == 0,
        page_floor(x) / 4096 == x / 4096,
{
    vstd::arithmetic::div_mod::lemma_fundamental_div_mod(x, 4096);
    vstd::arithmetic::div_mod::lemma_mod_multiples_basic(x / 4096, 4096);
    vstd::arithmetic::div_mod::lemma_div_multiples_vanish(x / 4096, 4096);
}

/// The pages reserved by a prefix of the entries lead the pages reserved by all of them.
proof fn lemma_reserved_prefix(es: Seq<MultibootMmapEntry>, i: int)
    requires
        0 <= i < es.len(),
    ensures
        (reserved_pages(es.subrange(0, i)) + region_pages(es[i])).is_prefix_of(reserved_pages(es)),
    decreases es.len() - i,
{
    assert(es.subrange(0, i + 1).drop_last() =~= es.subrange(0, i));
    assert(reserved_pages(es.subrange(0, i + 1)) == reserved_pages(es.subrange(0, i)) + region_pages(es[i]));
    if i + 1 < es.len() {
        lemma_reserved_prefix(es, i + 1);
        let a = reserved_pages(es.subrange(0, i + 1));
        let b = reserved_pages(es.subrange(0, i + 1)) + region_pages(es[i + 1]);
        assert(a =~= b.subrange(0, a.len() as int));
    } else {
        assert(es.subrange(0, i + 1) =~= es);
    }
}

/// Takes every page of every reserved region at or above 1 MiB out of the
/// allocator, entry by entry. Fails as soon as a page cannot be taken; it
/// cannot fail when the reserved pages are distinct, free, and in the
/// lower 2 GiB.
pub fn mark_reserved_regions(allocator: &mut PageAllocator, entries: &[MultibootMmapEntry]) -> (r: Result<(), ReserveError>)
    requires
        old(allocator).wf(),
        mmap_below_4g(entries@),
    ensures
        final(allocator).wf(),
        ({
            let res = reserved_pages(entries@);
            let free = old(allocator).free_pages();
            &&& r is Ok ==> res.no_duplicates() && res.to_set().subset_of(free) && final(allocator).free_pages()
                == free.difference(res.to_set())
            &&& r is Err ==> final(allocator).free_pages().subset_of(free) && free.difference(
                final(allocator).free_pages(),
            ).subset_of(res.to_set())
            &&& (res.no_duplicates() && res.to_set().subset_of(free)) ==> r is Ok
        }),
{
    let ghost free0 = allocator.free_pages();
    let ghost res = reserved_pages(entries@);
    let ghost good = res.no_duplicates() && res.to_set().subset_of(free0);
    let mut i: usize = 0;
    while i < entries.len()
        invariant
            allocator.wf(),
            mmap_below_4g(entries@),
            i <= entries@.len(),
            free0 == old(allocator).free_pages(),
            res == reserved_pages(entries@),
            good == (res.no_duplicates() && res.to_set().subset_of(free0)),
            reserved_pages(entries@.subrange(0, i as int)).is_prefix_of(res),
            reserved_pages(entries@.subrange(0, i as int)).no_duplicates(),
            reserved_pages(entries@.subrange(0, i as int)).to_set().subset_of(free0),
            allocator.free_pages() == free0.difference(reserved_pages(entries@.subrange(0, i as int)).to_set()),
        decreases entries@.len() - i,
    {
        let entry = entries[i];
        let ghost t = reserved_pages(entries@.subrange(0, i as int));
        proof {
            lemma_reserved_prefix(entries@, i as int);
            assert(entries@.subrange(0, i + 1int).drop_last() =~= entries@.subrange(0, i as int));
            assert(reserved_pages(entries@.subrange(0, i + 1int)) == t + region_pages(entry));
        }
        if entry.ty != 1 {
            let a = entry.addr as usize;
            let base = a - a % PAGE_SIZE;
            let top = (entry.addr + entry.len + 4095) as usize;
            let end = top - top % PAGE_SIZE;
            proof {
                lemma_page_floor(a as int);
                lemma_page_floor(top as int);
            }
            if base >= 0x10_0000 {
                let mut addr = base;
                let ghost mut n: int = 0;
                let ghost bq = base as int / 4096;
                let ghost eq = end as int / 4096;
                while addr < end
                    invariant
                        allocator.wf(),
                        free0 == old(allocator).free_pages(),
                        res == reserved_pages(entries@),
                        good == (res.no_duplicates() && res.to_set().subset_of(free0)),
                        base == page_floor(entry.addr as int),
                        end == page_floor(entry.addr + entry.len + 4095),
                        end < 0x1_0000_0000,
                        base >= 0x10_0000,
                        entry.ty != 1,
                        base == 4096 * bq,
                        end == 4096 * eq,
                        bq == base as int / 4096,
                        region_pages(entry) == (if end <= base { Seq::<int>::empty() } else { Seq::new((eq - bq) as nat, |k: int| bq + k) }),
                        0 <= n,
                        addr == base + 4096 * n,
                        addr <= end || n == 0,
                        (t + region_pages(entry)).is_prefix_of(res),
                        ({
                            let d = Seq::new(n as nat, |k: int| bq + k);
                            &&& (t + d).no_duplicates()
                            &&& (t + d).to_set().subset_of(free0)
                            &&& allocator.free_pages() == free0.difference((t + d).to_set())
                            &&& (t + d).is_prefix_of(res)
                        }),
                    decreases end - addr,
                {
                    let ghost d = Seq::new(n as nat, |k: int| bq + k);
                    let ghost p = bq + n;
                    let ghost before = allocator.free_pages();
                    proof {
                        assert(addr % 4096 == 0) by {
                            vstd::arithmetic::div_mod::lemma_mod_multiples_basic(bq + n, 4096);
                        }
                        assert(addr / 4096 == p) by {
                            vstd::arithmetic::div_mod::lemma_div_multiples_vanish(bq + n, 4096);
                        }
                        lemma_single_page(addr as int);
                        let d1 = Seq::new((n + 1) as nat, |k: int| bq + k);
                        assert(d1 =~= d.push(p));
                        assert((t + d).push(p) =~= t + d1);
                        assert(region_pages(entry).len() >= d1.len());
                        assert((t + d1) =~= (t + region_pages(entry)).subrange(0, (t + d1).len() as int));
                        let tr = t + region_pages(entry);
                        assert(end > base);
                        assert(n < eq - bq);
                        assert(region_pages(entry)[n] == p);
                        assert(tr[(t + d).len() as int] == p);
                        assert(tr.is_prefix_of(res));
                        assert(tr =~= res.subrange(0, tr.len() as int));
                        assert(res[(t + d).len() as int] == tr[(t + d).len() as int]);
                        assert(res[(t + d).len() as int] == p);
                    }
                    let taken = allocator.alloc_at(addr, PAGE_SIZE);
                    if taken.is_none() {
                        proof {
                            if good {
                                assert(res.to_set().contains(p));
                                assert(!(t + d).to_set().contains(p)) by {
                                    if (t + d).contains(p) {
                                        let k = choose|k: int| 0 <= k < (t + d).len() && (t + d)[k] == p;
                                        assert(res[k] == p);
                                    }
                                }
                                assert(block_pages(0, p).subset_of(before));
                                assert(addr_index(addr as int, 0) == p);
                                assert(false);
                            }
                            assert((t + d).to_set().subset_of(res.to_set())) by {
                                assert forall|x: int| (t + d).to_set().contains(x) implies res.to_set().contains(x) by {
                                    let k = choose|k: int| 0 <= k < (t + d).len() && (t + d)[k] == x;
                                    assert(res[k] == x);
                                }
                            }
                            assert(free0.difference(allocator.free_pages()) =~= (t + d).to_set().intersect(free0));
                            assert(allocator.free_pages().subset_of(free0));
                            assert(free0.difference(allocator.free_pages()).subset_of(res.to_set()));
                            assert(!good);
                        }
                        return Err(ReserveError::PageUnavailable);
                    }
                    proof {
                        let d1 = Seq::new((n + 1) as nat, |k: int| bq + k);
                        assert((t + d).push(p) =~= t + d1);
                        assert(before.contains(p));
                        assert(!(t + d).contains(p));
                        assert((t + d1).no_duplicates()) by {
                            assert forall|x: int, y: int| 0 <= x < (t + d1).len() && 0 <= y < (t + d1).len() && x != y implies (t + d1)[x] != (t + d1)[y] by {
                                if x < (t + d).len() && y < (t + d).len() {
                                    assert((t + d1)[x] == (t + d)[x]);
                                    assert((t + d1)[y] == (t + d)[y]);
                                } else if x == (t + d).len() {
                                    assert((t + d1)[y] == (t + d)[y]);
                                } else {
                                    assert((t + d1)[x] == (t + d)[x]);
                                }
                            }
                        }
                        assert forall|x: int| #[trigger] (t + d1).to_set().contains(x) == (t + d).to_set().insert(p).contains(x) by {
                            if (t + d1).contains(x) {
                                let k = choose|k: int| 0 <= k < (t + d1).len() && (t + d1)[k] == x;
                                if k < (t + d).len() {
                                    assert((t + d)[k] == x);
                                }
                            }
                            if (t + d).contains(x) {
                                let k = choose|k: int| 0 <= k < (t + d).len() && (t + d)[k] == x;
                                assert((t + d1)[k] == x);
                            }
                            if x == p {
                                assert((t + d1)[(t + d).len() as int] == p);
                            }
                        }
                        assert((t + d1).to_set() =~= (t + d).to_set().insert(p));
                        assert(allocator.free_pages() =~= free0.difference((t + d1).to_set()));
                        assert((t + d1).to_set().subset_of(free0));
                    }
                    addr = addr + PAGE_SIZE;
                    proof {
                        n = n + 1;
                    }
                }
                proof {
                    let d = Seq::new(n as nat, |k: int| bq + k);
                    assert(d =~= region_pages(entry));
                }
            } else {
                assert(region_pages(entry) =~= Seq::<int>::empty());
                assert(t + region_pages(entry) =~= t);
            }
        } else {
            assert(region_pages(entry) =~= Seq::<int>::empty());
            assert(t + region_pages(entry) =~= t);
        }
        i = i + 1;
    }
    proof {
        assert(entries@.subrange(0, entries@.len() as int) =~= entries@);
    }
    Ok(())
}

/// End of the 32-bit address space.
pub const ADDR_SPACE_END: u64 = 0x1_0000_0000;

/// Where an entry ends, saturating at the top of the 64-bit range.
pub open spec fn entry_end(e: MultibootMmapEntry) -> int {
    if e.addr + e.len > u64::MAX { u64::MAX as int } else { e.addr + e.len }
}

/// The highest end of an available RAM entry (0 if there is none).
pub open spec fn highest_available_end(es: Seq<MultibootMmapEntry>) -> int
    decreases es.len(),
{
    if es.len() == 0 {
        0
    } else {
        let h = highest_available_end(es.drop_last());
        let e = es.last();
        if e.ty == 1 && entry_end(e) > h { entry_end(e) } else { h }
    }
}

/// Every available RAM entry ends at or below 4 GiB.
pub open spec fn available_below_4g(es: Seq<MultibootMmapEntry>) -> bool {
    forall|i: int| 0 <= i < es.len() && (#[trigger] es[i]).ty == 1 ==> entry_end(es[i]) <= 0x1_0000_0000
}

/// Whether a block of order `o` can start at `a`: aligned to its size and
/// ending by 4 GiB.
pub open spec fn block_fits(a: int, o: int) -> bool {
    a % block_bytes(o) == 0 && block_bytes(o) <= 0x1_0000_0000 - a
}

/// The largest order at or below `o` whose block fits at `a` (0 if none does).
pub open spec fn order_from(a: int, o: int) -> int
    decreases o,
{
    if o <= 0 || block_fits(a, o) {
        if o <= 0 { 0 } else { o }
    } else {
        order_from(a, o - 1)
    }
}

/// The blocks, as (address, order), that cover `a` to 4 GiB: each the
/// largest naturally aligned block of at most order 18 that fits.
pub open spec fn above_blocks(a: int) -> Seq<(int, int)>
    decreases 0x1_0000_0000 - a,
{
    if a >= 0x1_0000_0000 || a < 0 {
        Seq::empty()
    } else {
        let o = order_from(a, 18);
        let next = a + pw(o) * 4096;
        seq![(a, o)] + if next > 0x1_0000_0000 || next <= a {
            Seq::empty()
        } else {
            above_blocks(next)
        }
    }
}

/// The pages of a block given as (address, order).
pub open spec fn block_set(b: (int, int)) -> Set<int> {
    block_pages(b.1, b.0 / block_bytes(b.1))
}

/// Whether the block of order `order` fits at `addr`.
fn fits_at_addr(addr: u64, order: usize) -> (r: bool)
    requires
        order <= 18,
        addr <= ADDR_SPACE_END,
    ensures
        r == block_fits(addr as int, order as int),
{
    proof {
        lemma_block_bytes(order as int);
        lemma_pw_bounds(order as int);
    }
    let block_size = (pow2(order) as u64) * (PAGE_SIZE as u64);
    addr % block_size == 0 && block_size <= ADDR_SPACE_END - addr
}

/// `pw(o)` pages are first served at order `o`.
proof fn lemma_first_fit_pw(o: int, from: int)
    requires
        0 <= from <= o < 20,
    ensures
        first_fit_from(pw(o), from) == Some(o),
    decreases o - from,
{
    if from < o {
        lemma_pw_increasing(from, o);
        lemma_first_fit_pw(o, from + 1);
    }
}

/// `pw` grows strictly.
proof fn lemma_pw_increasing(a: int, b: int)
    requires
        0 <= a < b,
    ensures
        pw(a) < pw(b),
    decreases b - a,
{
    lemma_pw(a);
    if a + 1 < b {
        lemma_pw_increasing(a + 1, b);
    }
}

/// An aligned block of order `o` at `a` covers the pages from `a / 4096` on,
/// `pw(o)` of them.
proof fn lemma_block_range(a: int, o: int)
    requires
        0 <= o < 20,
        0 <= a,
        a % block_bytes(o) == 0,
        a + block_bytes(o) <= 0x1_0000_0000,
    ensures
        block_set((a, o)) == Set::new(|p: int| a / 4096 <= p < a / 4096 + pw(o)),
        a / 4096 + pw(o) <= total_pages(),
        (a + block_bytes(o)) / 4096 == a / 4096 + pw(o),
{
    lemma_block_bytes(o);
    lemma_pw_values();
    lemma_pw(o);
    let i = a / block_bytes(o);
    vstd::arithmetic::div_mod::lemma_fundamental_div_mod(a, block_bytes(o));
    assert(a == (i * pw(o)) * 4096) by (nonlinear_arith)
        requires
            a == block_bytes(o) * i + a % block_bytes(o),
            a % block_bytes(o) == 0,
            block_bytes(o) == pw(o) * 4096,
    ;
    vstd::arithmetic::div_mod::lemma_div_multiples_vanish(i * pw(o), 4096);
    assert(a + block_bytes(o) == (i * pw(o) + pw(o)) * 4096) by (nonlinear_arith)
        requires
            a == (i * pw(o)) * 4096,
            block_bytes(o) == pw(o) * 4096,
    ;
    vstd::arithmetic::div_mod::lemma_div_multiples_vanish(i * pw(o) + pw(o), 4096);
    assert forall|p: int| #[trigger] block_set((a, o)).contains(p) == (a / 4096 <= p < a / 4096 + pw(o)) by {
        if 0 <= p {
            lemma_blk_range(o, p, i);
            assert((i + 1) * pw(o) == i * pw(o) + pw(o)) by (nonlinear_arith);
        }
    }
    assert(block_set((a, o)) =~= Set::new(|p: int| a / 4096 <= p < a / 4096 + pw(o)));
}

/// Takes everything from the highest end of available RAM up to 4 GiB out of
/// the allocator, in the largest naturally aligned blocks (at most order 18)
/// that fit. A block is taken only if it is wholly free; a wholly free block
/// in the lower 2 GiB is always taken.
pub fn mark_above_available(allocator: &mut PageAllocator, entries: &[MultibootMmapEntry])
    requires
        old(allocator).wf(),
        available_below_4g(entries@),
    ensures
        final(allocator).wf(),
        ({
            let blocks = above_blocks(page_floor(highest_available_end(entries@)));
            let free = old(allocator).free_pages();
            &&& final(allocator).free_pages().subset_of(free)
            &&& forall|p: int| free.contains(p) && !final(allocator).free_pages().contains(p) ==> exists|k: int|
                0 <= k < blocks.len() && #[trigger] block_set(blocks[k]).contains(p) && block_set(blocks[k]).subset_of(free)
            &&& forall|k: int| 0 <= k < blocks.len() && #[trigger] block_set(blocks[k]).subset_of(free)
                ==> block_set(blocks[k]).disjoint(final(allocator).free_pages())
        }),
{
    let ghost free0 = allocator.free_pages();
    let mut highest: u64 = 0;
    let mut i: usize = 0;
    while i < entries.len()
        invariant
            i <= entries@.len(),
            available_below_4g(entries@),
            highest == highest_available_end(entries@.subrange(0, i as int)),
            highest <= ADDR_SPACE_END,
        decreases entries@.len() - i,
    {
        let entry = entries[i];
        proof {
            assert(entries@.subrange(0, i + 1int).drop_last() =~= entries@.subrange(0, i as int));
        }
        if entry.ty == 1 {
            let end = entry.addr.saturating_add(entry.len);
            if end > highest {
                highest = end;
            }
        }
        i = i + 1;
    }
    proof {
        assert(entries@.subrange(0, entries@.len() as int) =~= entries@);
        lemma_page_floor(highest as int);
    }
    let mut addr: u64 = highest - highest % (PAGE_SIZE as u64);
    let ghost blocks = above_blocks(addr as int);
    let ghost mut m: int = 0;
    while addr < ADDR_SPACE_END
        invariant
            allocator.wf(),
            free0 == old(allocator).free_pages(),
            addr <= ADDR_SPACE_END,
            addr % 4096 == 0,
            0 <= m <= blocks.len(),
            above_blocks(addr as int) == blocks.subrange(m, blocks.len() as int),
            allocator.free_pages().subset_of(free0),
            forall|p: int| p >= addr / 4096 ==> (#[trigger] allocator.free_pages().contains(p)) == free0.contains(p),
            forall|p: int| free0.contains(p) && !allocator.free_pages().contains(p) ==> exists|k: int|
                0 <= k < m && #[trigger] block_set(blocks[k]).contains(p) && block_set(blocks[k]).subset_of(free0),
            forall|k: int| 0 <= k < m && #[trigger] block_set(blocks[k]).subset_of(free0)
                ==> block_set(blocks[k]).disjoint(allocator.free_pages()),
        decreases ADDR_SPACE_END - addr,
    {
        let mut order: usize = 18;
        while order > 0 && !fits_at_addr(addr, order)
            invariant
                order <= 18,
                addr < ADDR_SPACE_END,
                order_from(addr as int, 18) == order_from(addr as int, order as int),
            decreases order,
        {
            order = order - 1;
        }
        proof {
            lemma_block_bytes(order as int);
            lemma_pw_bounds(order as int);
            lemma_pw_values();
            if order == 0 {
                assert(block_fits(addr as int, 0));
            }
            assert(order_from(addr as int, 18) == order as int);
        }
        let block_size = (pow2(order) as u64) * (PAGE_SIZE as u64);
        let ghost o = order as int;
        let ghost b = (addr as int, o);
        let ghost before = allocator.free_pages();
        proof {
            assert(above_blocks(addr as int).len() > 0);
            assert(above_blocks(addr as int)[0] == b);
            assert(m < blocks.len());
            assert(blocks.subrange(m, blocks.len() as int)[0] == blocks[m]);
            assert(blocks[m] == b);
            lemma_pw(18);
            if o < 18 {
                lemma_pw_increasing(o, 18);
            }
            assert(pw(o) <= 0x4_0000);
            lemma_block_range(addr as int, o);
            lemma_fit_search_small(addr as int, block_size as int);
            lemma_first_fit_pw(o, 0);
            assert(pages_for(block_size as int) == pw(o)) by {
                vstd::arithmetic::div_mod::lemma_div_multiples_vanish(pw(o), 4096);
                vstd::arithmetic::div_mod::lemma_fundamental_div_mod_converse_div(pw(o) * 4096 + 4095, 4096, pw(o), 4095);
            }
            lemma_fit_at_aligned(pw(o), block_size as int, addr as int, 0, o);
            lemma_addr_index_bound(addr as int, o);
        }
        let _taken = allocator.alloc_at(addr as usize, block_size as usize);
        proof {
            let next = addr as int + block_size as int;
            assert(block_set(b) == block_pages(o, addr_index(addr as int, o)));
            if block_set(b).subset_of(free0) {
                assert(block_set(b).subset_of(before)) by {
                    assert forall|p: int| block_set(b).contains(p) implies before.contains(p) by {
                        assert(p >= addr / 4096);
                    }
                }
            }
            assert forall|p: int| p >= next / 4096 implies (#[trigger] allocator.free_pages().contains(p)) == free0.contains(p) by {
                assert(!block_set(b).contains(p));
                assert(p >= addr / 4096);
            }
            assert forall|p: int| free0.contains(p) && !allocator.free_pages().contains(p) implies exists|k: int|
                0 <= k < m + 1 && #[trigger] block_set(blocks[k]).contains(p) && block_set(blocks[k]).subset_of(free0) by {
                if !before.contains(p) {
                    let k = choose|k: int| 0 <= k < m && #[trigger] block_set(blocks[k]).contains(p) && block_set(blocks[k]).subset_of(free0);
                    assert(0 <= k < m + 1);
                } else {
                    assert(block_set(blocks[m]).contains(p));
                    assert(block_set(b).subset_of(before));
                    assert(block_set(b).subset_of(free0));
                }
            }
            assert forall|k: int| 0 <= k < m + 1 && #[trigger] block_set(blocks[k]).subset_of(free0)
                implies block_set(blocks[k]).disjoint(allocator.free_pages()) by {
                if k < m {
                    assert(block_set(blocks[k]).disjoint(before));
                }
            }
            assert(above_blocks(addr as int) == seq![b] + (if next > 0x1_0000_0000 || next <= addr { Seq::<(int, int)>::empty() } else { above_blocks(next) }));
            assert(blocks.subrange(m + 1, blocks.len() as int) =~= above_blocks(addr as int).subrange(1, above_blocks(addr as int).len() as int));
            if next >= 0x1_0000_0000 {
                assert(above_blocks(next) == Seq::<(int, int)>::empty());
            }
            vstd::arithmetic::div_mod::lemma_mod_add_multiples_vanish(addr as int, 4096);
            assert(block_size as int == 4096 * pw(o));
            vstd::arithmetic::div_mod::lemma_mod_multiples_basic(pw(o), 4096);
            vstd::arithmetic::div_mod::lemma_add_mod_noop(addr as int, block_size as int, 4096);
            m = m + 1;
        }
        addr = addr + block_size;
    }
    proof {
        assert(addr == ADDR_SPACE_END);
    }
}

/// Boot-time memory setup, the allocator's part: reserved regions first,
/// then everything above the available RAM (see the two functions).
pub fn init(allocator: &mut PageAllocator, entries: &[MultibootMmapEntry]) -> (r: Result<(), ReserveError>)
    requires
        old(allocator).wf(),
        mmap_below_4g(entries@),
        available_below_4g(entries@),
    ensures
        final(allocator).wf(),
        r is Err ==> final(allocator).free_pages().subset_of(old(allocator).free_pages()),
        ({
            let res = reserved_pages(entries@);
            let free = old(allocator).free_pages();
            (res.no_duplicates() && res.to_set().subset_of(free)) ==> r is Ok
        }),
        r is Ok ==> {
            let res = reserved_pages(entries@);
            let mid = old(allocator).free_pages().difference(res.to_set());
            let blocks = above_blocks(page_floor(highest_available_end(entries@)));
            &&& res.to_set().subset_of(old(allocator).free_pages())
            &&& final(allocator).free_pages().subset_of(mid)
            &&& forall|p: int| mid.contains(p) && !final(allocator).free_pages().contains(p) ==> exists|k: int|
                0 <= k < blocks.len() && #[trigger] block_set(blocks[k]).contains(p) && block_set(blocks[k]).subset_of(mid)
            &&& forall|k: int| 0 <= k < blocks.len() && #[trigger] block_set(blocks[k]).subset_of(mid)
                ==> block_set(blocks[k]).disjoint(final(allocator).free_pages())
        },
{
    match mark_reserved_regions(allocator, entries) {
        Ok(()) => {},
        Err(e) => return Err(e),
    }
    mark_above_available(allocator, entries);
    Ok(())
}

} // verus!
