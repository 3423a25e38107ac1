//! Decisions of the kernel heap: which backend serves a request or a free,
//! and where the backends' regions lie.
use vstd::prelude::*;
use vstd::arithmetic::power2::{pow2, lemma_pow2_unfold, lemma_pow2_pos};

verus! {

/// Largest request the slab allocator serves.
pub const SLAB_MAX: usize = 2048;

/// Why an allocation failed.
#[derive(Clone, Copy, Debug, PartialEq, Eq, Structural)]
pub enum KmallocError {
    NotEnoughMemory,
}

/// Why a free failed.
#[derive(Clone, Copy, Debug, PartialEq, Eq, Structural)]
pub enum KfreeError {
    InvalidPointer,
}

/// Which backend serves an allocation, and with how many bytes.
#[derive(Clone, Copy, Debug, PartialEq, Eq, Structural)]
pub enum Route {
    /// The slab allocator, with the requested size.
    Slab(usize),
    /// The buddy allocator, with the request rounded up to a power of two.
    Buddy(usize),
}

/// `p` is the smallest power of two above `x`.
pub open spec fn is_pow2_above(p: int, x: int) -> bool {
    exists|k: nat| k >= 1 && p == pow2(k) && pow2((k - 1) as nat) <= x < pow2(k)
}

/// Requests up to 2048 bytes go to the slab allocator; larger ones to the
/// buddy allocator, rounded up to the smallest power of two that is at least
/// the size.
pub fn kmalloc_route(size: usize) -> (r: Route)
    requires
        size <= usize::MAX / 2 + 1,
    ensures
        size <= SLAB_MAX ==> r == Route::Slab(size),
        size > SLAB_MAX ==> (r matches Route::Buddy(p) && is_pow2_above(p as int, size - 1)),
{
    if size <= SLAB_MAX {
        return Route::Slab(size);
    }
    let x = size - 1;
    let mut p: usize = 1;
    let ghost mut k: nat = 0;
    proof {
        vstd::arithmetic::power2::lemma2_to64();
    }
    while p <= x
        invariant
            p == pow2(k),
            p >= 1,
            x == size - 1,
            size <= usize::MAX / 2 + 1,
            k == 0 || pow2((k - 1) as nat) <= x,
            p <= x + 1 || k >= 1,
        decreases usize::MAX - p,
    {
        proof {
            lemma_pow2_unfold(k + 1);
        }
        p = p * 2;
        proof {
            k = k + 1;
        }
    }
    proof {
        lemma_pow2_pos(k);
        if k == 0 {
            assert(p == 1);
        }
        assert(k >= 1);
    }
    Route::Buddy(p)
}

/// A pointer inside the slab region is freed by the slab allocator, any
/// other by the buddy allocator.
pub fn kfree_by_slab(addr: usize, slabs_start: usize, slabs_end: usize) -> (r: bool)
    ensures
        r == (slabs_start <= addr && addr < slabs_end),
{
    addr >= slabs_start && addr < slabs_end
}

/// `x` rounded up to a multiple of `align`, a power of two: the smallest
/// value at or above `x` whose bits below `align` are clear.
pub fn align_up(x: usize, align: usize) -> (r: usize)
    requires
        align > 0,
        align & ((align - 1) as usize) == 0,
        x + align - 1 <= usize::MAX,
    ensures
        r & ((align - 1) as usize) == 0,
        x <= r,
        r - x < align,
{
    let m = align - 1;
    let y = x + m;
    let r = y & !m;
    assert(r & m == 0 && r <= y && y - r <= m) by (bit_vector)
        requires
            r == y & !m,
    ;
    r
}

/// Where the buddy allocator's region goes: the first address at or after
/// the kernel's end aligned to the region's size, and its physical address.
pub fn buddy_region(kernel_end: usize, region_size: usize, kernel_base: usize) -> (r: (usize, usize))
    requires
        region_size > 0,
        region_size & ((region_size - 1) as usize) == 0,
        kernel_end + region_size - 1 <= usize::MAX,
        kernel_end >= kernel_base,
    ensures
        r.0 & ((region_size - 1) as usize) == 0,
        kernel_end <= r.0 < kernel_end + region_size,
        r.1 == r.0 - kernel_base,
{
    let vaddr = align_up(kernel_end, region_size);
    (vaddr, vaddr - kernel_base)
}

} // verus!
