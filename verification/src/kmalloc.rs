//! The first heap: a pool of 1024 pages handed out one at a time through a
//! bitmap, and caches that carve a page into fixed-size blocks. Page
//! addresses are offsets into the pool.
use vstd::prelude::*;

verus! {

/// Alignment of heap blocks.
pub const KMALLOC_ALIGNMENT: usize = 0x08;

/// Pages in the pool.
pub const POOL_PAGES: usize = 1024;

/// Pages a block cache spans.
pub const PAGES_PER_CACHE: usize = 8;

/// One page of memory.
pub struct Page {
    pub data: Vec<u8>,
}

impl Page {
    /// A page of zeroes.
    pub fn empty() -> (r: Self)
        ensures
            r.data@ == Seq::new(4096, |i: int| 0u8),
    {
        let mut data: Vec<u8> = Vec::new();
        while data.len() < 4096
            invariant
                data@.len() <= 4096,
                forall|i: int| 0 <= i < data@.len() ==> #[trigger] data@[i] == 0u8,
            decreases 4096 - data@.len(),
        {
            data.push(0);
        }
        assert(data@ =~= Seq::new(4096, |i: int| 0u8));
        Self { data }
    }
}

/// Whether bit `j` of byte `b` is set.
pub open spec fn bit_set(b: u8, j: int) -> bool {
    (b >> (j as u8)) & 1 == 1
}

/// The pool's bitmap: bit `k % 8` of byte `k / 8` is set when page `k` is handed out.
pub struct Mmap {
    bitmap: Vec<u8>,
}

impl Mmap {
    /// Whether page `k` is handed out.
    pub closed spec fn used(&self, k: int) -> bool {
        bit_set(self.bitmap@[k / 8], k % 8)
    }

    /// 128 bytes of bitmap.
    pub closed spec fn wf(&self) -> bool {
        self.bitmap@.len() == 128
    }

    /// Every page free.
    pub fn empty() -> (r: Self)
        ensures
            r.wf(),
            forall|k: int| 0 <= k < 1024 ==> !#[trigger] r.used(k),
    {
        let mut bitmap: Vec<u8> = Vec::new();
        while bitmap.len() < 128
            invariant
                bitmap@.len() <= 128,
                forall|i: int| 0 <= i < bitmap@.len() ==> #[trigger] bitmap@[i] == 0u8,
            decreases 128 - bitmap@.len(),
        {
            bitmap.push(0);
        }
        let r = Self { bitmap };
        assert forall|k: int| 0 <= k < 1024 implies !#[trigger] r.used(k) by {
            let j = (k % 8) as u8;
            assert((0u8 >> j) & 1 == 0) by (bit_vector);
        }
        r
    }

    /// Hands out the free page with the lowest index and returns its offset
    /// in the pool; `None` when every page is in use.
    pub fn mmap(&mut self) -> (r: Option<usize>)
        requires
            old(self).wf(),
        ensures
            final(self).wf(),
            r is None <==> forall|k: int| 0 <= k < 1024 ==> #[trigger] old(self).used(k),
            r is None ==> *final(self) == *old(self),
            r is Some ==> {
                let k = r->0 as int / 4096;
                &&& r->0 as int % 4096 == 0
                &&& 0 <= k < 1024
                &&& forall|j: int| 0 <= j < k ==> #[trigger] old(self).used(j)
                &&& page_taken(*old(self), *final(self), k)
            },
    {
        let mut i: usize = 0;
        while i < 128
            invariant
                self.wf(),
                *self == *old(self),
                i <= 128,
                forall|k: int| 0 <= k < 8 * i ==> #[trigger] self.used(k),
            decreases 128 - i,
        {
            if self.bitmap[i] != 0xff {
                let mut j: u8 = 0;
                while j < 8
                    invariant
                        self.wf(),
                        *self == *old(self),
                        i < 128,
                        j <= 8,
                        self.bitmap@[i as int] != 0xff,
                        forall|k: int| 0 <= k < 8 * i ==> #[trigger] self.used(k),
                        forall|t: int| 0 <= t < j ==> bit_set(self.bitmap@[i as int], t),
                    decreases 8 - j,
                {
                    let b = self.bitmap[i];
                    assert(((b >> j) & 1 != 0) ==> ((b >> j) & 1 == 1)) by (bit_vector);
                    if (b >> j) & 1 == 0 {
                        let nb = b | (1u8 << j);
                        self.bitmap.set(i, nb);
                        let k = i * 8 + (j as usize);
                        proof {
                            assert(bit_set(nb, j as int)) by {
                                assert(((b | (1u8 << j)) >> j) & 1 == 1) by (bit_vector)
                                    requires
                                        j < 8,
                                ;
                            }
                            assert forall|t: int| 0 <= t < 8 && t != j implies bit_set(nb, t) == bit_set(b, t) by {
                                let tt = t as u8;
                                assert(((b | (1u8 << j)) >> tt) & 1 == (b >> tt) & 1) by (bit_vector)
                                    requires
                                        j < 8,
                                        tt < 8,
                                        tt != j,
                                ;
                            }
                            assert forall|q: int| 0 <= q < 1024 && q != k implies #[trigger] self.used(q) == old(self).used(q) by {
                                if q / 8 == i as int {
                                    assert(q % 8 != j as int);
                                }
                            }
                            assert forall|q: int| 0 <= q < k implies #[trigger] old(self).used(q) by {
                                if q >= 8 * i {
                                    assert(q / 8 == i as int);
                                    assert(q % 8 < j as int);
                                }
                            }
                            assert((k * 4096) / 4096 == k as int);
                            assert(k / 8 == i as int && k % 8 == j as int);
                            assert(old(self).bitmap@[i as int] == b);
                            assert(!old(self).used(k as int));
                        }
                        return Some(k * 4096);
                    }
                    j = j + 1;
                }
                proof {
                    let b = self.bitmap@[i as int];
                    assert(b == 0xff) by {
                        assert(forall|t: int| 0 <= t < 8 ==> bit_set(b, t));
                        assert(bit_set(b, 0) && bit_set(b, 1) && bit_set(b, 2) && bit_set(b, 3));
                        assert(bit_set(b, 4) && bit_set(b, 5) && bit_set(b, 6) && bit_set(b, 7));
                        assert(((b >> 0u8) & 1 == 1 && (b >> 1u8) & 1 == 1 && (b >> 2u8) & 1 == 1 && (b >> 3u8) & 1 == 1
                            && (b >> 4u8) & 1 == 1 && (b >> 5u8) & 1 == 1 && (b >> 6u8) & 1 == 1 && (b >> 7u8) & 1 == 1)
                            ==> b == 0xff) by (bit_vector);
                    }
                }
            }
            proof {
                let b = self.bitmap@[i as int];
                assert(b == 0xff);
                assert forall|k: int| 0 <= k < 8 * (i + 1) implies #[trigger] self.used(k) by {
                    if k >= 8 * i {
                        let t = (k % 8) as u8;
                        assert(k / 8 == i as int);
                        assert((0xffu8 >> t) & 1 == 1) by (bit_vector)
                            requires
                                t < 8,
                        ;
                    }
                }
            }
            i = i + 1;
        }
        None
    }

    /// Gives back the page at offset `addr`; `Err` when no page starts there.
    pub fn munmap(&mut self, addr: usize) -> (r: Result<(), ()>)
        requires
            old(self).wf(),
        ensures
            final(self).wf(),
            r is Ok <==> (addr as int % 4096 == 0 && (addr as int) < 1024 * 4096),
            r is Err ==> *final(self) == *old(self),
            r is Ok ==> page_given_back(*old(self), *final(self), addr as int / 4096),
    {
        let mut i: usize = 0;
        while i < POOL_PAGES
            invariant
                i <= 1024,
                *self == *old(self),
                self.wf(),
                forall|q: int| 0 <= q < i ==> #[trigger] (q * 4096) != addr,
            decreases 1024 - i,
        {
            if i * 4096 == addr {
                let b = self.bitmap[i / 8];
                let j = (i % 8) as u8;
                let nb = b & !(1u8 << j);
                self.bitmap.set(i / 8, nb);
                proof {
                    assert(!bit_set(nb, j as int)) by {
                        assert(((b & !(1u8 << j)) >> j) & 1 == 0) by (bit_vector)
                            requires
                                j < 8,
                        ;
                    }
                    assert forall|t: int| 0 <= t < 8 && t != j implies bit_set(nb, t) == bit_set(b, t) by {
                        let tt = t as u8;
                        assert(((b & !(1u8 << j)) >> tt) & 1 == (b >> tt) & 1) by (bit_vector)
                            requires
                                j < 8,
                                tt < 8,
                                tt != j,
                        ;
                    }
                    assert forall|q: int| 0 <= q < 1024 && q != i implies #[trigger] self.used(q) == old(self).used(q) by {
                        if q / 8 == i as int / 8 {
                            assert(q % 8 != i as int % 8);
                        }
                    }
                    assert(addr as int / 4096 == i as int);
                }
                return Ok(());
            }
            i = i + 1;
        }
        proof {
            if addr as int % 4096 == 0 && (addr as int) < 1024 * 4096 {
                let q = addr as int / 4096;
                assert(q * 4096 == addr);
            }
        }
        Err(())
    }
}

/// `m1` is `m0` with free page `k` handed out.
pub open spec fn page_taken(m0: Mmap, m1: Mmap, k: int) -> bool {
    &&& !m0.used(k)
    &&& m1.used(k)
    &&& forall|j: int| 0 <= j < 1024 && j != k ==> #[trigger] m1.used(j) == m0.used(j)
}

/// `m1` is `m0` with page `k` free again.
pub open spec fn page_given_back(m0: Mmap, m1: Mmap, k: int) -> bool {
    &&& !m1.used(k)
    &&& forall|j: int| 0 <= j < 1024 && j != k ==> #[trigger] m1.used(j) == m0.used(j)
}

/// Giving back the page `mmap` handed out leaves every page of the pool as
/// it was before.
pub proof fn law_munmap_undoes_mmap(m0: Mmap, m1: Mmap, m2: Mmap, k: int)
    requires
        0 <= k < 1024,
        page_taken(m0, m1, k),
        page_given_back(m1, m2, k),
    ensures
        forall|j: int| 0 <= j < 1024 ==> #[trigger] m2.used(j) == m0.used(j),
{
}

/// Why the heap could not serve a request.
#[derive(Clone, Copy, Debug, PartialEq, Eq, Structural)]
pub enum Error {
    NoSpaceLeft,
    MmapFailure,
}

/// Allocation as this heap does it so far: the size itself is handed back
/// as the address.
pub fn kmalloc(size: usize) -> (r: Result<usize, ()>)
    ensures
        r == Ok::<usize, ()>(size),
{
    Ok(size)
}

/// Gives the block at `addr` back. This heap does not take blocks back yet:
/// nothing changes.
pub fn kfree(addr: usize) {
}

/// Size of the block at `addr`; this heap does not track sizes yet and
/// reports 0.
pub fn ksize(addr: usize) -> (r: usize)
    ensures
        r == 0,
{
    0
}

/// A cache of blocks of one size spread over `PAGES_PER_CACHE` page slots.
#[derive(Debug)]
pub struct BlockCache {
    pub pages: Vec<usize>,
    pub bitmap: u8,
    pub object_size: u16,
}

impl BlockCache {
    /// A cache for blocks of `object_size` bytes: one page is taken from the
    /// pool and fills every page slot.
    pub fn new(mmap: &mut Mmap, object_size: u16) -> (r: Result<Self, Error>)
        requires
            old(mmap).wf(),
        ensures
            final(mmap).wf(),
            r is Err <==> forall|k: int| 0 <= k < 1024 ==> #[trigger] old(mmap).used(k),
            r is Err ==> r == Err::<Self, Error>(Error::MmapFailure),
            r is Ok ==> {
                let c = r->Ok_0;
                &&& c.pages@.len() == 8
                &&& forall|i: int| 0 <= i < 8 ==> #[trigger] c.pages@[i] == c.pages@[0]
                &&& c.pages@[0] as int % 4096 == 0
                &&& !old(mmap).used(c.pages@[0] as int / 4096)
                &&& final(mmap).used(c.pages@[0] as int / 4096)
                &&& c.bitmap == 0
                &&& c.object_size == object_size
            },
    {
        let page = match mmap.mmap() {
            Some(p) => p,
            None => return Err(Error::MmapFailure),
        };
        let mut pages: Vec<usize> = Vec::new();
        while pages.len() < PAGES_PER_CACHE
            invariant
                pages@.len() <= 8,
                forall|i: int| 0 <= i < pages@.len() ==> #[trigger] pages@[i] == page,
            decreases 8 - pages@.len(),
        {
            pages.push(page);
        }
        Ok(Self { pages, bitmap: 0, object_size })
    }

    /// Walks the blocks of the cache.
    pub fn into_iter(self) -> (r: BlockCacheIntoIterator)
        requires
            self.pages@.len() == 8,
        ensures
            r.current_position == self.pages@[0],
            r.page_index == 0,
            r.block_cache == self,
    {
        let first = self.pages[0];
        BlockCacheIntoIterator { block_cache: self, current_position: first, page_index: 0 }
    }
}

/// Position of a walk over a block cache.
pub struct BlockCacheIntoIterator {
    pub block_cache: BlockCache,
    pub current_position: usize,
    pub page_index: usize,
}

/// Highest position a walk may be at before a step.
pub open spec fn walk_limit() -> int {
    usize::MAX - 0x10_0000
}

impl BlockCacheIntoIterator {
    /// The next block: when the current block's end would reach the end of
    /// its page the walk moves to the next page slot (and ends after the
    /// last), otherwise it advances by the page index times the block size.
    pub fn next(&mut self) -> (r: Option<usize>)
        requires
            old(self).block_cache.pages@.len() == 8,
            old(self).page_index < 8,
            old(self).current_position <= walk_limit(),
        ensures
            final(self).block_cache == old(self).block_cache,
            ({
                let cur = old(self).current_position as int;
                let obj = old(self).block_cache.object_size as int;
                let page_end = (cur - cur % 4096) + 0x1000;
                let idx = old(self).page_index;
                if cur + obj >= page_end {
                    if idx == 7 {
                        r is None && *final(self) == *old(self)
                    } else {
                        &&& final(self).page_index == idx + 1
                        &&& final(self).current_position == old(self).block_cache.pages@[idx + 1]
                        &&& r == Some(final(self).current_position)
                    }
                } else {
                    &&& final(self).page_index == idx
                    &&& final(self).current_position == cur + idx * obj
                    &&& r == Some(final(self).current_position)
                }
            }),
    {
        let cur = self.current_position;
        let obj = self.block_cache.object_size as usize;
        let page_start = cur & !0xFFF;
        proof {
            assert(cur & !0xFFF == cur - cur % 4096) by (bit_vector);
        }
        if cur + obj >= page_start + 0x1000 {
            if self.page_index == PAGES_PER_CACHE - 1 {
                return None;
            }
            self.page_index = self.page_index + 1;
            self.current_position = self.block_cache.pages[self.page_index];
            return Some(self.current_position);
        }
        assert(self.page_index * obj <= 7 * 0xFFFF) by (nonlinear_arith)
            requires
                self.page_index < 8,
                obj <= 0xFFFF,
        ;
        self.current_position = cur + self.page_index * obj;
        Some(self.current_position)
    }
}

/// Heap start-up: a block cache for 16-byte blocks is made from the pool.
/// The start-up itself always succeeds; the cache (or why it could not be
/// made) is returned for the caller to list.
pub fn init(mmap: &mut Mmap) -> (r: Result<BlockCache, Error>)
    requires
        old(mmap).wf(),
    ensures
        final(mmap).wf(),
        r is Err <==> forall|k: int| 0 <= k < 1024 ==> #[trigger] old(mmap).used(k),
        r is Ok ==> r->Ok_0.object_size == 16 && r->Ok_0.pages@.len() == 8,
{
    BlockCache::new(mmap, 16)
}

} // verus!
