//! A packed array of `N` small entries, `G` of them per byte (so each entry
//! is `8 / G` bits wide).
use vstd::prelude::*;

verus! {

/// Width in bits of an entry when `g` entries share a byte.
pub open spec fn entry_bits(g: usize) -> u8 {
    (8usize / g) as u8
}

/// Mask of an entry `bits` wide.
pub open spec fn entry_mask(bits: u8) -> u8 {
    (((1u16 << bits) - 1) as u8)
}

/// The `bits`-wide entry at bit `sh` of byte `b`.
pub open spec fn byte_entry(b: u8, sh: u8, bits: u8) -> u8 {
    (b >> sh) & entry_mask(bits)
}

/// Byte `b` with the entry at bit `sh` replaced by the low bits of `v`.
pub open spec fn byte_with(b: u8, sh: u8, bits: u8, v: u8) -> u8 {
    (b & !(entry_mask(bits) << sh)) | ((v & entry_mask(bits)) << sh)
}

/// Byte `b` with the entry at bit `sh` cleared.
pub open spec fn byte_cleared(b: u8, sh: u8, bits: u8) -> u8 {
    b & !(entry_mask(bits) << sh)
}

/// The granularities: 1, 2, 4 or 8 entries per byte.
pub open spec fn valid_granularity(g: usize) -> bool {
    g == 1 || g == 2 || g == 4 || g == 8
}

/// A packed array of `N` entries, `G` per byte.
pub struct BitMap<const N: usize, const G: usize> {
    bits: Vec<u8>,
}

impl<const N: usize, const G: usize> BitMap<N, G> {
    /// The bytes.
    pub closed spec fn bytes(&self) -> Seq<u8> {
        self.bits@
    }

    /// `N / G` bytes.
    pub closed spec fn wf(&self) -> bool {
        G > 0 && self.bits@.len() == N / G
    }

    /// Bit offset of entry `i` in its byte.
    pub open spec fn shift_of(i: int) -> u8 {
        ((i % G as int) * entry_bits(G) as int) as u8
    }

    /// Entry `i`.
    pub open spec fn entry(&self, i: int) -> u8 {
        byte_entry(self.bytes()[i / G as int], Self::shift_of(i), entry_bits(G))
    }

    /// Whether entry `i` lies in one of the bytes.
    pub open spec fn in_bounds(i: int) -> bool {
        G > 0 && 0 <= i && i / (G as int) < ((N / G) as int)
    }

    /// All entries zero.
    pub fn new() -> (r: Self)
        requires
            G > 0,
        ensures
            r.wf(),
            r.bytes() == Seq::new((N / G) as nat, |i: int| 0u8),
            forall|k: int| Self::in_bounds(k) ==> #[trigger] r.entry(k) == 0,
    {
        let mut bits: Vec<u8> = Vec::new();
        let n = N / G;
        while bits.len() < n
            invariant
                n == N / G,
                bits@.len() <= n,
                forall|i: int| 0 <= i < bits@.len() ==> #[trigger] bits@[i] == 0u8,
            decreases n - bits@.len(),
        {
            bits.push(0);
        }
        assert(bits@ =~= Seq::new((N / G) as nat, |i: int| 0u8));
        let r = Self { bits };
        proof {
            assert forall|k: int| Self::in_bounds(k) implies #[trigger] r.entry(k) == 0 by {
                let sh = Self::shift_of(k);
                let m = entry_mask(entry_bits(G));
                assert(r.bytes()[k / G as int] == 0u8);
                assert((0u8 >> sh) & m == 0) by (bit_vector);
            }
        }
        r
    }

    fn layout(index: usize) -> (r: (usize, u8, u8))
        requires
            valid_granularity(G),
        ensures
            r.0 == index / G,
            r.1 == Self::shift_of(index as int),
            r.2 == entry_bits(G),
            r.1 + r.2 <= 8,
            1 <= r.2 <= 8,
    {
        let bits = (8 / G) as u8;
        assert((index % G) * (bits as usize) + bits <= 8) by (nonlinear_arith)
            requires
                valid_granularity(G),
                bits == 8usize / G,
                index % G < G,
        ;
        let sh = ((index % G) * (bits as usize)) as u8;
        (index / G, sh, bits)
    }

    /// Entry `index`.
    pub fn get(&self, index: usize) -> (r: u8)
        requires
            self.wf(),
            valid_granularity(G),
            Self::in_bounds(index as int),
        ensures
            r == self.entry(index as int),
    {
        let (byte, sh, bits) = Self::layout(index);
        let m = mask_u8(bits);
        (self.bits[byte] >> sh) & m
    }

    /// Sets entry `index` to the low bits of `value`.
    pub fn set(&mut self, index: usize, value: u8)
        requires
            old(self).wf(),
            valid_granularity(G),
            Self::in_bounds(index as int),
        ensures
            final(self).wf(),
            final(self).bytes() == old(self).bytes().update(
                (index / G) as int,
                byte_with(old(self).bytes()[(index / G) as int], Self::shift_of(index as int), entry_bits(G), value),
            ),
            final(self).entry(index as int) == value & entry_mask(entry_bits(G)),
            forall|j: int| Self::in_bounds(j) && j != index ==> #[trigger] final(self).entry(j) == old(self).entry(j),
    {
        self.clear(index);
        let (byte, sh, bits) = Self::layout(index);
        let m = mask_u8(bits);
        let b = self.bits[byte];
        let ghost b0 = old(self).bits@[byte as int];
        proof {
            lemma_clear_then_or(b0, sh, bits, value);
        }
        self.bits.set(byte, b | ((value & m) << sh));
        proof {
            law_entry_round_trip(b0, sh, bits, value);
            assert forall|j: int| Self::in_bounds(j) && j != index implies #[trigger] self.entry(j) == old(self).entry(j) by {
                if j / (G as int) == (index as int) / (G as int) {
                    Self::lemma_shifts_apart(index as int, j);
                    law_entry_independent(b0, sh, bits, value, Self::shift_of(j));
                }
            }
        }
    }

    /// Two entries of one byte occupy separate bit ranges of it.
    proof fn lemma_shifts_apart(i: int, j: int)
        requires
            valid_granularity(G),
            0 <= i,
            0 <= j,
            i != j,
            i / G as int == j / G as int,
        ensures
            Self::shift_of(j) + entry_bits(G) <= 8,
            Self::shift_of(i) + entry_bits(G) <= Self::shift_of(j) || Self::shift_of(j) + entry_bits(G) <= Self::shift_of(i),
    {
        let g = G as int;
        vstd::arithmetic::div_mod::lemma_fundamental_div_mod(i, g);
        vstd::arithmetic::div_mod::lemma_fundamental_div_mod(j, g);
        assert(i % g != j % g);
        let a = i % g;
        let c = j % g;
        let w = entry_bits(G) as int;
        assert(0 <= a < g && 0 <= c < g);
        assert(w * g == 8) by {
            if G == 1 {
                assert(entry_bits(G) == 8);
            } else if G == 2 {
                assert(8usize / G == 4usize) by (nonlinear_arith)
                    requires
                        G == 2usize,
                ;
                assert(entry_bits(G) == 4);
            } else if G == 4 {
                assert(8usize / G == 2usize) by (nonlinear_arith)
                    requires
                        G == 4usize,
                ;
                assert(entry_bits(G) == 2);
            } else {
                assert(8usize / G == 1usize) by (nonlinear_arith)
                    requires
                        G == 8usize,
                ;
                assert(entry_bits(G) == 1);
            }
        }
        assert(a * w + w <= 8 && c * w + w <= 8 && (a * w + w <= c * w || c * w + w <= a * w)) by (nonlinear_arith)
            requires
                0 <= a < g,
                0 <= c < g,
                a != c,
                w * g == 8,
                w >= 1,
        {
            if a < c {
                assert(a * w + w <= c * w);
            } else {
                assert(c * w + w <= a * w);
            }
            assert(a * w + w <= g * w);
            assert(c * w + w <= g * w);
        }
        assert(Self::shift_of(i) as int == a * w);
        assert(Self::shift_of(j) as int == c * w);
    }

    /// Clears entry `index`.
    pub fn clear(&mut self, index: usize)
        requires
            old(self).wf(),
            valid_granularity(G),
            Self::in_bounds(index as int),
        ensures
            final(self).wf(),
            final(self).bytes() == old(self).bytes().update(
                (index / G) as int,
                byte_cleared(old(self).bytes()[(index / G) as int], Self::shift_of(index as int), entry_bits(G)),
            ),
    {
        let (byte, sh, bits) = Self::layout(index);
        let m = mask_u8(bits);
        let b = self.bits[byte];
        self.bits.set(byte, b & !(m << sh));
    }

    /// An iterator over the entries, first to last.
    pub fn into_iter(self) -> (r: BitMapIntoIterator<N, G>)
        ensures
            r.bitmap == self,
            r.index == 0,
    {
        BitMapIntoIterator { bitmap: self, index: 0 }
    }
}

fn mask_u8(bits: u8) -> (r: u8)
    requires
        1 <= bits <= 8,
    ensures
        r == entry_mask(bits),
{
    assert(1 <= (1u16 << bits) <= 256) by (bit_vector)
        requires
            1 <= bits <= 8,
    ;
    ((1u16 << bits) - 1) as u8
}

/// Setting an entry is clearing it and or-ing in the masked value.
proof fn lemma_clear_then_or(b: u8, sh: u8, bits: u8, v: u8)
    requires
        1 <= bits <= 8,
        sh + bits <= 8,
    ensures
        byte_cleared(b, sh, bits) | ((v & entry_mask(bits)) << sh) == byte_with(b, sh, bits, v),
{
}

/// Reading an entry back after setting it gives the value cut to the
/// entry's width.
pub proof fn law_entry_round_trip(b: u8, sh: u8, bits: u8, v: u8)
    requires
        1 <= bits <= 8,
        sh + bits <= 8,
    ensures
        byte_entry(byte_with(b, sh, bits, v), sh, bits) == v & entry_mask(bits),
        byte_entry(byte_cleared(b, sh, bits), sh, bits) == 0,
{
    let m = entry_mask(bits);
    assert(m == ((1u16 << bits) - 1) as u8);
    assert(((((b & !(m << sh)) | ((v & m) << sh)) >> sh) & m) == v & m) by (bit_vector)
        requires
            1 <= bits <= 8,
            sh + bits <= 8,
            m == ((1u16 << bits) - 1) as u8,
    ;
    assert((((b & !(m << sh)) >> sh) & m) == 0) by (bit_vector)
        requires
            1 <= bits <= 8,
            sh + bits <= 8,
            m == ((1u16 << bits) - 1) as u8,
    ;
}

/// Setting or clearing one entry leaves the other entries of its byte alone.
pub proof fn law_entry_independent(b: u8, sh: u8, bits: u8, v: u8, sh2: u8)
    requires
        1 <= bits <= 8,
        sh + bits <= 8,
        sh2 + bits <= 8,
        sh + bits <= sh2 || sh2 + bits <= sh,
    ensures
        byte_entry(byte_with(b, sh, bits, v), sh2, bits) == byte_entry(b, sh2, bits),
        byte_entry(byte_cleared(b, sh, bits), sh2, bits) == byte_entry(b, sh2, bits),
{
    let m = entry_mask(bits);
    assert(m == ((1u16 << bits) - 1) as u8);
    assert(((((b & !(m << sh)) | ((v & m) << sh)) >> sh2) & m) == ((b >> sh2) & m)) by (bit_vector)
        requires
            1 <= bits <= 8,
            sh + bits <= 8,
            sh2 + bits <= 8,
            sh + bits <= sh2 || sh2 + bits <= sh,
            m == ((1u16 << bits) - 1) as u8,
    ;
    assert((((b & !(m << sh)) >> sh2) & m) == ((b >> sh2) & m)) by (bit_vector)
        requires
            1 <= bits <= 8,
            sh + bits <= 8,
            sh2 + bits <= 8,
            sh + bits <= sh2 || sh2 + bits <= sh,
            m == ((1u16 << bits) - 1) as u8,
    ;
}

/// Walks the entries of a bitmap in order.
pub struct BitMapIntoIterator<const N: usize, const G: usize> {
    pub bitmap: BitMap<N, G>,
    pub index: usize,
}

impl<const N: usize, const G: usize> BitMapIntoIterator<N, G> {
    /// The next entry, or `None` after the last one.
    pub fn next(&mut self) -> (r: Option<u8>)
        requires
            old(self).bitmap.wf(),
            valid_granularity(G),
            (old(self).index as int) < N ==> BitMap::<N, G>::in_bounds(old(self).index as int),
        ensures
            final(self).bitmap == old(self).bitmap,
            old(self).index >= N ==> r is None && final(self).index == old(self).index,
            (old(self).index as int) < N ==> r == Some(old(self).bitmap.entry(old(self).index as int))
                && final(self).index == old(self).index + 1,
    {
        if self.index >= N {
            return None;
        }
        let res = self.bitmap.get(self.index);
        self.index = self.index + 1;
        Some(res)
    }
}

} // verus!
