//! Buddy allocator over the 32-bit physical address space, 4 KiB granularity.
//!
//! Order `o` describes blocks of `2^o` pages; order `o` has `2^(20 - o)` slots.
//! A slot holds `Some(node)` exactly when its block is free, and `node` links
//! the block into the doubly-linked free list of its order.
use vstd::prelude::*;
use vstd::arithmetic::power2::{pow2, lemma_pow2_pos, lemma_pow2_unfold, lemma_pow2_adds, lemma2_to64};
use vstd::arithmetic::div_mod::{
    lemma_div_denominator, lemma_fundamental_div_mod, lemma_div_by_multiple,
    lemma_div_pos_is_pos, lemma_fundamental_div_mod_converse_div,
};
use vstd::arithmetic::mul::{lemma_mul_strictly_positive, lemma_mul_is_associative, lemma_mul_is_commutative};
use crate::arch::x86::vmm::page::PAGE_SIZE;

verus! {

/// Number of orders in the buddy tree.
pub const ORDERS: usize = 20;

/// Largest index that fits in a 20-bit link field.
const U20_MAX: u32 = 0xF_FFFF;

// ---------------------------------------------------------------------------
// Arithmetic model of the tree
// ---------------------------------------------------------------------------

/// `2^o` as an integer.
pub open spec fn pw(o: int) -> int {
    pow2(o as nat) as int
}

/// Number of slots at order `o`.
pub open spec fn slots(o: int) -> int {
    pw(20 - o)
}

/// Number of pages in the whole address space.
pub open spec fn total_pages() -> int {
    pw(20)
}

/// Index of the order-`o` block that contains page `p`.
pub open spec fn blk(o: int, p: int) -> int {
    p / pw(o)
}

/// The pages of block `i` at order `o`.
pub open spec fn block_pages(o: int, i: int) -> Set<int> {
    Set::new(|p: int| 0 <= p < total_pages() && blk(o, p) == i)
}

/// Size in bytes of a block at order `o`.
pub open spec fn block_bytes(o: int) -> int {
    pw(o) * PAGE_SIZE as int
}

/// `2^o` is positive and doubles from one order to the next.
pub proof fn lemma_pw(o: int)
    requires
        0 <= o,
    ensures
        pw(o) > 0,
        pw(o + 1) == 2 * pw(o),
{
    lemma_pow2_pos(o as nat);
    lemma_pow2_unfold((o + 1) as nat);
}

/// The powers of two the allocator uses, spelled out.
pub proof fn lemma_pw_values()
    ensures
        pw(0) == 1,
        pw(1) == 2,
        pw(19) == 0x8_0000,
        pw(20) == 0x10_0000,
        total_pages() == 0x10_0000,
{
    lemma2_to64();
}

/// `2^a * 2^b == 2^(a + b)`.
pub proof fn lemma_pw_adds(a: int, b: int)
    requires
        0 <= a,
        0 <= b,
    ensures
        pw(a) * pw(b) == pw(a + b),
{
    lemma_pow2_adds(a as nat, b as nat);
}

/// Orders up to 20 have at most `2^20` slots, and a block never exceeds `2^19` pages.
pub proof fn lemma_pw_bounds(o: int)
    requires
        0 <= o <= 20,
    ensures
        1 <= pw(o) <= 0x10_0000,
        o <= 19 ==> pw(o) <= 0x8_0000,
        1 <= slots(o) <= 0x10_0000,
        pw(o) * slots(o) == total_pages(),
{
    lemma_pw_values();
    lemma_pw(o);
    lemma_pw(20 - o);
    lemma_pw_adds(o, 20 - o);
    assert(pw(o) <= pw(o) * slots(o)) by (nonlinear_arith)
        requires
            slots(o) >= 1,
            pw(o) >= 1,
    ;
    assert(slots(o) <= pw(o) * slots(o)) by (nonlinear_arith)
        requires
            slots(o) >= 1,
            pw(o) >= 1,
    ;
    if o <= 19 {
        lemma_pw(19 - o);
        lemma_pw_adds(o, 19 - o);
        assert(pw(o) <= pw(o) * pw(19 - o)) by (nonlinear_arith)
            requires
                pw(19 - o) >= 1,
                pw(o) >= 1,
        ;
    }
}

/// The block at order `o + 1` containing `p` is the parent of the block at order `o`.
pub proof fn lemma_blk_succ(o: int, p: int)
    requires
        0 <= o,
        0 <= p,
    ensures
        blk(o + 1, p) == blk(o, p) / 2,
        blk(o, p) >= 0,
{
    lemma_pw(o);
    lemma_div_denominator(p, pw(o), 2);
    lemma_div_pos_is_pos(p, pw(o));
}

/// Every page of the address space lies in a slot of every order.
pub proof fn lemma_blk_bound(o: int, p: int)
    requires
        0 <= o <= 20,
        0 <= p < total_pages(),
    ensures
        0 <= blk(o, p) < slots(o),
{
    lemma_pw_bounds(o);
    lemma_div_pos_is_pos(p, pw(o));
    lemma_fundamental_div_mod(p, pw(o));
    if blk(o, p) >= slots(o) {
        assert(pw(o) * blk(o, p) >= pw(o) * slots(o)) by (nonlinear_arith)
            requires
                blk(o, p) >= slots(o),
                pw(o) > 0,
        ;
    }
}

/// Page `p` lies in block `i` at order `o` exactly when `i * 2^o <= p < (i + 1) * 2^o`.
pub proof fn lemma_blk_range(o: int, p: int, i: int)
    requires
        0 <= o,
        0 <= p,
    ensures
        blk(o, p) == i <==> (i * pw(o) <= p && p < (i + 1) * pw(o)),
{
    lemma_pw(o);
    lemma_fundamental_div_mod(p, pw(o));
    if i * pw(o) <= p && p < (i + 1) * pw(o) {
        assert((i + 1) * pw(o) == i * pw(o) + pw(o)) by (nonlinear_arith);
        lemma_fundamental_div_mod_converse_div(p, pw(o), i, p - i * pw(o));
    }
    if blk(o, p) == i {
        assert((i + 1) * pw(o) == i * pw(o) + pw(o)) by (nonlinear_arith);
        assert(pw(o) * blk(o, p) == i * pw(o)) by (nonlinear_arith)
            requires
                blk(o, p) == i,
        ;
    }
}

/// The first page of block `i` at order `o`.
pub proof fn lemma_blk_first(o: int, i: int)
    requires
        0 <= o <= 20,
        0 <= i < slots(o),
    ensures
        blk(o, i * pw(o)) == i,
        0 <= i * pw(o) < total_pages(),
        block_pages(o, i).contains(i * pw(o)),
{
    lemma_pw_bounds(o);
    lemma_blk_range(o, i * pw(o), i);
    assert((i + 1) * pw(o) == i * pw(o) + pw(o)) by (nonlinear_arith);
    assert(0 <= i * pw(o)) by (nonlinear_arith)
        requires
            0 <= i,
            pw(o) > 0,
    ;
    assert(i * pw(o) < slots(o) * pw(o)) by (nonlinear_arith)
        requires
            0 <= i < slots(o),
            pw(o) > 0,
    ;
    assert(blk(o, i * pw(o)) == i);
    assert(block_pages(o, i).contains(i * pw(o)));
}

/// Two pages in one block share every ancestor of that block.
pub proof fn lemma_blk_same_ancestor(s: int, o: int, p: int, q: int)
    requires
        0 <= s <= o,
        0 <= p,
        0 <= q,
        blk(s, p) == blk(s, q),
    ensures
        blk(o, p) == blk(o, q),
    decreases o - s,
{
    if o > s {
        lemma_blk_same_ancestor(s, o - 1, p, q);
        lemma_blk_succ(o - 1, p);
        lemma_blk_succ(o - 1, q);
    }
}

/// The children of block `i` at order `o + 1` are blocks `2i` and `2i + 1` at order `o`.
pub proof fn lemma_blk_children(o: int, p: int, i: int)
    requires
        0 <= o,
        0 <= p,
    ensures
        blk(o + 1, p) == i <==> (blk(o, p) == 2 * i || blk(o, p) == 2 * i + 1),
{
    lemma_blk_succ(o, p);
}

// ---------------------------------------------------------------------------
// Free-list links
// ---------------------------------------------------------------------------

/// The 21-bit link encoding of an optional index.
pub open spec fn encode_spec(val: Option<usize>) -> Option<u64> {
    match val {
        Some(v) => if v <= 0xF_FFFF { Some((v + 1) as u64) } else { None },
        None => Some(0),
    }
}

/// Reading back a 21-bit link field from the low bits of `bits`.
pub open spec fn decode_spec(bits: u64) -> Option<usize> {
    let v = bits & 0x1F_FFFF;
    if v == 0 { None } else { Some((v - 1) as usize) }
}

/// Whether an optional index can be stored in a link field.
pub open spec fn encodable(val: Option<usize>) -> bool {
    match val {
        Some(v) => v <= 0xF_FFFF,
        None => true,
    }
}

/// A packed free-list link: bit 63 always set, bits 41..=21 the encoded
/// previous index, bits 20..=0 the encoded next index.
#[derive(Clone, Copy, Debug, PartialEq, Eq, Structural)]
pub struct Node(u64);

proof fn lemma_pack(p: u64, n: u64)
    requires
        p <= 0x10_0000,
        n <= 0x10_0000,
    ensures
        ((1u64 << 63) | (p << 21) | n) & 0x1F_FFFF == n,
        (((1u64 << 63) | (p << 21) | n) >> 21) & 0x1F_FFFF == p,
        (1u64 << 63) | (p << 21) | n != 0,
{
    assert(((1u64 << 63) | (p << 21) | n) & 0x1F_FFFF == n) by (bit_vector)
        requires
            n <= 0x10_0000,
    ;
    assert((((1u64 << 63) | (p << 21) | n) >> 21) & 0x1F_FFFF == p) by (bit_vector)
        requires
            p <= 0x10_0000,
            n <= 0x10_0000,
    ;
    assert((1u64 << 63) | (p << 21) | n != 0) by (bit_vector);
}

impl Node {
    /// The previous index this link holds.
    pub closed spec fn prev_link(self) -> Option<usize> {
        decode_spec(self.0 >> 21)
    }

    /// The next index this link holds.
    pub closed spec fn next_link(self) -> Option<usize> {
        decode_spec(self.0)
    }

    /// Builds a link from optional neighbour indices; `None` when an index does
    /// not fit in 20 bits.
    pub fn new(prev: Option<usize>, next: Option<usize>) -> (r: Option<Self>)
        ensures
            r.is_some() == (encodable(prev) && encodable(next)),
            r.is_some() ==> r.unwrap().prev_link() == prev && r.unwrap().next_link() == next,
    {
        let p = match Self::encode(prev) {
            Some(p) => p,
            None => return None,
        };
        let n = match Self::encode(next) {
            Some(n) => n,
            None => return None,
        };
        let raw = (1u64 << 63) | (p << 21) | n;
        proof {
            lemma_pack(p, n);
        }
        Some(Node(raw))
    }

    /// Encodes an optional index as `index + 1`, or `0` for `None`.
    fn encode(val: Option<usize>) -> (r: Option<u64>)
        ensures
            r == encode_spec(val),
    {
        match val {
            Some(v) if v <= U20_MAX as usize => Some((v + 1) as u64),
            None => Some(0),
            _ => None,
        }
    }

    /// Decodes the low 21 bits of `bits`.
    fn decode(bits: u64) -> (r: Option<usize>)
        ensures
            r == decode_spec(bits),
    {
        assert(bits & 0x1F_FFFF <= 0x1F_FFFF) by (bit_vector);
        let v = (bits & 0x1F_FFFF) as usize;
        if v == 0 {
            None
        } else {
            Some(v - 1)
        }
    }

    /// Index of the next free block in this order's list.
    pub fn next(self) -> (r: Option<usize>)
        ensures
            r == self.next_link(),
    {
        Self::decode(self.0)
    }

    /// Index of the previous free block in this order's list.
    pub fn prev(self) -> (r: Option<usize>)
        ensures
            r == self.prev_link(),
    {
        Self::decode(self.0 >> 21)
    }
}

// ---------------------------------------------------------------------------
// Free lists
// ---------------------------------------------------------------------------

/// First element of a list, if any.
pub open spec fn seq_head(list: Seq<usize>) -> Option<usize> {
    if list.len() == 0 { None } else { Some(list[0]) }
}

/// The element before position `k`.
pub open spec fn prev_in(list: Seq<usize>, k: int) -> Option<usize> {
    if k <= 0 { None } else { Some(list[k - 1]) }
}

/// The element after position `k`.
pub open spec fn next_in(list: Seq<usize>, k: int) -> Option<usize> {
    if k + 1 >= list.len() { None } else { Some(list[k + 1]) }
}

/// The slot at position `k` of `list` links to its neighbours in `list`.
pub open spec fn links_ok(s: Option<Node>, list: Seq<usize>, k: int) -> bool {
    &&& s.is_some()
    &&& s.unwrap().prev_link() == prev_in(list, k)
    &&& s.unwrap().next_link() == next_in(list, k)
}

/// `slots` and `head` store exactly the doubly-linked list `list`.
pub open spec fn list_wf(slots: Seq<Option<Node>>, list: Seq<usize>, head: Option<usize>) -> bool {
    &&& list.no_duplicates()
    &&& head == seq_head(list)
    &&& forall|k: int| 0 <= k < list.len() ==> (#[trigger] list[k] as int) < slots.len()
    &&& forall|i: int|
        0 <= i < slots.len() ==> ((#[trigger] slots[i]).is_some() <==> list.contains(i as usize))
    &&& forall|k: int| #![trigger list[k]] 0 <= k < list.len() ==> links_ok(slots[list[k] as int], list, k)
}

#[verifier::rlimit(60)]
#[verifier::spinoff_prover]
proof fn lemma_list_add(
    slots: Seq<Option<Node>>,
    list: Seq<usize>,
    head: Option<usize>,
    i: usize,
    slots2: Seq<Option<Node>>,
)
    requires
        list_wf(slots, list, head),
        slots.len() <= 0x10_0000,
        (i as int) < slots.len(),
        slots[i as int].is_none(),
        slots2.len() == slots.len(),
        links_ok(slots2[i as int], seq![i] + list, 0),
        head.is_some() ==> slots2[head.unwrap() as int].is_some()
            && slots2[head.unwrap() as int].unwrap().prev_link() == Some(i)
            && slots2[head.unwrap() as int].unwrap().next_link() == slots[head.unwrap() as int].unwrap().next_link(),
        forall|j: int|
            0 <= j < slots.len() && j != i && (head.is_none() || j != head.unwrap()) ==> slots2[j] == slots[j],
    ensures
        list_wf(slots2, seq![i] + list, Some(i)),
{
    let list2 = seq![i] + list;
    assert(!list.contains(i));
    assert forall|a: int, b: int| 0 <= a < list2.len() && 0 <= b < list2.len() && a != b implies list2[a] != list2[b] by {
        if a == 0 {
            assert(list2[b] == list[b - 1]);
        } else if b == 0 {
            assert(list2[a] == list[a - 1]);
        } else {
            assert(list2[a] == list[a - 1]);
            assert(list2[b] == list[b - 1]);
        }
    }
    assert forall|k: int| 0 <= k < list2.len() implies (#[trigger] list2[k] as int) < slots2.len() by {
        if k > 0 {
            assert(list2[k] == list[k - 1]);
        }
    }
    assert forall|j: int| 0 <= j < slots2.len() implies ((#[trigger] slots2[j]).is_some() <==> list2.contains(j as usize)) by {
        if j == i {
            assert(list2[0] == i);
        } else {
            if head.is_some() && j == head.unwrap() {
                assert(list[0] == j);
                assert(list2[1] == j);
            } else {
                assert(slots2[j] == slots[j]);
            }
            if list.contains(j as usize) {
                let k = choose|k: int| 0 <= k < list.len() && list[k] == j as usize;
                assert(list2[k + 1] == j as usize);
            }
            if list2.contains(j as usize) {
                let k = choose|k: int| 0 <= k < list2.len() && list2[k] == j as usize;
                assert(list2[0] == i);
                assert(k > 0);
                assert(list[k - 1] == j as usize);
            }
        }
    }
    assert forall|k: int| #![trigger list2[k]] 0 <= k < list2.len() implies links_ok(slots2[list2[k] as int], list2, k) by {
        if k > 0 {
            let e = list[k - 1];
            assert(list2[k] == e);
            assert(links_ok(slots[e as int], list, k - 1));
            if k == 1 {
                assert(head == Some(e));
            } else {
                assert(list[0] != e);
                assert(e != i);
                assert(slots2[e as int] == slots[e as int]);
                assert(list2[k - 1] == list[k - 2]);
            }
            if k + 1 < list2.len() {
                assert(list2[k + 1] == list[k]);
            }
        }
    }
}

#[verifier::rlimit(80)]
#[verifier::spinoff_prover]
proof fn lemma_list_remove(
    slots: Seq<Option<Node>>,
    list: Seq<usize>,
    head: Option<usize>,
    pos: int,
    slots2: Seq<Option<Node>>,
    head2: Option<usize>,
)
    requires
        list_wf(slots, list, head),
        slots.len() <= 0x10_0000,
        0 <= pos < list.len(),
        slots2.len() == slots.len(),
        slots2[list[pos] as int].is_none(),
        pos > 0 ==> head2 == head,
        pos == 0 ==> head2 == next_in(list, 0),
        pos > 0 ==> slots2[list[pos - 1] as int].is_some()
            && slots2[list[pos - 1] as int].unwrap().prev_link() == prev_in(list, pos - 1)
            && slots2[list[pos - 1] as int].unwrap().next_link() == next_in(list, pos),
        pos + 1 < list.len() ==> slots2[list[pos + 1] as int].is_some()
            && slots2[list[pos + 1] as int].unwrap().prev_link() == prev_in(list, pos)
            && slots2[list[pos + 1] as int].unwrap().next_link() == next_in(list, pos + 1),
        forall|j: int|
            0 <= j < slots.len() && j != list[pos] as int
                && (pos == 0 || j != list[pos - 1] as int)
                && (pos + 1 >= list.len() || j != list[pos + 1] as int)
                ==> slots2[j] == slots[j],
    ensures
        list_wf(slots2, list.remove(pos), head2),
{
    let list2 = list.remove(pos);
    let i = list[pos];
    assert(list2.len() == list.len() - 1);
    assert forall|k: int| 0 <= k < list2.len() implies #[trigger] list2[k] == (if k < pos { list[k] } else { list[k + 1] }) by {}
    assert forall|a: int, b: int| 0 <= a < list2.len() && 0 <= b < list2.len() && a != b implies list2[a] != list2[b] by {
        let a0 = if a < pos { a } else { a + 1 };
        let b0 = if b < pos { b } else { b + 1 };
        assert(list2[a] == list[a0]);
        assert(list2[b] == list[b0]);
    }
    assert forall|k: int| 0 <= k < list2.len() implies (#[trigger] list2[k] as int) < slots2.len() by {
        let k0 = if k < pos { k } else { k + 1 };
        assert(list2[k] == list[k0]);
    }
    assert(head2 == seq_head(list2)) by {
        if pos == 0 {
            if list2.len() > 0 {
                assert(list2[0] == list[1]);
            }
        } else {
            assert(list2[0] == list[0]);
        }
    }
    assert forall|j: int| 0 <= j < slots2.len() implies ((#[trigger] slots2[j]).is_some() <==> list2.contains(j as usize)) by {
        if j == i as int {
            if list2.contains(j as usize) {
                let k = choose|k: int| 0 <= k < list2.len() && list2[k] == j as usize;
                let k0 = if k < pos { k } else { k + 1 };
                assert(list[k0] == list[pos]);
            }
        } else {
            if list.contains(j as usize) {
                let k = choose|k: int| 0 <= k < list.len() && list[k] == j as usize;
                assert(k != pos);
                let k2 = if k < pos { k } else { k - 1 };
                assert(list2[k2] == j as usize);
                assert(list2.contains(j as usize));
            }
            if list2.contains(j as usize) {
                let k = choose|k: int| 0 <= k < list2.len() && list2[k] == j as usize;
                let k0 = if k < pos { k } else { k + 1 };
                assert(list[k0] == j as usize);
                assert(list.contains(j as usize));
            }
            if pos > 0 && j == list[pos - 1] as int {
                assert(list.contains(j as usize));
            } else if pos + 1 < list.len() && j == list[pos + 1] as int {
                assert(list.contains(j as usize));
            } else {
                assert(slots2[j] == slots[j]);
            }
        }
    }
    assert forall|k: int| #![trigger list2[k]] 0 <= k < list2.len() implies links_ok(slots2[list2[k] as int], list2, k) by {
        let k0 = if k < pos { k } else { k + 1 };
        let e = list[k0];
        assert(list2[k] == e);
        assert(links_ok(slots[e as int], list, k0));
        if k0 == pos - 1 {
            if k > 0 {
                assert(list2[k - 1] == list[k0 - 1]);
            }
            if k + 1 < list2.len() {
                assert(list2[k + 1] == list[pos + 1]);
            }
        } else if k0 == pos + 1 {
            if k > 0 {
                assert(list2[k - 1] == list[pos - 1]);
            }
            if k + 1 < list2.len() {
                assert(list2[k + 1] == list[k0 + 1]);
            }
        } else {
            assert(e != i);
            assert(slots2[e as int] == slots[e as int]);
            if k > 0 {
                let p0 = if k - 1 < pos { k - 1 } else { k };
                assert(list2[k - 1] == list[p0]);
                assert(p0 == k0 - 1);
            }
            if k + 1 < list2.len() {
                let n0 = if k + 1 < pos { k + 1 } else { k + 2 };
                assert(list2[k + 1] == list[n0]);
                assert(n0 == k0 + 1);
            }
        }
    }
}

// ---------------------------------------------------------------------------
// Occupancy: which blocks are free, and which pages they cover
// ---------------------------------------------------------------------------

/// Every order has its full number of slots.
pub open spec fn occ_shape(occ: Seq<Seq<bool>>) -> bool {
    &&& occ.len() == 20
    &&& forall|o: int| 0 <= o < 20 ==> (#[trigger] occ[o]).len() == slots(o)
}

/// Some free block covers page `p`.
pub open spec fn covered(occ: Seq<Seq<bool>>, p: int) -> bool {
    exists|o: int| 0 <= o < 20 && #[trigger] occ[o][blk(o, p)]
}

/// No page is covered by two free blocks.
pub open spec fn disjoint(occ: Seq<Seq<bool>>) -> bool {
    forall|p: int, o1: int, o2: int|
        0 <= p < total_pages() && 0 <= o1 < 20 && 0 <= o2 < 20 && o1 != o2
            && #[trigger] occ[o1][blk(o1, p)] ==> !#[trigger] occ[o2][blk(o2, p)]
}

/// The pages covered by free blocks.
pub open spec fn free_pages_of(occ: Seq<Seq<bool>>) -> Set<int> {
    Set::new(|p: int| 0 <= p < total_pages() && covered(occ, p))
}

/// Marking a free block as used removes exactly its pages.
proof fn lemma_flip_off(occ: Seq<Seq<bool>>, o: int, i: int)
    requires
        occ_shape(occ),
        disjoint(occ),
        0 <= o < 20,
        0 <= i < slots(o),
        occ[o][i],
    ensures
        occ_shape(occ.update(o, occ[o].update(i, false))),
        disjoint(occ.update(o, occ[o].update(i, false))),
        free_pages_of(occ.update(o, occ[o].update(i, false))) == free_pages_of(occ).difference(
            block_pages(o, i),
        ),
{
    let occ2 = occ.update(o, occ[o].update(i, false));
    assert forall|o1: int, x: int| 0 <= o1 < 20 && 0 <= x < slots(o1) && #[trigger] occ2[o1][x] implies occ[o1][x] by {}
    assert forall|p: int, o1: int, o2: int|
        0 <= p < total_pages() && 0 <= o1 < 20 && 0 <= o2 < 20 && o1 != o2
            && #[trigger] occ2[o1][blk(o1, p)] implies !#[trigger] occ2[o2][blk(o2, p)] by {
        lemma_blk_bound(o1, p);
        lemma_blk_bound(o2, p);
        assert(occ[o1][blk(o1, p)]);
        if occ2[o2][blk(o2, p)] {
            assert(occ[o2][blk(o2, p)]);
        }
    }
    assert forall|p: int| #[trigger] free_pages_of(occ2).contains(p) == free_pages_of(occ).difference(block_pages(o, i)).contains(p) by {
        if 0 <= p < total_pages() {
            lemma_blk_bound(o, p);
            if covered(occ2, p) {
                let w = choose|w: int| 0 <= w < 20 && #[trigger] occ2[w][blk(w, p)];
                lemma_blk_bound(w, p);
                assert(occ[w][blk(w, p)]);
                if blk(o, p) == i {
                    assert(w != o);
                    assert(occ[o][blk(o, p)]);
                    assert(false);
                }
            }
            if covered(occ, p) && blk(o, p) != i {
                let w = choose|w: int| 0 <= w < 20 && #[trigger] occ[w][blk(w, p)];
                lemma_blk_bound(w, p);
                assert(occ2[w][blk(w, p)]);
            }
        }
    }
    assert(free_pages_of(occ2) =~= free_pages_of(occ).difference(block_pages(o, i)));
}

/// Marking a block whose pages are all used as free adds exactly its pages.
proof fn lemma_flip_on(occ: Seq<Seq<bool>>, o: int, i: int)
    requires
        occ_shape(occ),
        disjoint(occ),
        0 <= o < 20,
        0 <= i < slots(o),
        block_pages(o, i).disjoint(free_pages_of(occ)),
    ensures
        !occ[o][i],
        occ_shape(occ.update(o, occ[o].update(i, true))),
        disjoint(occ.update(o, occ[o].update(i, true))),
        free_pages_of(occ.update(o, occ[o].update(i, true))) == free_pages_of(occ).union(
            block_pages(o, i),
        ),
{
    let occ2 = occ.update(o, occ[o].update(i, true));
    lemma_blk_first(o, i);
    let first = i * pw(o);
    if occ[o][i] {
        assert(occ[o][blk(o, first)]);
        assert(covered(occ, first));
        assert(free_pages_of(occ).contains(first));
        assert(false);
    }
    assert forall|p: int, o1: int, o2: int|
        0 <= p < total_pages() && 0 <= o1 < 20 && 0 <= o2 < 20 && o1 != o2
            && #[trigger] occ2[o1][blk(o1, p)] implies !#[trigger] occ2[o2][blk(o2, p)] by {
        lemma_blk_bound(o1, p);
        lemma_blk_bound(o2, p);
        if blk(o, p) == i {
            assert(block_pages(o, i).contains(p));
            assert(!free_pages_of(occ).contains(p));
            assert(!covered(occ, p));
            if o1 != o {
                assert(occ[o1][blk(o1, p)]);
            }
            if o2 != o && occ2[o2][blk(o2, p)] {
                assert(occ[o2][blk(o2, p)]);
            }
        } else {
            assert(occ[o1][blk(o1, p)]);
            if occ2[o2][blk(o2, p)] {
                assert(occ[o2][blk(o2, p)]);
            }
        }
    }
    assert forall|p: int| #[trigger] free_pages_of(occ2).contains(p) == free_pages_of(occ).union(block_pages(o, i)).contains(p) by {
        if 0 <= p < total_pages() {
            lemma_blk_bound(o, p);
            if blk(o, p) == i {
                assert(occ2[o][blk(o, p)]);
            } else {
                if covered(occ2, p) {
                    let w = choose|w: int| 0 <= w < 20 && #[trigger] occ2[w][blk(w, p)];
                    lemma_blk_bound(w, p);
                    assert(occ[w][blk(w, p)]);
                }
                if covered(occ, p) {
                    let w = choose|w: int| 0 <= w < 20 && #[trigger] occ[w][blk(w, p)];
                    lemma_blk_bound(w, p);
                    assert(occ2[w][blk(w, p)]);
                }
            }
        }
    }
    assert(free_pages_of(occ2) =~= free_pages_of(occ).union(block_pages(o, i)));
}

// ---------------------------------------------------------------------------
// The allocator
// ---------------------------------------------------------------------------

/// A buddy allocator over the 4 GiB address space with page granularity.
pub struct PageAllocator {
    /// `orders[o][i]` is `Some` exactly when block `i` of order `o` is free.
    orders: Vec<Vec<Option<Node>>>,
    /// Head of each order's free list.
    orders_head: Vec<Option<usize>>,
    /// The free list of each order, head first.
    lists: Ghost<Seq<Seq<usize>>>,
}

/// Occupancy of a slot array.
pub open spec fn occ_row(v: Seq<Option<Node>>) -> Seq<bool> {
    Seq::new(v.len(), |i: int| v[i].is_some())
}

impl PageAllocator {
    /// Which blocks are free, order by order.
    pub closed spec fn occ(&self) -> Seq<Seq<bool>> {
        Seq::new(self.orders@.len(), |o: int| occ_row(self.orders@[o]@))
    }

    /// The pages (page index `p` covers bytes `p * 4096 .. (p + 1) * 4096`)
    /// that are currently free.
    pub closed spec fn free_pages(&self) -> Set<int> {
        free_pages_of(self.occ())
    }

    /// Whether block `i` of order `o` is currently free as a whole block.
    pub closed spec fn is_free_block(&self, o: int, i: int) -> bool {
        self.orders@[o]@[i].is_some()
    }

    /// The allocator's internal structure is consistent.
    pub closed spec fn wf(&self) -> bool {
        &&& self.orders@.len() == 20
        &&& self.orders_head@.len() == 20
        &&& self.lists@.len() == 20
        &&& forall|o: int| 0 <= o < 20 ==> (#[trigger] self.orders@[o])@.len() == slots(o)
        &&& forall|o: int|
            #![trigger self.lists@[o]]
            0 <= o < 20 ==> list_wf(self.orders@[o]@, self.lists@[o], self.orders_head@[o])
        &&& disjoint(self.occ())
    }

    proof fn lemma_wf_shape(&self)
        requires
            self.wf(),
        ensures
            occ_shape(self.occ()),
            forall|o: int, i: int|
                0 <= o < 20 && 0 <= i < slots(o) ==> (#[trigger] self.occ()[o][i]) == self.orders@[o]@[i].is_some(),
    {
        assert forall|o: int| 0 <= o < 20 implies (#[trigger] self.occ()[o]).len() == slots(o) by {
            assert(self.orders@[o]@.len() == slots(o));
        }
    }

    /// Inserts a free block at the head of its order's free list.
    fn node_add(&mut self, index_node: usize, index_order: usize)
        requires
            old(self).wf(),
            index_order < 20,
            (index_node as int) < slots(index_order as int),
            block_pages(index_order as int, index_node as int).disjoint(old(self).free_pages()),
        ensures
            final(self).wf(),
            final(self).occ() == old(self).occ().update(
                index_order as int,
                old(self).occ()[index_order as int].update(index_node as int, true),
            ),
            final(self).free_pages() == old(self).free_pages().union(
                block_pages(index_order as int, index_node as int),
            ),
            final(self).orders_head@[index_order as int] == Some(index_node),
            forall|o: int| 0 <= o < 20 && o != index_order ==> final(self).orders_head@[o] == old(self).orders_head@[o],
            final(self).free_list(index_order as int) == seq![index_node] + old(self).free_list(index_order as int),
            forall|o: int| 0 <= o < 20 && o != index_order ==> #[trigger] final(self).free_list(o) == old(self).free_list(o),
    {
        let ghost o = index_order as int;
        let ghost i = index_node as int;
        proof {
            self.lemma_wf_shape();
            lemma_flip_on(self.occ(), o, i);
            lemma_pw_bounds(o);
        }
        let ghost old_slots = self.orders@[o]@;
        let ghost list = self.lists@[o];
        let head = self.orders_head[index_order];
        let node = Node::new(None, head);
        if let Some(prev_index) = head {
            assert(list.contains(prev_index)) by {
                assert(list[0] == prev_index);
            }
            let prev = self.orders[index_order][prev_index];
            let prev_next = prev.unwrap().next();
            self.orders[index_order][prev_index] = Node::new(Some(index_node), prev_next);
        }
        self.orders[index_order][index_node] = node;
        self.orders_head.set(index_order, Some(index_node));
        proof {
            let new_slots = self.orders@[o]@;
            if head.is_some() {
                assert(head.unwrap() != index_node);
            }
            lemma_list_add(old_slots, list, head, index_node, new_slots);
            self.lists@ = self.lists@.update(o, seq![index_node] + list);
            assert(occ_row(new_slots) =~= occ_row(old_slots).update(i, true));
            assert(self.occ() =~= old(self).occ().update(o, old(self).occ()[o].update(i, true)));
        }
    }

    /// Unlinks a free block from its order's free list and marks it used.
    fn node_remove(&mut self, index_node: usize, index_order: usize)
        requires
            old(self).wf(),
            index_order < 20,
            (index_node as int) < slots(index_order as int),
            old(self).is_free_block(index_order as int, index_node as int),
        ensures
            final(self).wf(),
            final(self).occ() == old(self).occ().update(
                index_order as int,
                old(self).occ()[index_order as int].update(index_node as int, false),
            ),
            final(self).free_pages() == old(self).free_pages().difference(
                block_pages(index_order as int, index_node as int),
            ),
            forall|o: int| 0 <= o < 20 && o != index_order ==> final(self).orders_head@[o] == old(self).orders_head@[o],
            final(self).free_list(index_order as int) == old(self).free_list(index_order as int).remove(
                old(self).free_list(index_order as int).index_of(index_node),
            ),
            forall|o: int| 0 <= o < 20 && o != index_order ==> #[trigger] final(self).free_list(o) == old(self).free_list(o),
    {
        let ghost o = index_order as int;
        let ghost i = index_node as int;
        proof {
            self.lemma_wf_shape();
            lemma_flip_off(self.occ(), o, i);
            lemma_pw_bounds(o);
        }
        let ghost old_slots = self.orders@[o]@;
        let ghost list = self.lists@[o];
        let ghost pos = list.index_of(index_node);
        assert(list.contains(index_node));
        assert(list[pos] == index_node);
        assert(links_ok(old_slots[i], list, pos));
        let node = self.orders[index_order][index_node];
        self.orders[index_order][index_node] = None;
        let node = node.unwrap();
        let node_prev = node.prev();
        let node_next = node.next();
        match node_prev {
            Some(index) => {
                assert(list[pos - 1] == index);
                assert(links_ok(old_slots[index as int], list, pos - 1));
                let prev = self.orders[index_order][index].unwrap();
                let prev_prev = prev.prev();
                self.orders[index_order][index] = Node::new(prev_prev, node_next);
            },
            None => {
                self.orders_head.set(index_order, node_next);
            },
        }
        if let Some(index) = node_next {
            assert(list[pos + 1] == index);
            assert(links_ok(old_slots[index as int], list, pos + 1));
            let next = self.orders[index_order][index].unwrap();
            let next_next = next.next();
            self.orders[index_order][index] = Node::new(node_prev, next_next);
        }
        proof {
            let new_slots = self.orders@[o]@;
            lemma_list_remove(old_slots, list, old(self).orders_head@[o], pos, new_slots, self.orders_head@[o]);
            self.lists@ = self.lists@.update(o, list.remove(pos));
            assert(occ_row(new_slots) =~= occ_row(old_slots).update(i, false));
            assert(self.occ() =~= old(self).occ().update(o, old(self).occ()[o].update(i, false)));
        }
    }
}

// ---------------------------------------------------------------------------
// Order selection
// ---------------------------------------------------------------------------

/// Number of pages needed to hold `size` bytes.
pub open spec fn pages_for(size: int) -> int {
    (size + PAGE_SIZE as int - 1) / PAGE_SIZE as int
}

/// The first order at or above `o` whose blocks hold `pages` pages.
pub open spec fn first_fit_from(pages: int, o: int) -> Option<int>
    decreases 20 - o,
{
    if o >= 20 || o < 0 {
        None
    } else if pages <= pw(o) {
        Some(o)
    } else {
        first_fit_from(pages, o + 1)
    }
}

/// The order `alloc` serves a request of `size` bytes from.
pub open spec fn alloc_order(size: int) -> int {
    first_fit_from(pages_for(size), 0).unwrap()
}

/// Whether a block of order `o` placed at `addr`'s natural boundary still
/// holds `size` bytes starting at `addr`.
pub open spec fn fits_at(addr: int, size: int, o: int) -> bool {
    pages_for(size + addr % block_bytes(o)) <= pw(o)
}

/// The first order at or above `o` whose block around `addr` holds `size`
/// bytes from `addr` on.
pub open spec fn first_fit_at_from(addr: int, size: int, o: int) -> Option<int>
    decreases 20 - o,
{
    if o >= 20 || o < 0 {
        None
    } else if fits_at(addr, size, o) {
        Some(o)
    } else {
        first_fit_at_from(addr, size, o + 1)
    }
}

/// Index of the order-`o` block that contains byte address `addr`.
pub open spec fn addr_index(addr: int, o: int) -> int {
    addr / block_bytes(o)
}

/// The sums computed while searching an order for `(addr, size)` fit in a `usize`.
pub open spec fn fit_search_in_range(addr: int, size: int) -> bool {
    forall|o: int| 0 <= o < 20 ==> size + #[trigger] (addr % block_bytes(o)) + PAGE_SIZE - 1 <= usize::MAX
}

/// Some order at or above `o` has a free block.
pub open spec fn any_free_from(occ: Seq<Seq<bool>>, o: int) -> bool {
    exists|o2: int, i: int| o <= o2 < 20 && 0 <= i < slots(o2) && #[trigger] occ[o2][i]
}

/// No two buddies of any order below the top are both free.
pub open spec fn merged(occ: Seq<Seq<bool>>) -> bool {
    forall|o: int, k: int|
        0 <= o < 19 && 0 <= k && 2 * k + 1 < pw(20 - o) ==> !(#[trigger] occ[o][2 * k] && occ[o][2 * k + 1])
}

/// `free` contains a whole naturally aligned block of order `s`.
pub open spec fn block_free(free: Set<int>, s: int) -> bool {
    exists|j: int| 0 <= j < pw(20 - s) && #[trigger] block_pages(s, j).subset_of(free)
}

/// A block of order below 20 spans at most 2 GiB, and the slots of one
/// order tile the 4 GiB address space.
pub proof fn lemma_block_bytes(o: int)
    requires
        0 <= o < 20,
    ensures
        0 < block_bytes(o) <= 0x8000_0000,
        block_bytes(o) == pw(o) * 4096,
        block_bytes(o) * slots(o) == 0x1_0000_0000,
{
    lemma_pw_bounds(o);
    lemma_pw_values();
    assert(pw(o) * 4096 * slots(o) == pw(o) * slots(o) * 4096) by (nonlinear_arith);
}

/// The block `i` of order `o` starts at byte `i * block_bytes(o)` and that address fits 32 bits.
proof fn lemma_block_addr(o: int, i: int)
    requires
        0 <= o < 20,
        0 <= i < slots(o),
    ensures
        0 <= i * block_bytes(o) < 0x1_0000_0000,
        i * block_bytes(o) + block_bytes(o) <= 0x1_0000_0000,
        addr_index(i * block_bytes(o), o) == i,
        (i * block_bytes(o)) % block_bytes(o) == 0,
{
    lemma_block_bytes(o);
    assert(0 <= i * block_bytes(o)) by (nonlinear_arith)
        requires
            0 <= i,
            block_bytes(o) > 0,
    ;
    assert(i * block_bytes(o) + block_bytes(o) <= slots(o) * block_bytes(o)) by (nonlinear_arith)
        requires
            i + 1 <= slots(o),
            block_bytes(o) > 0,
    ;
    lemma_div_by_multiple(i, block_bytes(o));
    vstd::arithmetic::div_mod::lemma_mod_multiples_basic(i, block_bytes(o));
}

/// A byte address below 4 GiB lies in a slot of every order.
pub proof fn lemma_addr_index_bound(addr: int, o: int)
    requires
        0 <= o < 20,
        0 <= addr < 0x1_0000_0000,
    ensures
        0 <= addr_index(addr, o) < slots(o),
        addr_index(addr, o) == blk(o, addr / 4096),
        0 <= addr / 4096 < total_pages(),
{
    lemma_block_bytes(o);
    lemma_pw_values();
    lemma_pw_bounds(o);
    lemma_div_pos_is_pos(addr, block_bytes(o));
    lemma_div_denominator(addr, 4096, pw(o));
    assert(4096 * pw(o) == block_bytes(o)) by (nonlinear_arith)
        requires
            block_bytes(o) == pw(o) * 4096,
    ;
    lemma_blk_bound(o, addr / 4096);
}

proof fn lemma_first_fit_some(pages: int, o: int)
    requires
        0 <= o <= 19,
        pages <= pw(19),
    ensures
        first_fit_from(pages, o).is_some(),
        0 <= first_fit_from(pages, o).unwrap() < 20,
        pages <= pw(first_fit_from(pages, o).unwrap()),
    decreases 20 - o,
{
    if o < 19 && pages > pw(o) {
        lemma_first_fit_some(pages, o + 1);
    }
}

/// The order `first_fit_at_from` picks lies between `o` and 19, and fits.
pub proof fn lemma_first_fit_at_range(addr: int, size: int, o: int)
    requires
        0 <= o,
    ensures
        first_fit_at_from(addr, size, o).is_some() ==> o <= first_fit_at_from(addr, size, o).unwrap() < 20
            && fits_at(addr, size, first_fit_at_from(addr, size, o).unwrap()),
    decreases 20 - o,
{
    if o < 20 && !fits_at(addr, size, o) {
        lemma_first_fit_at_range(addr, size, o + 1);
    }
}

/// Returns `2^power`.
fn pow2_exec(power: usize) -> (r: usize)
    requires
        power < 20,
    ensures
        r == pw(power as int),
{
    proof {
        lemma_pw_bounds(power as int);
        vstd::bits::lemma_usize_shl_is_mul(1, power);
    }
    1usize << power
}

impl PageAllocator {
    /// Head of an order's list is `Some` exactly when the order has a free block.
    proof fn lemma_head(&self, o: int)
        requires
            self.wf(),
            0 <= o < 20,
        ensures
            self.orders_head@[o].is_some() <==> exists|i: int| 0 <= i < slots(o) && #[trigger] self.is_free_block(o, i),
            self.orders_head@[o].is_some() ==> {
                let i = self.orders_head@[o].unwrap() as int;
                0 <= i < slots(o) && self.is_free_block(o, i)
            },
            self.orders_head@[o].is_some() ==> self.occ()[o][self.orders_head@[o].unwrap() as int],
    {
        self.lemma_wf_shape();
        let list = self.lists@[o];
        if self.orders_head@[o].is_some() {
            let i = list[0];
            assert(list.contains(i));
            assert(self.is_free_block(o, i as int));
            assert(self.occ()[o][i as int]);
        }
        if exists|i: int| 0 <= i < slots(o) && #[trigger] self.is_free_block(o, i) {
            let i = choose|i: int| 0 <= i < slots(o) && #[trigger] self.is_free_block(o, i);
            assert(list.contains(i as usize));
        }
    }

    /// A free block's pages are all free.
    proof fn lemma_free_block_pages(&self, o: int, i: int)
        requires
            self.wf(),
            0 <= o < 20,
            0 <= i < slots(o),
            self.is_free_block(o, i),
        ensures
            block_pages(o, i).subset_of(self.free_pages()),
    {
        self.lemma_wf_shape();
        assert forall|p: int| block_pages(o, i).contains(p) implies self.free_pages().contains(p) by {
            assert(self.occ()[o][blk(o, p)]);
        }
    }

    /// Finds the smallest order whose blocks hold `pages` pages.
    fn find_smallest_order_fit(pages: usize) -> (r: Option<usize>)
        ensures
            r == (match first_fit_from(pages as int, 0) {
                Some(o) => Some(o as usize),
                None => None,
            }),
    {
        let mut o: usize = 0;
        while o < ORDERS
            invariant
                o <= 20,
                first_fit_from(pages as int, 0) == first_fit_from(pages as int, o as int),
            decreases 20 - o,
        {
            let order_size_pages = pow2_exec(o);
            if pages <= order_size_pages {
                return Some(o);
            }
            o = o + 1;
        }
        None
    }

    /// Finds the smallest order whose naturally aligned block around `addr`
    /// holds `size` bytes starting at `addr`.
    fn find_smallest_order_fit_at_addr(addr: usize, size: usize) -> (r: Option<usize>)
        requires
            fit_search_in_range(addr as int, size as int),
        ensures
            r == (match first_fit_at_from(addr as int, size as int, 0) {
                Some(o) => Some(o as usize),
                None => None,
            }),
    {
        let mut o: usize = 0;
        while o < ORDERS
            invariant
                o <= 20,
                fit_search_in_range(addr as int, size as int),
                first_fit_at_from(addr as int, size as int, 0) == first_fit_at_from(
                    addr as int,
                    size as int,
                    o as int,
                ),
            decreases 20 - o,
        {
            let order_size_pages = pow2_exec(o);
            proof {
                lemma_block_bytes(o as int);
            }
            let alignment_offset = addr % (order_size_pages * PAGE_SIZE);
            assert(size + alignment_offset + PAGE_SIZE - 1 <= usize::MAX) by {
                assert(alignment_offset == (addr as int) % block_bytes(o as int));
            }
            let size_with_alignment = size + alignment_offset;
            let pages = (size_with_alignment + (PAGE_SIZE - 1)) / PAGE_SIZE;
            if pages <= order_size_pages {
                return Some(o);
            }
            o = o + 1;
        }
        None
    }

    /// Pops the head of `order`'s free list and returns its base address.
    fn node_drain(&mut self, order: usize) -> (r: Option<usize>)
        requires
            old(self).wf(),
            order < 20,
        ensures
            final(self).wf(),
            r.is_none() <==> old(self).orders_head@[order as int].is_none(),
            r.is_none() ==> *final(self) == *old(self),
            r.is_some() ==> {
                let i = old(self).orders_head@[order as int].unwrap() as int;
                &&& 0 <= i < slots(order as int)
                &&& r.unwrap() == i * block_bytes(order as int)
                &&& addr_index(r.unwrap() as int, order as int) == i
                &&& (r.unwrap() as int) % block_bytes(order as int) == 0
                &&& old(self).is_free_block(order as int, i)
                &&& block_pages(order as int, i).subset_of(old(self).free_pages())
                &&& final(self).free_pages() == old(self).free_pages().difference(block_pages(order as int, i))
                &&& final(self).free_list(order as int) == old(self).free_list(order as int).drop_first()
                &&& forall|k: int| 0 <= k < 20 && k != order ==> #[trigger] final(self).free_list(k) == old(self).free_list(k)
            },
    {
        let next = match self.orders_head[order] {
            Some(n) => n,
            None => return None,
        };
        proof {
            self.lemma_head(order as int);
            self.lemma_free_block_pages(order as int, next as int);
            lemma_block_addr(order as int, next as int);
            lemma_block_bytes(order as int);
            lemma_pw_bounds(order as int);
            lemma_pw_values();
            assert(self.orders_head@[order as int] == seq_head(self.free_list(order as int)));
            self.lemma_free_list(order as int);
            lemma_head_index(self.free_list(order as int));
        }
        self.node_remove(next, order);
        let pages = pow2_exec(order);
        assert(next * pages < 0x10_0000) by (nonlinear_arith)
            requires
                next < slots(order as int),
                pages == pw(order as int),
                pw(order as int) * slots(order as int) == 0x10_0000,
        ;
        assert(next * pages * 4096 < 0x1_0000_0000) by (nonlinear_arith)
            requires
                next * pages < 0x10_0000,
        ;
        let addr = next * pages * PAGE_SIZE;
        assert(addr == next * block_bytes(order as int)) by (nonlinear_arith)
            requires
                addr == next * pages * 4096,
                pages == pw(order as int),
                block_bytes(order as int) == pw(order as int) * 4096,
        ;
        Some(addr)
    }

    /// Splits free block `index_node` of `index_order` into its two buddies
    /// one order below; `Err` when that block is not free.
    fn split_node(&mut self, index_node: usize, index_order: usize) -> (r: Result<(), ()>)
        requires
            old(self).wf(),
            1 <= index_order < 20,
            (index_node as int) < slots(index_order as int),
        ensures
            final(self).wf(),
            final(self).free_pages() == old(self).free_pages(),
            r.is_ok() == old(self).is_free_block(index_order as int, index_node as int),
            r.is_err() ==> *final(self) == *old(self),
            r.is_ok() ==> final(self).occ() == old(self).occ().update(
                index_order as int,
                old(self).occ()[index_order as int].update(index_node as int, false),
            ).update(
                index_order - 1,
                old(self).occ()[index_order - 1].update(2 * index_node + 1, true).update(
                    2 * index_node as int,
                    true,
                ),
            ),
            r.is_ok() ==> final(self).orders_head@[index_order - 1] == Some((2 * index_node) as usize),
            r.is_ok() ==> final(self).free_list(index_order - 1) == seq![(2 * index_node) as usize, (2 * index_node + 1) as usize]
                + old(self).free_list(index_order - 1),
            r.is_ok() ==> final(self).free_list(index_order as int) == old(self).free_list(index_order as int).remove(
                old(self).free_list(index_order as int).index_of(index_node),
            ),
            r.is_ok() ==> forall|o: int| 0 <= o < 20 && o != index_order && o != index_order - 1 ==> #[trigger] final(self).free_list(o)
                == old(self).free_list(o),
    {
        if self.orders[index_order][index_node].is_none() {
            return Err(());
        }
        let ghost o = index_order as int;
        let ghost i = index_node as int;
        let ghost f0 = self.free_pages();
        proof {
            self.lemma_free_block_pages(o, i);
            lemma_pw(20 - o);
            lemma_pw_bounds(o);
        }
        self.node_remove(index_node, index_order);
        let ghost f1 = self.free_pages();
        let ghost big = block_pages(o, i);
        let ghost b1 = block_pages(o - 1, 2 * i + 1);
        let ghost b0 = block_pages(o - 1, 2 * i);
        proof {
            assert forall|p: int| #[trigger] big.contains(p) == (b0.contains(p) || b1.contains(p)) by {
                if 0 <= p {
                    lemma_blk_children(o - 1, p, i);
                }
            }
            assert(b1.disjoint(f1));
        }
        self.node_add(index_node * 2 + 1, index_order - 1);
        proof {
            assert(b0.disjoint(self.free_pages())) by {
                assert forall|p: int| b0.contains(p) implies !self.free_pages().contains(p) by {
                    assert(!b1.contains(p));
                }
            }
        }
        self.node_add(index_node * 2, index_order - 1);
        proof {
            assert(self.free_pages() =~= f0);
        }
        Ok(())
    }

    /// Splits a free block at `order` (making one first from higher orders if
    /// needed) so that `order - 1` gains a free block: the head of the
    /// lowest non-empty list from `order` up is split down step by step.
    #[verifier::rlimit(60)]
    #[verifier::spinoff_prover]
    fn split(&mut self, order: usize)
        requires
            old(self).wf(),
            1 <= order < 20,
        ensures
            final(self).wf(),
            final(self).free_pages() == old(self).free_pages(),
            any_free_from(old(self).occ(), order as int) ==> final(self).orders_head@[order - 1].is_some(),
            forall|o: int| #[trigger] is_lowest_listed(*old(self), order as int, o) ==> split_lists(*old(self), *final(self), order - 1, o),
        decreases 20 - order,
    {
        proof {
            self.lemma_head(order as int);
            self.lemma_wf_shape();
            assert(self.orders_head@[order as int] == seq_head(self.free_list(order as int)));
        }
        match self.orders_head[order] {
            Some(next) => {
                let ghost before = *self;
                proof {
                    lemma_pw_values();
                    lemma_pw_bounds(order as int);
                    self.lemma_free_list(order as int);
                    lemma_head_index(self.free_list(order as int));
                    assert(self.free_list(order as int)[0] == next);
                }
                let _ = self.split_node(next, order);
                proof {
                    assert forall|o: int| #[trigger] is_lowest_listed(before, order as int, o) implies split_lists(before, *self, order - 1, o) by {
                        if o > order {
                            assert(before.free_list(order as int).len() == 0);
                        }
                        assert(o == order);
                        assert(pw(1) == 2);
                    }
                }
                return;
            },
            None => {
                if order < ORDERS - 1 {
                    proof {
                        if any_free_from(self.occ(), order as int) {
                            let (o2, i) = choose|o2: int, i: int|
                                order <= o2 < 20 && 0 <= i < slots(o2) && #[trigger] self.occ()[o2][i];
                            if o2 == order {
                                assert(self.is_free_block(o2, i));
                            }
                            assert(any_free_from(self.occ(), order + 1));
                        }
                        assert forall|o: int| #[trigger] is_lowest_listed(*self, order as int, o) implies is_lowest_listed(*self, order + 1, o) by {
                            assert(o != order);
                        }
                    }
                    self.split(order + 1);
                } else {
                    proof {
                        if any_free_from(self.occ(), order as int) {
                            let (o2, i) = choose|o2: int, i: int|
                                order <= o2 < 20 && 0 <= i < slots(o2) && #[trigger] self.occ()[o2][i];
                            assert(self.is_free_block(o2, i));
                        }
                        assert forall|o: int| !#[trigger] is_lowest_listed(*self, order as int, o) by {}
                    }
                }
            },
        }
        let ghost mid = *self;
        proof {
            self.lemma_head(order as int);
            assert(self.orders_head@[order as int] == seq_head(self.free_list(order as int)));
            self.lemma_free_list(order as int);
            if self.free_list(order as int).len() > 0 {
                lemma_head_index(self.free_list(order as int));
            }
        }
        if let Some(next) = self.orders_head[order] {
            proof {
                lemma_pw_bounds(order as int);
            }
            let _ = self.split_node(next, order);
            proof {
                assert forall|o: int| #[trigger] is_lowest_listed(*old(self), order as int, o) implies split_lists(*old(self), *self, order - 1, o) by {
                    old(self).lemma_free_list(o);
                    let x = old(self).free_list(o)[0] as int;
                    assert(old(self).free_list(order as int).len() == 0);
                    assert(is_lowest_listed(*old(self), order + 1, o));
                    assert(split_lists(*old(self), mid, order as int, o));
                    lemma_scaled_index(x, o, order as int);
                    assert(next == x * pw(o - order));
                    assert(mid.free_list(order as int) =~= seq![(x * pw(o - order)) as usize, (x * pw(o - order) + 1) as usize]);
                    assert(self.free_list(order as int) =~= seq![(x * pw(o - order) + 1) as usize]);
                    assert(self.free_list(order - 1) == seq![(2 * next) as usize, (2 * next + 1) as usize] + old(self).free_list(order - 1));
                }
            }
        } else {
            proof {
                assert forall|o: int| #[trigger] is_lowest_listed(*old(self), order as int, o) implies split_lists(*old(self), *self, order - 1, o) by {
                    assert(is_lowest_listed(*old(self), order + 1, o));
                    assert(split_lists(*old(self), mid, order as int, o));
                }
            }
        }
    }
}

/// In a fully merged tree, a wholly free block of order `s` lies inside one
/// free block of order `s` or above.
proof fn lemma_cover(occ: Seq<Seq<bool>>, s: int, j: int)
    requires
        occ_shape(occ),
        disjoint(occ),
        merged(occ),
        0 <= s < 20,
        0 <= j < pw(20 - s),
        block_pages(s, j).subset_of(free_pages_of(occ)),
    ensures
        exists|o: int| s <= o < 20 && #[trigger] occ[o][blk(o, j * pw(s))],
    decreases s,
{
    lemma_pw(20 - s);
    lemma_pw_bounds(s);
    lemma_blk_first(s, j);
    let first = j * pw(s);
    if s == 0 {
        assert(free_pages_of(occ).contains(first));
        let o = choose|o: int| 0 <= o < 20 && #[trigger] occ[o][blk(o, first)];
        assert(occ[o][blk(o, first)]);
    } else {
        lemma_pw(s - 1);
        lemma_pw(20 - s);
        lemma_pw(21 - s);
        assert(20 - (s - 1) == 21 - s);
        let j0 = 2 * j;
        let j1 = 2 * j + 1;
        assert(block_pages(s - 1, j0).subset_of(block_pages(s, j))) by {
            assert forall|p: int| block_pages(s - 1, j0).contains(p) implies block_pages(s, j).contains(p) by {
                lemma_blk_children(s - 1, p, j);
            }
        }
        assert(block_pages(s - 1, j1).subset_of(block_pages(s, j))) by {
            assert forall|p: int| block_pages(s - 1, j1).contains(p) implies block_pages(s, j).contains(p) by {
                lemma_blk_children(s - 1, p, j);
            }
        }
        lemma_cover(occ, s - 1, j0);
        lemma_cover(occ, s - 1, j1);
        assert(j0 * pw(s - 1) == first) by (nonlinear_arith)
            requires
                j0 == 2 * j,
                pw(s) == 2 * pw(s - 1),
                first == j * pw(s),
        ;
        let q = j1 * pw(s - 1);
        lemma_pw_bounds(s - 1);
        lemma_blk_first(s - 1, j0);
        lemma_blk_first(s - 1, j1);
        let o0 = choose|o: int| s - 1 <= o < 20 && #[trigger] occ[o][blk(o, j0 * pw(s - 1))];
        let o1 = choose|o: int| s - 1 <= o < 20 && #[trigger] occ[o][blk(o, j1 * pw(s - 1))];
        if o0 >= s {
            assert(occ[o0][blk(o0, first)]);
        } else if o1 >= s {
            assert(block_pages(s, j).contains(q));
            lemma_blk_same_ancestor(s, o1, q, first);
            assert(occ[o1][blk(o1, first)]);
        } else {
            assert(occ[s - 1][j0]);
            assert(occ[s - 1][j1]);
            assert(!(occ[s - 1][2 * j] && occ[s - 1][2 * j + 1]));
        }
    }
}

impl PageAllocator {
    /// An allocator whose whole 4 GiB address space is free, held as the two
    /// top-order blocks.
    pub fn new() -> (r: Self)
        ensures
            r.wf(),
            r.free_pages() == Set::new(|p: int| 0 <= p < total_pages()),
            r.free_list(19) == seq![0usize, 1usize],
            forall|o: int| 0 <= o < 19 ==> #[trigger] r.free_list(o) == Seq::<usize>::empty(),
    {
        let mut orders: Vec<Vec<Option<Node>>> = Vec::new();
        let mut orders_head: Vec<Option<usize>> = Vec::new();
        let mut o: usize = 0;
        while o < ORDERS - 1
            invariant
                o <= 19,
                orders.len() == o,
                orders_head.len() == o,
                forall|o2: int| 0 <= o2 < o ==> (#[trigger] orders@[o2])@.len() == slots(o2),
                forall|o2: int, i: int| 0 <= o2 < o && 0 <= i < slots(o2) ==> (#[trigger] orders@[o2]@[i]).is_none(),
                forall|o2: int| 0 <= o2 < o ==> (#[trigger] orders_head@[o2]).is_none(),
            decreases 19 - o,
        {
            proof {
                lemma_pw_bounds(o as int);
                lemma_pw_values();
                lemma_div_by_multiple(slots(o as int), pw(o as int));
                assert(0x10_0000int / pw(o as int) == slots(o as int)) by {
                    assert(slots(o as int) * pw(o as int) == 0x10_0000) by (nonlinear_arith)
                        requires
                            pw(o as int) * slots(o as int) == 0x10_0000,
                    ;
                }
            }
            let n = 0x10_0000usize / pow2_exec(o);
            let mut row: Vec<Option<Node>> = Vec::new();
            while row.len() < n
                invariant
                    row.len() <= n,
                    forall|i: int| 0 <= i < row.len() ==> (#[trigger] row@[i]).is_none(),
                decreases n - row.len(),
            {
                row.push(None);
            }
            orders.push(row);
            orders_head.push(None);
            o = o + 1;
        }
        let mut top: Vec<Option<Node>> = Vec::new();
        top.push(Node::new(None, Some(1)));
        top.push(Node::new(Some(0), None));
        orders.push(top);
        orders_head.push(Some(0));
        let ghost mut lists: Seq<Seq<usize>> = Seq::new(19, |o: int| Seq::<usize>::empty());
        proof {
            lists = lists.push(seq![0usize, 1usize]);
        }
        let r = PageAllocator { orders, orders_head, lists: Ghost(lists) };
        proof {
            lemma_pw_values();
            assert forall|o2: int| 0 <= o2 < 20 implies (#[trigger] r.orders@[o2])@.len() == slots(o2) by {
                if o2 == 19 {
                    assert(slots(19) == pw(1));
                }
            }
            assert forall|o2: int|
                #![trigger r.lists@[o2]]
                0 <= o2 < 20 implies list_wf(r.orders@[o2]@, r.lists@[o2], r.orders_head@[o2]) by {
                if o2 == 19 {
                    let l = r.lists@[19];
                    assert(l[0] == 0 && l[1] == 1);
                    assert forall|i: int| 0 <= i < r.orders@[19]@.len() implies ((#[trigger] r.orders@[19]@[i]).is_some() <==> l.contains(i as usize)) by {
                        if i == 0 {
                            assert(l[0] == 0);
                        } else {
                            assert(l[1] == 1);
                        }
                    }
                } else {
                    assert forall|i: int| 0 <= i < r.orders@[o2]@.len() implies ((#[trigger] r.orders@[o2]@[i]).is_some() <==> r.lists@[o2].contains(i as usize)) by {}
                }
            }
            r.lemma_occ_shape_only();
            let occ = r.occ();
            assert forall|o2: int, i: int| 0 <= o2 < 20 && 0 <= i < slots(o2) implies (#[trigger] occ[o2][i]) == (o2 == 19) by {
                assert(occ[o2][i] == r.orders@[o2]@[i].is_some());
            }
            assert forall|p: int, o1: int, o2: int|
                0 <= p < total_pages() && 0 <= o1 < 20 && 0 <= o2 < 20 && o1 != o2
                    && #[trigger] occ[o1][blk(o1, p)] implies !#[trigger] occ[o2][blk(o2, p)] by {
                lemma_blk_bound(o1, p);
                lemma_blk_bound(o2, p);
            }
            assert forall|p: int| #[trigger] r.free_pages().contains(p) == (0 <= p < total_pages()) by {
                if 0 <= p < total_pages() {
                    lemma_blk_bound(19, p);
                    assert(occ[19][blk(19, p)]);
                }
            }
            assert(r.free_pages() =~= Set::new(|p: int| 0 <= p < total_pages()));
        }
        r
    }

    proof fn lemma_occ_shape_only(&self)
        requires
            self.orders@.len() == 20,
            forall|o: int| 0 <= o < 20 ==> (#[trigger] self.orders@[o])@.len() == slots(o),
        ensures
            occ_shape(self.occ()),
            forall|o: int, i: int|
                0 <= o < 20 && 0 <= i < slots(o) ==> (#[trigger] self.occ()[o][i]) == self.orders@[o]@[i].is_some(),
    {
        assert forall|o: int| 0 <= o < 20 implies (#[trigger] self.occ()[o]).len() == slots(o) by {
            assert(self.orders@[o]@.len() == slots(o));
        }
    }

    /// Merges every pair of free buddies upward, bottom-up.
    #[verifier::rlimit(40)]
    #[verifier::spinoff_prover]
    pub fn coalesce(&mut self)
        requires
            old(self).wf(),
        ensures
            final(self).wf(),
            final(self).free_pages() == old(self).free_pages(),
            merged(final(self).occ()),
    {
        let mut index_order: usize = 0;
        while index_order < ORDERS - 1
            invariant
                self.wf(),
                index_order <= 19,
                self.free_pages() == old(self).free_pages(),
                forall|o: int, k: int|
                    0 <= o < index_order && 0 <= k && 2 * k + 1 < pw(20 - o) ==> !(#[trigger] self.occ()[o][2 * k] && self.occ()[o][2 * k + 1]),
            decreases 19 - index_order,
        {
            proof {
                lemma_pw(18 - index_order as int);
                lemma_pw_bounds(index_order as int);
                lemma_pw(19 - index_order as int);
            }
            let limit = pow2_exec(ORDERS - 1 - index_order) * 2;
            assert(limit % 2 == 0 && limit <= slots(index_order as int));
            let mut index_node: usize = 0;
            while index_node < limit
                invariant
                    self.wf(),
                    index_order < 19,
                    limit == pw(20 - index_order),
                    limit % 2 == 0,
                    limit <= slots(index_order as int),
                    index_node % 2 == 0,
                    index_node <= limit,
                    self.free_pages() == old(self).free_pages(),
                    forall|o: int, k: int|
                        0 <= o < index_order && 0 <= k && 2 * k + 1 < pw(20 - o) ==> !(#[trigger] self.occ()[o][2 * k] && self.occ()[o][2 * k + 1]),
                    forall|k: int|
                        0 <= k && 2 * k + 1 < index_node ==> !(#[trigger] self.occ()[index_order as int][2 * k] && self.occ()[index_order as int][2 * k + 1]),
                decreases limit - index_node,
            {
                let ghost o = index_order as int;
                let ghost k = index_node as int / 2;
                let ghost before = self.occ();
                let ghost f0 = self.free_pages();
                let left = self.orders[index_order][index_node];
                let right = self.orders[index_order][index_node + 1];
                if left.is_some() && right.is_some() {
                    proof {
                        self.lemma_free_block_pages(o, 2 * k);
                        self.lemma_free_block_pages(o, 2 * k + 1);
                        self.lemma_wf_shape();
                        lemma_pw(19 - o);
                    }
                    self.node_remove(index_node, index_order);
                    proof {
                        self.lemma_wf_shape();
                        assert(self.occ()[o][2 * k + 1]);
                    }
                    self.node_remove(index_node + 1, index_order);
                    let ghost big = block_pages(o + 1, k);
                    let ghost b0 = block_pages(o, 2 * k);
                    let ghost b1 = block_pages(o, 2 * k + 1);
                    proof {
                        assert forall|p: int| #[trigger] big.contains(p) == (b0.contains(p) || b1.contains(p)) by {
                            if 0 <= p {
                                lemma_blk_children(o, p, k);
                            }
                        }
                        assert(big.disjoint(self.free_pages()));
                    }
                    self.node_add(index_node / 2, index_order + 1);
                    proof {
                        assert(self.free_pages() =~= f0);
                        self.lemma_wf_shape();
                        assert forall|o2: int, k2: int|
                            0 <= o2 < index_order && 0 <= k2 && 2 * k2 + 1 < pw(20 - o2) implies !(#[trigger] self.occ()[o2][2 * k2] && self.occ()[o2][2 * k2 + 1]) by {
                            assert(self.occ()[o2] == before[o2]);
                        }
                        assert forall|k2: int|
                            0 <= k2 && 2 * k2 + 1 < index_node + 2 implies !(#[trigger] self.occ()[index_order as int][2 * k2] && self.occ()[index_order as int][2 * k2 + 1]) by {
                            if k2 != k {
                                assert(self.occ()[o][2 * k2] == before[o][2 * k2]);
                                assert(self.occ()[o][2 * k2 + 1] == before[o][2 * k2 + 1]);
                            }
                        }
                    }
                } else {
                    proof {
                        self.lemma_wf_shape();
                        assert(!(self.occ()[o][2 * k] && self.occ()[o][2 * k + 1]));
                    }
                }
                index_node = index_node + 2;
            }
            index_order = index_order + 1;
        }
    }
}

impl PageAllocator {
    /// Allocates a naturally aligned block of the smallest order that holds
    /// `size` bytes and returns its base address.
    pub fn allocate(&mut self, size: usize) -> (r: Option<usize>)
        requires
            old(self).wf(),
            0 < size <= 0x8000_0000,
        ensures
            final(self).wf(),
            r.is_some() ==> {
                let s = alloc_order(size as int);
                let i = addr_index(r.unwrap() as int, s);
                &&& 0 <= s < 20
                &&& (r.unwrap() as int) % block_bytes(s) == 0
                &&& 0 <= i < slots(s)
                &&& block_pages(s, i).subset_of(old(self).free_pages())
                &&& final(self).free_pages() == old(self).free_pages().difference(block_pages(s, i))
            },
            r.is_none() ==> final(self).free_pages() == old(self).free_pages(),
            r.is_some() <==> block_free(old(self).free_pages(), alloc_order(size as int)),
            forall|o: int| #[trigger] is_lowest_listed(*old(self), alloc_order(size as int), o) ==> {
                &&& r.is_some()
                &&& r.unwrap() as int == old(self).free_list(o)[0] * block_bytes(o)
                &&& taken_lists(*old(self), *final(self), alloc_order(size as int), o)
            },
    {
        let pages = (size + PAGE_SIZE - 1) / PAGE_SIZE;
        proof {
            lemma_pw_values();
            lemma_first_fit_some(pages as int, 0);
        }
        let smallest_order = match Self::find_smallest_order_fit(pages) {
            Some(o) => o,
            None => return None,
        };
        let ghost s = smallest_order as int;
        assert(s == alloc_order(size as int));
        proof {
            lemma_block_bytes(s);
            assert(self.orders_head@[s] == seq_head(self.free_list(s)));
        }
        if let Some(addr) = self.node_drain(smallest_order) {
            proof {
                assert forall|o: int| #[trigger] is_lowest_listed(*old(self), s, o) implies {
                    &&& addr as int == old(self).free_list(o)[0] * block_bytes(o)
                    &&& taken_lists(*old(self), *self, s, o)
                } by {
                    assert(old(self).free_list(s).len() > 0);
                    assert(o == s);
                    assert(pw(0) == 1);
                }
            }
            return Some(addr);
        }
        proof {
            assert(old(self).free_list(s).len() == 0);
            assert forall|o: int| #[trigger] is_lowest_listed(*old(self), s, o) implies is_lowest_listed(*old(self), s + 1, o) by {
                assert(o != s);
            }
        }
        if smallest_order + 1 < ORDERS {
            self.split(smallest_order + 1);
        }
        let ghost mid = *self;
        proof {
            assert(self.orders_head@[s] == seq_head(self.free_list(s)));
            assert forall|o: int| #[trigger] is_lowest_listed(*old(self), s, o) implies {
                let x = old(self).free_list(o)[0] as int;
                &&& mid.free_list(s) == seq![(x * pw(o - s)) as usize, (x * pw(o - s) + 1) as usize]
                &&& 0 <= x * pw(o - s) < slots(s)
                &&& (x * pw(o - s)) * block_bytes(s) == x * block_bytes(o)
                &&& split_lists(*old(self), mid, s, o)
            } by {
                let x = old(self).free_list(o)[0] as int;
                assert(is_lowest_listed(*old(self), s + 1, o));
                assert(split_lists(*old(self), mid, s, o));
                assert(mid.free_list(s) =~= seq![(x * pw(o - s)) as usize, (x * pw(o - s) + 1) as usize]);
                old(self).lemma_free_list(o);
                lemma_scaled_index(x, o, s);
                lemma_pw_adds(o - s, s);
                assert((x * pw(o - s)) * block_bytes(s) == x * block_bytes(o)) by (nonlinear_arith)
                    requires
                        pw(o - s) * pw(s) == pw(o),
                        block_bytes(s) == pw(s) * 4096,
                        block_bytes(o) == pw(o) * 4096,
                ;
            }
        }
        if let Some(addr) = self.node_drain(smallest_order) {
            proof {
                assert forall|o: int| #[trigger] is_lowest_listed(*old(self), s, o) implies {
                    &&& addr as int == old(self).free_list(o)[0] * block_bytes(o)
                    &&& taken_lists(*old(self), *self, s, o)
                } by {
                    let x = old(self).free_list(o)[0] as int;
                    lemma_pw_bounds(s);
                    assert(mid.free_list(s)[0] == (x * pw(o - s)) as usize);
                    assert(mid.free_list(s)[0] as int == x * pw(o - s));
                    assert(mid.orders_head@[s] == Some(mid.free_list(s)[0]));
                    assert(addr as int == (x * pw(o - s)) * block_bytes(s));
                    assert(self.free_list(s) =~= seq![(x * pw(o - s) + 1) as usize]);
                    assert(taken_lists(*old(self), *self, s, o));
                }
            }
            return Some(addr);
        }
        proof {
            assert forall|o: int| !#[trigger] is_lowest_listed(*old(self), s, o) by {
                if is_lowest_listed(*old(self), s, o) {
                    assert(mid.free_list(s).len() > 0);
                }
            }
        }
        self.coalesce();
        let ghost merged = self.occ();
        let ghost m_state = *self;
        if let Some(addr) = self.node_drain(smallest_order) {
            return Some(addr);
        }
        proof {
            self.lemma_head(s);
        }
        if smallest_order + 1 < ORDERS {
            self.split(smallest_order + 1);
        }
        if let Some(addr) = self.node_drain(smallest_order) {
            return Some(addr);
        }
        proof {
            self.lemma_head(s);
            if block_free(old(self).free_pages(), s) {
                let j = choose|j: int| 0 <= j < pw(20 - s) && #[trigger] block_pages(s, j).subset_of(old(self).free_pages());
                lemma_cover(merged, s, j);
                let w = choose|w: int| s <= w < 20 && #[trigger] merged[w][blk(w, j * pw(s))];
                lemma_pw_bounds(s);
                lemma_pw(20 - s);
                lemma_blk_first(s, j);
                lemma_blk_bound(w, j * pw(s));
                assert(any_free_from(merged, s));
                if w == s {
                    m_state.lemma_wf_shape();
                    m_state.lemma_head(s);
                    assert(m_state.occ()[s][j]);
                    assert(m_state.is_free_block(s, j));
                    assert(false);
                }
                assert(any_free_from(merged, s + 1));
                assert(false);
            }
        }
        None
    }
}

impl PageAllocator {
    /// Reserves the block of the smallest order that covers `size` bytes from
    /// `ptr` on, at `ptr`'s natural boundary for that order.
    pub fn alloc_at(&mut self, ptr: usize, size: usize) -> (r: Option<usize>)
        requires
            old(self).wf(),
            size != 0,
            (ptr as int) < 0x1_0000_0000,
            fit_search_in_range(ptr as int, size as int),
        ensures
            final(self).wf(),
            first_fit_at_from(ptr as int, size as int, 0).is_none() ==> r.is_none() && *final(self) == *old(self),
            r.is_some() ==> {
                let s = first_fit_at_from(ptr as int, size as int, 0).unwrap();
                let i = addr_index(ptr as int, s);
                &&& r == Some(ptr)
                &&& first_fit_at_from(ptr as int, size as int, 0).is_some()
                &&& 0 <= s < 20
                &&& 0 <= i < slots(s)
                &&& block_pages(s, i).subset_of(old(self).free_pages())
                &&& final(self).free_pages() == old(self).free_pages().difference(block_pages(s, i))
            },
            r.is_none() ==> final(self).free_pages() == old(self).free_pages(),
            r.is_some() <==> ({
                let so = first_fit_at_from(ptr as int, size as int, 0);
                so.is_some() && block_pages(so.unwrap(), addr_index(ptr as int, so.unwrap())).subset_of(
                    old(self).free_pages(),
                )
            }),
    {
        let smallest_order = match Self::find_smallest_order_fit_at_addr(ptr, size) {
            Some(o) => o,
            None => return None,
        };
        let ghost s = smallest_order as int;
        let ghost page = ptr as int / 4096;
        proof {
            lemma_first_fit_at_range(ptr as int, size as int, 0);
            lemma_addr_index_bound(ptr as int, s);
        }
        let ghost cond = block_pages(s, addr_index(ptr as int, s)).subset_of(
            old(self).free_pages(),
        );
        self.coalesce();
        proof {
            if cond {
                let j = addr_index(ptr as int, s);
                self.lemma_wf_shape();
                lemma_cover(self.occ(), s, j);
                let w = choose|w: int| s <= w < 20 && #[trigger] self.occ()[w][blk(w, j * pw(s))];
                lemma_pw_bounds(s);
                lemma_blk_first(s, j);
                lemma_blk_same_ancestor(s, w, j * pw(s), page);
                assert(self.occ()[w][blk(w, page)]);
            }
        }
        let mut o: usize = ORDERS - 1;
        while o > smallest_order
            invariant
                self.wf(),
                s == smallest_order,
                0 <= s < 20,
                smallest_order <= o <= 19,
                0 <= page < total_pages(),
                page == ptr as int / 4096,
                (ptr as int) < 0x1_0000_0000,
                self.free_pages() == old(self).free_pages(),
                cond ==> exists|w: int| s <= w <= o && #[trigger] self.occ()[w][blk(w, page)],
            decreases o,
        {
            proof {
                lemma_block_bytes(o as int);
                lemma_addr_index_bound(ptr as int, o as int);
                lemma_addr_index_bound(ptr as int, o as int - 1);
                lemma_pw_bounds(o as int);
            }
            let entry_size = pow2_exec(o) * PAGE_SIZE;
            let index_node = ptr / entry_size;
            let ghost before = *self;
            assert(entry_size == block_bytes(o as int));
            assert(index_node == blk(o as int, page));
            let _split = self.split_node(index_node, o);
            proof {
                if cond {
                    let w = choose|w: int| s <= w <= o && #[trigger] before.occ()[w][blk(w, page)];
                    before.lemma_wf_shape();
                    self.lemma_wf_shape();
                    if w == o {
                        assert(before.is_free_block(o as int, index_node as int));
                        lemma_blk_children(o - 1, page, index_node as int);
                        lemma_blk_bound(o - 1, page);
                        lemma_pw(20 - o);
                        assert(21 - o == 20 - (o - 1));
                        assert(self.occ()[o - 1] == before.occ()[o - 1].update(2 * index_node + 1, true).update(2 * index_node as int, true));
                        assert(self.occ()[o - 1][blk(o - 1, page)]);
                    } else {
                        assert(self.occ()[w][blk(w, page)]) by {
                            if before.is_free_block(o as int, index_node as int) {
                                lemma_blk_bound(w, page);
                                lemma_pw(20 - o);
                                if w == o - 1 {
                                    assert(self.occ()[w] == before.occ()[w].update(2 * index_node + 1, true).update(2 * index_node as int, true));
                                }
                            }
                        }
                    }
                }
            }
            o = o - 1;
        }
        proof {
            lemma_block_bytes(s);
            lemma_addr_index_bound(ptr as int, s);
        }
        let entry_size = pow2_exec(smallest_order) * PAGE_SIZE;
        let order_index = ptr / entry_size;
        if self.orders[smallest_order][order_index].is_some() {
            proof {
                self.lemma_free_block_pages(s, order_index as int);
            }
            self.node_remove(order_index, smallest_order);
            return Some(ptr);
        }
        proof {
            if cond {
                self.lemma_wf_shape();
                assert(self.occ()[s][blk(s, page)]);
            }
        }
        None
    }

    /// Returns the block of the smallest order covering `size` bytes from
    /// `ptr` on to the free lists; buddies are merged later by `coalesce`.
    /// A size of zero, or one that no order covers, changes nothing.
    pub fn dealloc(&mut self, ptr: usize, size: usize)
        requires
            old(self).wf(),
            (ptr as int) < 0x1_0000_0000,
            fit_search_in_range(ptr as int, size as int),
            size != 0 && first_fit_at_from(ptr as int, size as int, 0).is_some() ==> {
                let s = first_fit_at_from(ptr as int, size as int, 0).unwrap();
                block_pages(s, addr_index(ptr as int, s)).disjoint(old(self).free_pages())
            },
        ensures
            final(self).wf(),
            size == 0 || first_fit_at_from(ptr as int, size as int, 0).is_none() ==> *final(self) == *old(self),
            size != 0 && first_fit_at_from(ptr as int, size as int, 0).is_some() ==> {
                let s = first_fit_at_from(ptr as int, size as int, 0).unwrap();
                &&& final(self).free_pages() == old(self).free_pages().union(block_pages(s, addr_index(ptr as int, s)))
                &&& final(self).free_list(s) == seq![addr_index(ptr as int, s) as usize] + old(self).free_list(s)
                &&& forall|o: int| 0 <= o < 20 && o != s ==> #[trigger] final(self).free_list(o) == old(self).free_list(o)
            },
    {
        if size == 0 {
            return;
        }
        let order = match Self::find_smallest_order_fit_at_addr(ptr, size) {
            Some(o) => o,
            None => return,
        };
        proof {
            lemma_first_fit_at_range(ptr as int, size as int, 0);
            lemma_addr_index_bound(ptr as int, order as int);
            lemma_block_bytes(order as int);
            lemma_pw_bounds(order as int);
        }
        let index_node = ptr / (pow2_exec(order) * PAGE_SIZE);
        self.node_add(index_node, order);
    }
}

impl PageAllocator {
    /// The indices of the free blocks at order `o`.
    pub closed spec fn free_blocks_at(&self, o: int) -> Set<usize> {
        Set::new(|i: usize| (i as int) < slots(o) && self.is_free_block(o, i as int))
    }

    /// Bytes held by the free blocks of the orders below `o`.
    pub closed spec fn free_bytes_below(&self, o: int) -> int
        decreases o,
    {
        if o <= 0 {
            0
        } else {
            self.free_bytes_below(o - 1) + self.free_blocks_at(o - 1).len() * block_bytes(o - 1)
        }
    }

    /// Counts the free blocks at `order` by walking its free list.
    fn count_free_at(&self, order: usize) -> (r: usize)
        requires
            self.wf(),
            order < 20,
        ensures
            r == self.free_blocks_at(order as int).len(),
            r <= slots(order as int),
    {
        let ghost list = self.lists@[order as int];
        let ghost o = order as int;
        let mut count: usize = 0;
        let mut current = self.orders_head[order];
        proof {
            lemma_pw_bounds(o);
            list.unique_seq_to_set();
            assert(list.to_set() =~= self.free_blocks_at(o)) by {
                assert forall|i: usize| #[trigger] list.to_set().contains(i) == self.free_blocks_at(o).contains(i) by {
                    if list.contains(i) {
                        let k = choose|k: int| 0 <= k < list.len() && list[k] == i;
                        assert((list[k] as int) < slots(o));
                    }
                }
            }
            assert(list.len() <= slots(o)) by {
                lemma_usize_range_len(slots(o));
                vstd::set_lib::lemma_len_subset(list.to_set(), Set::new(|i: usize| (i as int) < slots(o)));
            }
        }
        while current.is_some()
            invariant
                self.wf(),
                o == order as int,
                0 <= o < 20,
                list == self.lists@[o],
                count <= list.len(),
                list.len() <= slots(o) <= 0x10_0000,
                current == (if count < list.len() { Some(list[count as int]) } else { None::<usize> }),
            decreases list.len() - count,
        {
            let idx = current.unwrap();
            assert(links_ok(self.orders@[o]@[idx as int], list, count as int));
            count = count + 1;
            let node = self.orders[order][idx].unwrap();
            current = node.next();
        }
        count
    }

    /// The free list of order `o`, head first.
    pub closed spec fn free_list(&self, o: int) -> Seq<usize> {
        self.lists@[o]
    }

    /// A free list holds each free block of its order exactly once.
    pub proof fn lemma_free_list(&self, o: int)
        requires
            self.wf(),
            0 <= o < 20,
        ensures
            self.free_list(o).no_duplicates(),
            forall|i: usize| (i as int) < slots(o) ==> (self.free_list(o).contains(i) <==> #[trigger] self.is_free_block(o, i as int)),
            forall|k: int| 0 <= k < self.free_list(o).len() ==> (#[trigger] self.free_list(o)[k] as int) < slots(o),
    {
        assert(list_wf(self.orders@[o]@, self.lists@[o], self.orders_head@[o]));
        assert forall|i: usize| (i as int) < slots(o) implies (self.free_list(o).contains(i) <==> #[trigger] self.is_free_block(o, i as int)) by {
            assert(self.orders@[o]@[i as int].is_some() <==> self.lists@[o].contains(i as int as usize));
        }
    }

    /// Every free block as (order, index): the orders from the highest down,
    /// each order's blocks in free-list order. Block `i` of order `o` covers
    /// `2^o` pages from byte `i * 2^o * 4096` on.
    pub fn print(&self) -> (r: Vec<(usize, usize)>)
        requires
            self.wf(),
        ensures
            r@ == listing_from(*self, 19),
    {
        let mut out: Vec<(usize, usize)> = Vec::new();
        let mut order: usize = ORDERS;
        while order > 0
            invariant
                self.wf(),
                order <= 20,
                out@ + listing_from(*self, order - 1) == listing_from(*self, 19),
            decreases order,
        {
            order = order - 1;
            let ghost list = self.lists@[order as int];
            let ghost before = out@;
            let mut current = self.orders_head[order];
            let ghost mut k: int = 0;
            proof {
                assert(list_wf(self.orders@[order as int]@, list, self.orders_head@[order as int]));
            }
            while current.is_some()
                invariant
                    self.wf(),
                    order < 20,
                    list == self.lists@[order as int],
                    list_wf(self.orders@[order as int]@, list, self.orders_head@[order as int]),
                    0 <= k <= list.len(),
                    current == (if k < list.len() { Some(list[k]) } else { None::<usize> }),
                    out@ == before + list.subrange(0, k).map(|j: int, i: usize| (order, i)),
                decreases list.len() - k,
            {
                let index = current.unwrap();
                assert(links_ok(self.orders@[order as int]@[list[k] as int], list, k));
                out.push((order, index));
                let node = self.orders[order][index].unwrap();
                current = node.next();
                proof {
                    assert(list.subrange(0, k + 1).map(|j: int, i: usize| (order, i)) =~= list.subrange(0, k).map(
                        |j: int, i: usize| (order, i),
                    ).push((order, index)));
                    k = k + 1;
                }
            }
            proof {
                assert(k == list.len());
                assert(list.subrange(0, k) =~= list);
                assert(listing_from(*self, order as int) == list.map(|j: int, i: usize| (order, i)) + listing_from(
                    *self,
                    order - 1,
                ));
                assert(before + listing_from(*self, order as int) =~= out@ + listing_from(*self, order - 1));
            }
        }
        assert(listing_from(*self, -1) == Seq::<(usize, usize)>::empty());
        assert(out@ =~= listing_from(*self, 19));
        out
    }

    /// Whether page `page` (bytes `page * 4096 .. (page + 1) * 4096`) is free.
    pub fn is_free_page(&self, page: usize) -> (r: bool)
        requires
            self.wf(),
        ensures
            r == self.free_pages().contains(page as int),
    {
        proof {
            lemma_pw_values();
            self.lemma_wf_shape();
        }
        if page >= 0x10_0000 {
            return false;
        }
        let mut o: usize = 0;
        while o < ORDERS
            invariant
                self.wf(),
                o <= 20,
                page < 0x10_0000,
                total_pages() == 0x10_0000,
                forall|k: int| 0 <= k < o ==> !(#[trigger] self.occ()[k][blk(k, page as int)]),
            decreases 20 - o,
        {
            proof {
                lemma_blk_bound(o as int, page as int);
                lemma_pw_bounds(o as int);
                self.lemma_wf_shape();
            }
            let width = pow2_exec(o);
            let idx = page / width;
            if self.orders[o][idx].is_some() {
                assert(self.occ()[o as int][blk(o as int, page as int)]);
                return true;
            }
            o = o + 1;
        }
        false
    }

    /// Total free memory as whole mebibytes and the remaining kibibytes.
    pub fn free_memory(&self) -> (r: (u64, u64))
        requires
            self.wf(),
        ensures
            r.0 == self.free_bytes_below(20) / 0x10_0000,
            r.1 == (self.free_bytes_below(20) % 0x10_0000) / 1024,
    {
        let mut total_bytes: u64 = 0;
        let mut order: usize = 0;
        while order < ORDERS
            invariant
                self.wf(),
                order <= 20,
                total_bytes == self.free_bytes_below(order as int),
                total_bytes <= order * 0x1_0000_0000,
            decreases 20 - order,
        {
            proof {
                lemma_block_bytes(order as int);
            }
            let block_bytes_o = (pow2_exec(order) as u64) * (PAGE_SIZE as u64);
            let count = self.count_free_at(order) as u64;
            assert(count * block_bytes_o <= 0x1_0000_0000) by (nonlinear_arith)
                requires
                    count <= slots(order as int),
                    block_bytes_o == block_bytes(order as int),
                    block_bytes(order as int) * slots(order as int) == 0x1_0000_0000,
                    block_bytes_o >= 0,
            ;
            total_bytes = total_bytes + count * block_bytes_o;
            order = order + 1;
        }
        let mb = total_bytes / (1024 * 1024);
        let kb = (total_bytes % (1024 * 1024)) / 1024;
        (mb, kb)
    }
}

proof fn lemma_usize_range_len(n: int)
    requires
        0 <= n <= 0x10_0000,
    ensures
        Set::new(|i: usize| (i as int) < n).len() == n,
        Set::new(|i: usize| (i as int) < n).finite(),
    decreases n,
{
    let s = Set::new(|i: usize| (i as int) < n);
    if n == 0 {
        assert(s =~= Set::empty());
    } else {
        lemma_usize_range_len(n - 1);
        let t = Set::new(|i: usize| (i as int) < n - 1);
        assert(s =~= t.insert((n - 1) as usize));
    }
}

/// The free blocks of the orders `o` down to 0, as (order, index), each
/// order's blocks in free-list order.
pub open spec fn listing_from(a: PageAllocator, o: int) -> Seq<(usize, usize)>
    decreases o + 1,
{
    if o < 0 {
        Seq::empty()
    } else {
        a.free_list(o).map(|j: int, i: usize| (o as usize, i)) + listing_from(a, o - 1)
    }
}

/// `o` is the lowest order from `k` up whose free list is not empty.
pub open spec fn is_lowest_listed(a: PageAllocator, k: int, o: int) -> bool {
    &&& k <= o < 20
    &&& a.free_list(o).len() > 0
    &&& forall|j: int| k <= j < o ==> #[trigger] a.free_list(j).len() == 0
}

/// `b`'s free lists are `a`'s after the block at the head of order `o`'s
/// list was split down to order `s < o`: order `o` lost its head, each
/// order between kept the upper half it split off, and order `s` gained
/// both halves at its front.
pub open spec fn split_lists(a: PageAllocator, b: PageAllocator, s: int, o: int) -> bool {
    let x = a.free_list(o)[0] as int;
    &&& b.free_list(s) == seq![(x * pw(o - s)) as usize, (x * pw(o - s) + 1) as usize] + a.free_list(s)
    &&& b.free_list(o) == a.free_list(o).drop_first()
    &&& forall|k: int| s < k < o ==> #[trigger] b.free_list(k) == seq![(x * pw(o - k) + 1) as usize]
    &&& forall|k: int| 0 <= k < 20 && k != s && !(s < k <= o) ==> #[trigger] b.free_list(k) == a.free_list(k)
}

/// `b`'s free lists are `a`'s after the block at the head of order `o`'s
/// list was split down to order `s <= o` and the lower half at `s` taken:
/// order `o` lost its head, and each order from `s` to `o - 1` holds just
/// the upper half it split off.
pub open spec fn taken_lists(a: PageAllocator, b: PageAllocator, s: int, o: int) -> bool {
    let x = a.free_list(o)[0] as int;
    &&& b.free_list(o) == a.free_list(o).drop_first()
    &&& forall|k: int| s <= k < o ==> #[trigger] b.free_list(k) == seq![(x * pw(o - k) + 1) as usize]
    &&& forall|k: int| 0 <= k < 20 && !(s <= k <= o) ==> #[trigger] b.free_list(k) == a.free_list(k)
}

/// In a list without duplicates, the head sits at position 0.
proof fn lemma_head_index(list: Seq<usize>)
    requires
        list.no_duplicates(),
        list.len() > 0,
    ensures
        list.index_of(list[0]) == 0,
        list.remove(0) == list.drop_first(),
{
    let i = list.index_of(list[0]);
    assert(0 <= i < list.len() && list[i] == list[0]);
    assert(list.remove(0) =~= list.drop_first());
}

/// A free list's entries, scaled up to a lower order, still fit that order.
proof fn lemma_scaled_index(x: int, o: int, k: int)
    requires
        0 <= k <= o < 20,
        0 <= x < slots(o),
    ensures
        0 <= x * pw(o - k) < slots(k),
        x * pw(o - k + 1) == 2 * (x * pw(o - k)),
{
    lemma_pw_adds(20 - o, o - k);
    lemma_pw(o - k);
    lemma_pw_bounds(k);
    assert(0 <= x * pw(o - k) < slots(o) * pw(o - k)) by (nonlinear_arith)
        requires
            0 <= x < slots(o),
            pw(o - k) > 0,
    ;
    assert(x * pw(o - k + 1) == 2 * (x * pw(o - k))) by (nonlinear_arith)
        requires
            pw(o - k + 1) == 2 * pw(o - k),
    ;
}

// ---------------------------------------------------------------------------
// Laws
// ---------------------------------------------------------------------------

proof fn lemma_pages_for_le(x: int, n: int)
    requires
        0 <= x,
        0 <= n,
        pages_for(x) <= n,
    ensures
        x <= n * 4096,
{
    lemma_fundamental_div_mod(x + 4095, 4096);
    assert(x <= n * 4096) by (nonlinear_arith)
        requires
            x + 4095 == 4096 * ((x + 4095) / 4096) + (x + 4095) % 4096,
            (x + 4095) % 4096 < 4096,
            (x + 4095) % 4096 >= 0,
            (x + 4095) / 4096 <= n,
    ;
}

/// An address aligned to a block of order `s` is aligned to every lower order.
pub proof fn lemma_aligned_below(addr: int, o: int, s: int)
    requires
        0 <= o <= s < 20,
        addr % block_bytes(s) == 0,
        0 <= addr,
    ensures
        addr % block_bytes(o) == 0,
{
    lemma_block_bytes(o);
    lemma_block_bytes(s);
    lemma_pw_adds(o, s - o);
    lemma_pw(s - o);
    let m = addr / block_bytes(s);
    lemma_fundamental_div_mod(addr, block_bytes(s));
    assert(addr == (m * pw(s - o)) * block_bytes(o)) by (nonlinear_arith)
        requires
            addr == block_bytes(s) * m + addr % block_bytes(s),
            addr % block_bytes(s) == 0,
            block_bytes(s) == pw(s) * 4096,
            block_bytes(o) == pw(o) * 4096,
            pw(o) * pw(s - o) == pw(s),
    ;
    vstd::arithmetic::div_mod::lemma_mod_multiples_basic(m * pw(s - o), block_bytes(o));
}

/// The order `first_fit_from` picks is at least the order it starts from.
pub proof fn lemma_first_fit_ge(pages: int, o: int)
    ensures
        first_fit_from(pages, o).is_some() ==> first_fit_from(pages, o).unwrap() >= o,
    decreases 20 - o,
{
    if 0 <= o < 20 && pages > pw(o) {
        lemma_first_fit_ge(pages, o + 1);
    }
}

/// At an address aligned to the order that fits `size`, the placed search
/// picks that same order.
pub proof fn lemma_fit_at_aligned(pages: int, size: int, addr: int, o: int, s: int)
    requires
        0 <= o <= s < 20,
        pages == pages_for(size),
        first_fit_from(pages, o) == Some(s),
        addr % block_bytes(s) == 0,
        0 <= addr,
    ensures
        first_fit_at_from(addr, size, o) == Some(s),
    decreases s - o,
{
    lemma_aligned_below(addr, o, s);
    assert(size + addr % block_bytes(o) == size);
    assert(fits_at(addr, size, o) == (pages <= pw(o)));
    if o == s {
        lemma_first_fit_ge(pages, o + 1);
    }
    if o < s {
        assert(pages > pw(o));
        lemma_fit_at_aligned(pages, size, addr, o + 1, s);
    }
}

/// `dealloc(addr, size)` for an address that `allocate(size)` returned
/// returns exactly the block that `allocate` took.
pub proof fn law_dealloc_matches_allocate(size: int, addr: int)
    requires
        0 < size <= 0x8000_0000,
        0 <= addr,
        addr % block_bytes(alloc_order(size)) == 0,
    ensures
        first_fit_at_from(addr, size, 0) == Some(alloc_order(size)),
{
    lemma_pw_values();
    lemma_first_fit_some(pages_for(size), 0);
    lemma_fit_at_aligned(pages_for(size), size, addr, 0, alloc_order(size));
}

/// Giving back what `allocate` handed out restores the free pages: when
/// `a1` is `a0` after `allocate(size)` returned `p` and `a2` is `a1` after
/// `dealloc(p, size)`, `a2` has exactly `a0`'s free pages, and the block is
/// back at the head of its order's list, with no other list changed.
pub proof fn law_dealloc_undoes_allocate(a0: PageAllocator, a1: PageAllocator, a2: PageAllocator, size: int, p: int)
    requires
        0 < size <= 0x8000_0000,
        0 <= p,
        ({
            let s = alloc_order(size);
            let i = addr_index(p, s);
            &&& p % block_bytes(s) == 0
            &&& block_pages(s, i).subset_of(a0.free_pages())
            &&& a1.free_pages() == a0.free_pages().difference(block_pages(s, i))
        }),
        first_fit_at_from(p, size, 0).is_some() ==> {
            let s = first_fit_at_from(p, size, 0).unwrap();
            &&& a2.free_pages() == a1.free_pages().union(block_pages(s, addr_index(p, s)))
            &&& a2.free_list(s) == seq![addr_index(p, s) as usize] + a1.free_list(s)
            &&& forall|o: int| 0 <= o < 20 && o != s ==> #[trigger] a2.free_list(o) == a1.free_list(o)
        },
    ensures
        a2.free_pages() == a0.free_pages(),
        a2.free_list(alloc_order(size)) == seq![addr_index(p, alloc_order(size)) as usize] + a1.free_list(alloc_order(size)),
        forall|o: int| 0 <= o < 20 && o != alloc_order(size) ==> #[trigger] a2.free_list(o) == a1.free_list(o),
{
    law_dealloc_matches_allocate(size, p);
    law_free_after_take(a0.free_pages(), block_pages(alloc_order(size), addr_index(p, alloc_order(size))));
}

/// The block `allocate(size)` hands out holds at least `size` bytes.
pub proof fn law_allocate_block_holds_size(size: int)
    requires
        0 < size <= 0x8000_0000,
    ensures
        0 <= alloc_order(size) < 20,
        size <= block_bytes(alloc_order(size)),
{
    lemma_pw_values();
    lemma_first_fit_some(pages_for(size), 0);
    lemma_pages_for_le(size, pw(alloc_order(size)));
}

/// The block `alloc_at(ptr, size)` reserves contains every byte of
/// `ptr .. ptr + size`.
pub proof fn law_alloc_at_covers_range(ptr: int, size: int, a: int)
    requires
        first_fit_at_from(ptr, size, 0).is_some(),
        0 <= ptr <= a < ptr + size,
        a < 0x1_0000_0000,
        0 <= size,
    ensures
        block_pages(
            first_fit_at_from(ptr, size, 0).unwrap(),
            addr_index(ptr, first_fit_at_from(ptr, size, 0).unwrap()),
        ).contains(a / 4096),
{
    let s = first_fit_at_from(ptr, size, 0).unwrap();
    lemma_first_fit_at_range(ptr, size, 0);
    lemma_block_bytes(s);
    let bb = block_bytes(s);
    let j = ptr / bb;
    let off = ptr % bb;
    lemma_fundamental_div_mod(ptr, bb);
    vstd::arithmetic::div_mod::lemma_mod_pos_bound(ptr, bb);
    lemma_pages_for_le(size + off, pw(s));
    assert(j * bb <= a && a < (j + 1) * bb) by (nonlinear_arith)
        requires
            ptr == bb * j + off,
            0 <= off,
            size + off <= pw(s) * 4096,
            bb == pw(s) * 4096,
            ptr <= a < ptr + size,
    ;
    lemma_div_pos_is_pos(ptr, bb);
    lemma_fundamental_div_mod_converse_div(a, bb, j, a - j * bb);
    lemma_addr_index_bound(a, s);
}

/// Putting back a block taken from the free pages restores them exactly, and
/// the block never overlaps what stayed free.
pub proof fn law_free_after_take(free: Set<int>, block: Set<int>)
    requires
        block.subset_of(free),
    ensures
        free.difference(block).union(block) == free,
        block.disjoint(free.difference(block)),
{
    assert(free.difference(block).union(block) =~= free);
}

/// Two blocks taken one after the other from the free pages never overlap.
pub proof fn law_allocations_disjoint(free0: Set<int>, b1: Set<int>, b2: Set<int>)
    requires
        b1.subset_of(free0),
        b2.subset_of(free0.difference(b1)),
    ensures
        b1.disjoint(b2),
{
}

/// The page numbers of the frames at byte addresses `frames`.
pub open spec fn frame_numbers(frames: Seq<usize>) -> Seq<int> {
    frames.map_values(|a: usize| a as int / 0x1000)
}

/// The free pages are a finite set of page numbers below 2^20.
proof fn lemma_free_finite(free: Set<int>, occ: Seq<Seq<bool>>)
    requires
        free == free_pages_of(occ),
    ensures
        free.finite(),
        forall|p: int| #[trigger] free.contains(p) ==> 0 <= p < total_pages(),
{
    vstd::set_lib::lemma_int_range(0, total_pages());
    assert(free.subset_of(vstd::set_lib::set_int_range(0, total_pages())));
    vstd::set_lib::lemma_set_subset_finite(vstd::set_lib::set_int_range(0, total_pages()), free);
}

impl PageAllocator {
    /// Takes `n` single pages, one `allocate(4096)` after the other, and
    /// returns their addresses. There must be at least `n` free pages.
    pub fn allocate_frames(&mut self, n: usize) -> (r: Vec<usize>)
        requires
            old(self).wf(),
            n <= old(self).free_pages().len(),
        ensures
            final(self).wf(),
            r@.len() == n,
            forall|k: int| 0 <= k < n ==> (#[trigger] r@[k]) as int % 0x1000 == 0 && (r@[k] as int) < 0x1_0000_0000,
            frame_numbers(r@).no_duplicates(),
            forall|k: int| 0 <= k < n ==> old(self).free_pages().contains(#[trigger] frame_numbers(r@)[k]),
            final(self).free_pages() == old(self).free_pages().difference(frame_numbers(r@).to_set()),
    {
        let ghost old_free = self.free_pages();
        proof {
            self.lemma_wf_shape();
            lemma_free_finite(old_free, self.occ());
            lemma_pw_values();
            lemma_first_fit_some(1, 0);
            assert(pages_for(4096) == 1);
            assert(alloc_order(4096) == 0);
            lemma_block_bytes(0);
        }
        let mut r: Vec<usize> = Vec::new();
        let mut i: usize = 0;
        while i < n
            invariant
                self.wf(),
                i <= n,
                r@.len() == i,
                n <= old_free.len(),
                old_free.finite(),
                alloc_order(4096) == 0,
                block_bytes(0) == 4096,
                pw(0) == 1,
                self.free_pages().finite(),
                self.free_pages().len() + i == old_free.len(),
                forall|k: int| 0 <= k < i ==> (#[trigger] r@[k]) as int % 0x1000 == 0 && (r@[k] as int) < 0x1_0000_0000,
                frame_numbers(r@).no_duplicates(),
                forall|k: int| 0 <= k < i ==> old_free.contains(#[trigger] frame_numbers(r@)[k]),
                self.free_pages() == old_free.difference(frame_numbers(r@).to_set()),
            decreases n - i,
        {
            let ghost free = self.free_pages();
            let ghost before = frame_numbers(r@);
            proof {
                self.lemma_wf_shape();
                lemma_free_finite(free, self.occ());
                let p = free.choose();
                vstd::set::axiom_set_choose_len(free);
                assert(free.contains(p));
                assert(block_pages(0, p) =~= set![p]);
                assert(block_pages(0, p).subset_of(free));
                assert(block_free(free, 0));
            }
            let got = self.allocate(0x1000);
            let a = match got {
                Some(a) => a,
                None => vstd::pervasive::unreached(),
            };
            let ghost q = a as int / 0x1000;
            proof {
                assert(addr_index(a as int, 0) == q);
                assert(block_pages(0, q) =~= set![q]);
                assert(free.contains(q));
                assert(self.free_pages() =~= free.remove(q));
                vstd::set::axiom_set_remove_len(free, q);
                vstd::set::axiom_set_remove_finite(free, q);
                assert(!before.contains(q));
                assert(0 <= q < total_pages());
                assert(total_pages() == 0x10_0000) by {
                    lemma_pw_bounds(0);
                    lemma_block_bytes(0);
                    vstd::arithmetic::power2::lemma2_to64();
                }
                vstd::arithmetic::div_mod::lemma_fundamental_div_mod(a as int, 4096);
                assert((a as int) < 0x1_0000_0000);
            }
            r.push(a);
            proof {
                assert(frame_numbers(r@) =~= before.push(q));
                before.lemma_push_to_set_commute(q);
                assert(self.free_pages() =~= old_free.difference(frame_numbers(r@).to_set()));
                assert forall|x: int, y: int| 0 <= x < y < frame_numbers(r@).len() implies frame_numbers(r@)[x] != frame_numbers(r@)[y] by {
                    if y == i {
                        assert(before.contains(before[x]));
                    }
                }
            }
            i = i + 1;
        }
        r
    }
}

} // verus!
