//! Page directories, page tables and their 32-bit entries.
use vstd::prelude::*;

verus! {

/// Size of one page in bytes.
pub const PAGE_SIZE: usize = 0x1000;

/// Entries of a page directory.
pub const PAGE_DIRECTORY_SIZE: usize = 1024;

/// Entries of a page table.
pub const PAGE_TABLE_SIZE: usize = 1024;

/// `2^width - 1`, the mask of a field `width` bits wide.
pub open spec fn field_mask(width: u32) -> u32 {
    if width >= 32 { 0xFFFF_FFFF } else { ((1u64 << width) - 1) as u32 }
}

/// The value of the `width`-bit field at bit `lo` of `v`.
pub open spec fn field_of(v: u32, lo: u32, width: u32) -> u32 {
    (v >> lo) & field_mask(width)
}

/// `v` with the `width`-bit field at bit `lo` replaced by the low bits of `x`.
pub open spec fn with_field(v: u32, lo: u32, width: u32, x: u32) -> u32 {
    (v & !(field_mask(width) << lo)) | ((x & field_mask(width)) << lo)
}

fn mask(width: u32) -> (r: u32)
    requires
        1 <= width <= 20,
    ensures
        r == field_mask(width),
{
    assert(1 <= (1u64 << width) <= 0x10_0000) by (bit_vector)
        requires
            1 <= width <= 20,
    ;
    ((1u64 << width) - 1) as u32
}

/// The masks of the one-bit fields and of the frame field, and the present
/// bit of an empty entry.
pub proof fn lemma_field_masks()
    ensures
        field_mask(1) == 1,
        field_mask(20) == 0xF_FFFF,
        field_of(0, 0, 1) == 0,
{
    assert(((1u64 << 1u32) - 1) as u32 == 1u32) by (bit_vector);
    assert(((1u64 << 20u32) - 1) as u32 == 0xF_FFFFu32) by (bit_vector);
    assert((0u32 >> 0u32) & 1u32 == 0u32) by (bit_vector);
}

/// A one-bit field is 0 or 1.
proof fn lemma_one_bit(v: u32, lo: u32)
    requires
        lo < 32,
    ensures
        field_of(v, lo, 1) <= 1,
{
    lemma_field_masks();
    assert((v >> lo) & 1 <= 1) by (bit_vector);
}

/// Reading a field back after writing it gives the written value cut to the
/// field's width; the other fields keep their values.
pub proof fn law_field_round_trip(v: u32, lo: u32, width: u32, x: u32)
    requires
        1 <= width <= 20,
        lo + width <= 32,
    ensures
        field_of(with_field(v, lo, width, x), lo, width) == x & field_mask(width),
{
    let m = field_mask(width);
    assert(m == ((1u64 << width) - 1) as u32);
    assert(((((v & !(m << lo)) | ((x & m) << lo)) >> lo) & m) == x & m) by (bit_vector)
        requires
            1 <= width <= 20,
            lo + width <= 32,
            m == ((1u64 << width) - 1) as u32,
    ;
}

/// Writing one field leaves every field that does not overlap it unchanged.
pub proof fn law_field_independent(v: u32, lo: u32, width: u32, x: u32, lo2: u32, width2: u32)
    requires
        1 <= width <= 20,
        lo + width <= 32,
        1 <= width2 <= 20,
        lo2 + width2 <= 32,
        lo + width <= lo2 || lo2 + width2 <= lo,
    ensures
        field_of(with_field(v, lo, width, x), lo2, width2) == field_of(v, lo2, width2),
{
    let m = field_mask(width);
    let m2 = field_mask(width2);
    assert(m == ((1u64 << width) - 1) as u32);
    assert(m2 == ((1u64 << width2) - 1) as u32);
    assert(((((v & !(m << lo)) | ((x & m) << lo)) >> lo2) & m2) == ((v >> lo2) & m2)) by (bit_vector)
        requires
            1 <= width <= 20,
            lo + width <= 32,
            1 <= width2 <= 20,
            lo2 + width2 <= 32,
            lo + width <= lo2 || lo2 + width2 <= lo,
            m == ((1u64 << width) - 1) as u32,
            m2 == ((1u64 << width2) - 1) as u32,
    ;
}

fn get_field(v: u32, lo: u32, width: u32) -> (r: u32)
    requires
        1 <= width <= 20,
        lo + width <= 32,
    ensures
        r == field_of(v, lo, width),
{
    (v >> lo) & mask(width)
}

fn set_field(v: u32, lo: u32, width: u32, x: u32) -> (r: u32)
    requires
        1 <= width <= 20,
        lo + width <= 32,
    ensures
        r == with_field(v, lo, width, x),
{
    let m = mask(width);
    (v & !(m << lo)) | ((x & m) << lo)
}

/// The fields of a page directory entry, from the most significant bit down:
/// the page table's frame number (bits 31-12), 4 free bits, page size, 1 free
/// bit, accessed, cache disable, write through, user/supervisor,
/// read/write, present (bit 0).
#[derive(Clone, Copy, Debug, PartialEq, Eq, Structural)]
pub enum PdeField {
    Address,
    Available4,
    Ps,
    Available1,
    Accessed,
    CacheDisable,
    WriteThrough,
    UserSupervisor,
    ReadWrite,
    Present,
}

/// Lowest bit and width of a directory entry field.
pub open spec fn pde_layout(f: PdeField) -> (u32, u32) {
    match f {
        PdeField::Address => (12, 20),
        PdeField::Available4 => (8, 4),
        PdeField::Ps => (7, 1),
        PdeField::Available1 => (6, 1),
        PdeField::Accessed => (5, 1),
        PdeField::CacheDisable => (4, 1),
        PdeField::WriteThrough => (3, 1),
        PdeField::UserSupervisor => (2, 1),
        PdeField::ReadWrite => (1, 1),
        PdeField::Present => (0, 1),
    }
}

fn pde_field_layout(f: PdeField) -> (r: (u32, u32))
    ensures
        r == pde_layout(f),
        1 <= r.1 <= 20,
        r.0 + r.1 <= 32,
{
    match f {
        PdeField::Address => (12, 20),
        PdeField::Available4 => (8, 4),
        PdeField::Ps => (7, 1),
        PdeField::Available1 => (6, 1),
        PdeField::Accessed => (5, 1),
        PdeField::CacheDisable => (4, 1),
        PdeField::WriteThrough => (3, 1),
        PdeField::UserSupervisor => (2, 1),
        PdeField::ReadWrite => (1, 1),
        PdeField::Present => (0, 1),
    }
}

/// A page directory entry.
#[derive(Clone, Copy, Debug, PartialEq, Eq, Structural)]
pub struct PageDirectoryEntry(pub u32);

impl PageDirectoryEntry {
    /// The entry with every bit clear.
    pub fn empty() -> (r: Self)
        ensures
            r.0 == 0,
    {
        Self(0)
    }

    /// The entry with the raw bits `value` (cut to 32 bits).
    pub fn from_bits(value: usize) -> (r: Self)
        ensures
            r.0 == value as u32,
    {
        Self(value as u32)
    }

    /// The entry's raw bits.
    pub fn bits(self) -> (r: usize)
        ensures
            r == self.0,
    {
        self.0 as usize
    }

    /// The value of field `f`.
    pub fn get(self, f: PdeField) -> (r: u32)
        ensures
            r == field_of(self.0, pde_layout(f).0, pde_layout(f).1),
    {
        let (lo, width) = pde_field_layout(f);
        get_field(self.0, lo, width)
    }

    /// Sets field `f` to the low bits of `x`.
    pub fn set(&mut self, f: PdeField, x: u32)
        ensures
            final(self).0 == with_field(old(self).0, pde_layout(f).0, pde_layout(f).1, x),
    {
        let (lo, width) = pde_field_layout(f);
        self.0 = set_field(self.0, lo, width, x);
    }

    /// Frame number of the page table.
    pub fn address(self) -> (r: u32)
        ensures
            r == field_of(self.0, 12, 20),
    {
        self.get(PdeField::Address)
    }

    /// Sets the page table's frame number.
    pub fn set_address(&mut self, x: u32)
        ensures
            final(self).0 == with_field(old(self).0, 12, 20, x),
    {
        self.set(PdeField::Address, x)
    }

    /// Whether the entry is present.
    pub fn present(self) -> (r: u8)
        ensures
            r == field_of(self.0, 0, 1),
    {
        proof {
            lemma_one_bit(self.0, 0);
        }
        self.get(PdeField::Present) as u8
    }

    /// Sets the present bit.
    pub fn set_present(&mut self, x: u8)
        ensures
            final(self).0 == with_field(old(self).0, 0, 1, x as u32),
    {
        self.set(PdeField::Present, x as u32)
    }

    /// Whether the pages below may be written.
    pub fn read_write(self) -> (r: u8)
        ensures
            r == field_of(self.0, 1, 1),
    {
        proof {
            lemma_one_bit(self.0, 1);
        }
        self.get(PdeField::ReadWrite) as u8
    }

    /// Sets the read/write bit.
    pub fn set_read_write(&mut self, x: u8)
        ensures
            final(self).0 == with_field(old(self).0, 1, 1, x as u32),
    {
        self.set(PdeField::ReadWrite, x as u32)
    }

    /// Whether user mode may access the pages below.
    pub fn user_supervisor(self) -> (r: u8)
        ensures
            r == field_of(self.0, 2, 1),
    {
        proof {
            lemma_one_bit(self.0, 2);
        }
        self.get(PdeField::UserSupervisor) as u8
    }

    /// Sets the user/supervisor bit.
    pub fn set_user_supervisor(&mut self, x: u8)
        ensures
            final(self).0 == with_field(old(self).0, 2, 1, x as u32),
    {
        self.set(PdeField::UserSupervisor, x as u32)
    }
}

/// The fields of a page table entry, from the most significant bit down:
/// the page's frame number (bits 31-12), 3 free bits, global, page attribute
/// table, dirty, accessed, cache disable, write through, user/supervisor,
/// read/write, present (bit 0).
#[derive(Clone, Copy, Debug, PartialEq, Eq, Structural)]
pub enum PteField {
    Address,
    Available,
    Global,
    PageAttributeTable,
    Dirty,
    Accessed,
    CacheDisable,
    WriteThrough,
    UserSupervisor,
    ReadWrite,
    Present,
}

/// Lowest bit and width of a table entry field.
pub open spec fn pte_layout(f: PteField) -> (u32, u32) {
    match f {
        PteField::Address => (12, 20),
        PteField::Available => (9, 3),
        PteField::Global => (8, 1),
        PteField::PageAttributeTable => (7, 1),
        PteField::Dirty => (6, 1),
        PteField::Accessed => (5, 1),
        PteField::CacheDisable => (4, 1),
        PteField::WriteThrough => (3, 1),
        PteField::UserSupervisor => (2, 1),
        PteField::ReadWrite => (1, 1),
        PteField::Present => (0, 1),
    }
}

fn pte_field_layout(f: PteField) -> (r: (u32, u32))
    ensures
        r == pte_layout(f),
        1 <= r.1 <= 20,
        r.0 + r.1 <= 32,
{
    match f {
        PteField::Address => (12, 20),
        PteField::Available => (9, 3),
        PteField::Global => (8, 1),
        PteField::PageAttributeTable => (7, 1),
        PteField::Dirty => (6, 1),
        PteField::Accessed => (5, 1),
        PteField::CacheDisable => (4, 1),
        PteField::WriteThrough => (3, 1),
        PteField::UserSupervisor => (2, 1),
        PteField::ReadWrite => (1, 1),
        PteField::Present => (0, 1),
    }
}

/// A page table entry.
#[derive(Clone, Copy, Debug, PartialEq, Eq, Structural)]
pub struct PageTableEntry(pub u32);

impl PageTableEntry {
    /// The entry with every bit clear.
    pub fn empty() -> (r: Self)
        ensures
            r.0 == 0,
    {
        Self(0)
    }

    /// The entry with the raw bits `value` (cut to 32 bits).
    pub fn from_bits(value: usize) -> (r: Self)
        ensures
            r.0 == value as u32,
    {
        Self(value as u32)
    }

    /// The entry's raw bits.
    pub fn bits(self) -> (r: usize)
        ensures
            r == self.0,
    {
        self.0 as usize
    }

    /// The value of field `f`.
    pub fn get(self, f: PteField) -> (r: u32)
        ensures
            r == field_of(self.0, pte_layout(f).0, pte_layout(f).1),
    {
        let (lo, width) = pte_field_layout(f);
        get_field(self.0, lo, width)
    }

    /// Sets field `f` to the low bits of `x`.
    pub fn set(&mut self, f: PteField, x: u32)
        ensures
            final(self).0 == with_field(old(self).0, pte_layout(f).0, pte_layout(f).1, x),
    {
        let (lo, width) = pte_field_layout(f);
        self.0 = set_field(self.0, lo, width, x);
    }

    /// Frame number of the page.
    pub fn address(self) -> (r: u32)
        ensures
            r == field_of(self.0, 12, 20),
    {
        self.get(PteField::Address)
    }

    /// Sets the page's frame number.
    pub fn set_address(&mut self, x: u32)
        ensures
            final(self).0 == with_field(old(self).0, 12, 20, x),
    {
        self.set(PteField::Address, x)
    }

    /// Whether the entry is present.
    pub fn present(self) -> (r: u8)
        ensures
            r == field_of(self.0, 0, 1),
    {
        proof {
            lemma_one_bit(self.0, 0);
        }
        self.get(PteField::Present) as u8
    }

    /// Sets the present bit.
    pub fn set_present(&mut self, x: u8)
        ensures
            final(self).0 == with_field(old(self).0, 0, 1, x as u32),
    {
        self.set(PteField::Present, x as u32)
    }

    /// Whether the page may be written.
    pub fn read_write(self) -> (r: u8)
        ensures
            r == field_of(self.0, 1, 1),
    {
        proof {
            lemma_one_bit(self.0, 1);
        }
        self.get(PteField::ReadWrite) as u8
    }

    /// Sets the read/write bit.
    pub fn set_read_write(&mut self, x: u8)
        ensures
            final(self).0 == with_field(old(self).0, 1, 1, x as u32),
    {
        self.set(PteField::ReadWrite, x as u32)
    }

    /// Whether user mode may access the page.
    pub fn user_supervisor(self) -> (r: u8)
        ensures
            r == field_of(self.0, 2, 1),
    {
        proof {
            lemma_one_bit(self.0, 2);
        }
        self.get(PteField::UserSupervisor) as u8
    }

    /// Sets the user/supervisor bit.
    pub fn set_user_supervisor(&mut self, x: u8)
        ensures
            final(self).0 == with_field(old(self).0, 2, 1, x as u32),
    {
        self.set(PteField::UserSupervisor, x as u32)
    }
}

/// A page directory: 1024 entries.
pub struct PageDirectory(pub Vec<PageDirectoryEntry>);

impl PageDirectory {
    /// A directory of empty entries.
    pub fn empty() -> (r: Self)
        ensures
            r.0@ == Seq::new(1024, |i: int| PageDirectoryEntry(0)),
    {
        let mut v: Vec<PageDirectoryEntry> = Vec::new();
        while v.len() < PAGE_DIRECTORY_SIZE
            invariant
                v@.len() <= 1024,
                forall|i: int| 0 <= i < v@.len() ==> #[trigger] v@[i] == PageDirectoryEntry(0),
            decreases 1024 - v@.len(),
        {
            v.push(PageDirectoryEntry::empty());
        }
        assert(v@ =~= Seq::new(1024, |i: int| PageDirectoryEntry(0)));
        Self(v)
    }
}

/// A page table: 1024 entries.
pub struct PageTable(pub Vec<PageTableEntry>);

impl PageTable {
    /// A table of empty entries.
    pub fn empty() -> (r: Self)
        ensures
            r.0@ == Seq::new(1024, |i: int| PageTableEntry(0)),
    {
        let mut v: Vec<PageTableEntry> = Vec::new();
        while v.len() < PAGE_TABLE_SIZE
            invariant
                v@.len() <= 1024,
                forall|i: int| 0 <= i < v@.len() ==> #[trigger] v@[i] == PageTableEntry(0),
            decreases 1024 - v@.len(),
        {
            v.push(PageTableEntry::empty());
        }
        assert(v@ =~= Seq::new(1024, |i: int| PageTableEntry(0)));
        Self(v)
    }
}

} // verus!
