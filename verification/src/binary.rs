//! In-memory description of a user program: its segments, entry point and stack.
use vstd::prelude::*;

verus! {

/// Access rights of a segment: read only, or read and write.
#[derive(Clone, Copy, Debug, PartialEq, Eq, Structural)]
pub enum Permissions {
    Read,
    ReadWrite,
}

impl Permissions {
    /// The page-table read/write bit for these rights (0 or 1).
    pub fn bit(self) -> (r: u8)
        ensures
            r == (if self == Permissions::ReadWrite { 1u8 } else { 0u8 }),
    {
        match self {
            Permissions::Read => 0,
            Permissions::ReadWrite => 1,
        }
    }
}

/// A piece of the program's address space: `size` bytes at `vaddr`, filled
/// from kernel address `offset` when there is one and zeroed otherwise.
#[derive(Clone, Copy, Debug, PartialEq, Eq)]
pub struct Segment {
    pub offset: Option<usize>,
    pub vaddr: usize,
    pub size: usize,
    pub permissions: Permissions,
}

/// A program: its segments, its entry address and its initial stack pointer.
pub struct Binary {
    pub segments: Vec<Segment>,
    pub entry: usize,
    pub stack: usize,
}

impl Binary {
    /// A program with no segments yet.
    pub fn new(entry: usize, stack: usize) -> (r: Self)
        ensures
            r.segments@ == Seq::<Segment>::empty(),
            r.entry == entry,
            r.stack == stack,
    {
        Self { segments: Vec::new(), entry, stack }
    }
}

} // verus!
