//! The access byte of a segment descriptor.
use vstd::prelude::*;

verus! {

/// The present bit (bit 7): set when the descriptor is populated.
#[derive(PartialEq, Eq, Clone, Copy, Debug, Structural)]
pub enum Presence {
    Invalid,
    Valid,
}

/// The descriptor privilege level (bits 6 and 5): 0 is kernel mode, 3 user mode.
#[derive(PartialEq, Eq, Clone, Copy, Debug, Structural)]
pub enum DescriptorPrivilege {
    Lvl0,
    Lvl1,
    Lvl2,
    Lvl3,
}

/// The descriptor type bit (bit 4): clear for a system segment, set for code
/// or data.
#[derive(PartialEq, Eq, Clone, Copy, Debug, Structural)]
pub enum SegmentType {
    System,
    CodeOrData,
}

/// The executable bit (bit 3): clear for data, set for code.
#[derive(PartialEq, Eq, Clone, Copy, Debug, Structural)]
pub enum ExecutabilityType {
    Data,
    Code,
}

/// The direction bit for data, the conforming bit for code (bit 2).
#[derive(PartialEq, Eq, Clone, Copy, Debug, Structural)]
pub enum Direction {
    GrowsUp,
    GrowsDown,
}

/// The readable bit for code, the writable bit for data (bit 1).
#[derive(PartialEq, Eq, Clone, Copy, Debug, Structural)]
pub enum ReadWriteAble {
    Clear,
    Enabled,
}

/// The accessed bit (bit 0).
#[derive(PartialEq, Eq, Clone, Copy, Debug, Structural)]
pub enum AccessBit {
    OnlyForSpecial,
    Default,
}

/// The permissions of a segment descriptor.
#[derive(Clone, Copy, Debug)]
pub struct Access {
    p: Presence,
    dpl: DescriptorPrivilege,
    s: SegmentType,
    e: ExecutabilityType,
    dc: Direction,
    rw: ReadWriteAble,
    a: AccessBit,
}

/// 1 when `b` holds, 0 otherwise.
pub open spec fn bit(b: bool) -> int {
    if b { 1 } else { 0 }
}

/// The privilege level as a number.
pub open spec fn privilege_level(dpl: DescriptorPrivilege) -> int {
    match dpl {
        DescriptorPrivilege::Lvl0 => 0,
        DescriptorPrivilege::Lvl1 => 1,
        DescriptorPrivilege::Lvl2 => 2,
        DescriptorPrivilege::Lvl3 => 3,
    }
}

/// The access byte built from its seven fields.
pub open spec fn access_byte(
    p: Presence,
    dpl: DescriptorPrivilege,
    s: SegmentType,
    e: ExecutabilityType,
    dc: Direction,
    rw: ReadWriteAble,
    a: AccessBit,
) -> int {
    128 * bit(p == Presence::Valid) + 32 * privilege_level(dpl) + 16 * bit(s == SegmentType::CodeOrData) + 8 * bit(
        e == ExecutabilityType::Code,
    ) + 4 * bit(dc == Direction::GrowsDown) + 2 * bit(rw == ReadWriteAble::Enabled) + bit(a == AccessBit::Default)
}

fn flag(b: bool) -> (r: u8)
    ensures
        r == bit(b),
{
    if b { 1 } else { 0 }
}

impl Access {
    /// The access byte these fields describe.
    pub closed spec fn value(&self) -> int {
        access_byte(self.p, self.dpl, self.s, self.e, self.dc, self.rw, self.a)
    }

    /// Collects the seven fields.
    pub fn new(
        p: Presence,
        dpl: DescriptorPrivilege,
        s: SegmentType,
        e: ExecutabilityType,
        dc: Direction,
        rw: ReadWriteAble,
        a: AccessBit,
    ) -> (r: Self)
        ensures
            r.value() == access_byte(p, dpl, s, e, dc, rw, a),
    {
        Access { p, dpl, s, e, dc, rw, a }
    }

    /// Packs the fields into the access byte, present bit highest.
    pub fn to_u8(&self) -> (r: u8)
        ensures
            r == self.value(),
    {
        let p = flag(self.p == Presence::Valid);
        let dpl: u8 = match self.dpl {
            DescriptorPrivilege::Lvl0 => 0,
            DescriptorPrivilege::Lvl1 => 1,
            DescriptorPrivilege::Lvl2 => 2,
            DescriptorPrivilege::Lvl3 => 3,
        };
        let s = flag(self.s == SegmentType::CodeOrData);
        let e = flag(self.e == ExecutabilityType::Code);
        let dc = flag(self.dc == Direction::GrowsDown);
        let rw = flag(self.rw == ReadWriteAble::Enabled);
        let a = flag(self.a == AccessBit::Default);
        let mut result: u8 = 0;
        result = result | (p << 7);
        result = result | (dpl << 5);
        result = result | (s << 4);
        result = result | (e << 3);
        result = result | (dc << 2);
        result = result | (rw << 1);
        result = result | a;
        assert(result == 128 * p + 32 * dpl + 16 * s + 8 * e + 4 * dc + 2 * rw + a) by (bit_vector)
            requires
                p <= 1,
                dpl <= 3,
                s <= 1,
                e <= 1,
                dc <= 1,
                rw <= 1,
                a <= 1,
                result == ((((((0u8 | (p << 7)) | (dpl << 5)) | (s << 4)) | (e << 3)) | (dc << 2)) | (rw << 1)) | a,
        ;
        result
    }
}

} // verus!
