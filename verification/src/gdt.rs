//! The global descriptor table written at a fixed low address.
use vstd::prelude::*;

pub mod access;

verus! {

/// A segment descriptor in the standard x86 layout (limit bits 0-15 at 0,
/// base bits 0-23 at 16, flag bits 0-7 at 40, limit bits 16-19 at 48, flag
/// bits 12-15 at 52, base bits 24-31 at 56), with base bits 24-31 also ORed
/// into bits 40-47 as the packing shifts the whole base into the high half.
pub open spec fn descriptor_bits(flags: u16, limit: u32, base: u32) -> u64 {
    (limit as u64 & 0xFFFF) | ((base as u64 & 0xFF_FFFF) << 16) | ((flags as u64 & 0xFF) << 40) | (((
    limit as u64 >> 16) & 0xF) << 48) | (((flags as u64 >> 12) & 0xF) << 52) | ((base as u64 >> 24) << 56) | ((
    base as u64 >> 24) << 40)
}

/// Packs `flags`, `limit` and `base` into a segment descriptor.
pub fn create_gdt_descriptor(flags: u16, limit: u32, base: u32) -> (r: u64)
    ensures
        r == descriptor_bits(flags, limit, base),
{
    let f = flags as u64;
    let l = limit as u64;
    let b = base as u64;
    let mut descriptor: u64;
    descriptor = l & 0x000F_0000;
    descriptor = descriptor | ((f << 8) & 0x00F0_FF00);
    descriptor = descriptor | ((b >> 16) & 0x0000_00FF);
    descriptor = descriptor | (b & 0xFF00_0000);
    descriptor = descriptor << 32;
    descriptor = descriptor | (b << 16);
    descriptor = descriptor | (l & 0x0000_FFFF);
    assert(descriptor == (l & 0xFFFF) | ((b & 0xFF_FFFF) << 16) | ((f & 0xFF) << 40) | (((l >> 16) & 0xF) << 48)
        | (((f >> 12) & 0xF) << 52) | ((b >> 24) << 56) | ((b >> 24) << 40)) by (bit_vector)
        requires
            f <= 0xFFFF,
            l <= 0xFFFF_FFFF,
            b <= 0xFFFF_FFFF,
            descriptor == ((((((l & 0x000F_0000) | ((f << 8) & 0x00F0_FF00)) | ((b >> 16) & 0x0000_00FF)) | (b
                & 0xFF00_0000)) << 32) | (b << 16)) | (l & 0x0000_FFFF),
    ;
    descriptor
}

/// Number of entries in this table.
pub const GDT_SIZE: usize = 7;

/// The table: a null entry, kernel code, kernel data and stack, user code,
/// user data and stack.
pub fn gdt_table() -> (r: [u64; 7])
    ensures
        r@ == seq![
            0u64,
            descriptor_bits(0xC09A, 0xFFFFF, 0),
            descriptor_bits(0xC092, 0xFFFFF, 0),
            descriptor_bits(0xC092, 0xFFFFF, 0),
            descriptor_bits(0xC0FA, 0xFFFFF, 0),
            descriptor_bits(0xC0F2, 0xFFFFF, 0),
            descriptor_bits(0xC0F2, 0xFFFFF, 0),
        ],
{
    let mut gdt: [u64; 7] = [0u64; 7];
    gdt[1] = create_gdt_descriptor(0xC09A, 0xFFFFF, 0x0);
    gdt[2] = create_gdt_descriptor(0xC092, 0xFFFFF, 0x0);
    gdt[3] = gdt[2];
    gdt[4] = create_gdt_descriptor(0xC0FA, 0xFFFFF, 0x0);
    gdt[5] = create_gdt_descriptor(0xC0F2, 0xFFFFF, 0x0);
    gdt[6] = gdt[5];
    assert(gdt@ =~= seq![
        0u64,
        descriptor_bits(0xC09A, 0xFFFFF, 0),
        descriptor_bits(0xC092, 0xFFFFF, 0),
        descriptor_bits(0xC092, 0xFFFFF, 0),
        descriptor_bits(0xC0FA, 0xFFFFF, 0),
        descriptor_bits(0xC0F2, 0xFFFFF, 0),
        descriptor_bits(0xC0F2, 0xFFFFF, 0),
    ]);
    gdt
}

} // verus!
