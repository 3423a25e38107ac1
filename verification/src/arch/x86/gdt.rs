//! The kernel's global descriptor table and task state segment.
use vstd::prelude::*;
use crate::gdt::{create_gdt_descriptor, descriptor_bits};

verus! {

/// One segment descriptor.
#[derive(Clone, Copy, Debug, PartialEq, Eq, Structural)]
pub struct GdtEntry(pub u64);

impl GdtEntry {
    /// The null descriptor.
    pub fn disabled() -> (r: Self)
        ensures
            r.0 == 0,
    {
        Self(0)
    }

    /// Packs `flags`, `limit` and `base` into a descriptor.
    pub fn new(flags: u16, limit: u32, base: u32) -> (r: Self)
        ensures
            r.0 == descriptor_bits(flags, limit, base),
    {
        Self(create_gdt_descriptor(flags, limit, base))
    }
}

/// Number of descriptors in the kernel's table.
pub const GDT_SIZE: usize = 6;

pub const SEGMENT_SELECTOR_KERNEL_CODE: usize = 1;
pub const SEGMENT_SELECTOR_KERNEL_DATA: usize = 2;
pub const SEGMENT_SELECTOR_USER_CODE: usize = 3;
pub const SEGMENT_SELECTOR_USER_DATA: usize = 4;
pub const SEGMENT_SELECTOR_TSS: usize = 5;

pub const SEGMENT_MODE_KERNEL: u32 = 0b00;
pub const SEGMENT_MODE_USER: u32 = 0b11;

/// Byte offset of the kernel code descriptor, the selector interrupt gates use.
pub const KERNEL_CODE_OFFSET: usize = 8;

/// Size in bytes of the task state segment (26 double words and 2 words).
pub const TSS_SIZE: u32 = 104;

/// The hardware task state segment; only the ring-0 stack is used.
#[derive(Clone, Copy, Debug, PartialEq, Eq, Structural)]
pub struct TaskSwitchSegment {
    pub prev_tss: u32,
    pub esp0: u32,
    pub ss0: u32,
    pub esp1: u32,
    pub ss1: u32,
    pub esp2: u32,
    pub ss2: u32,
    pub cr3: u32,
    pub eip: u32,
    pub eflags: u32,
    pub eax: u32,
    pub ecx: u32,
    pub edx: u32,
    pub ebx: u32,
    pub esp: u32,
    pub ebp: u32,
    pub esi: u32,
    pub edi: u32,
    pub es: u32,
    pub cs: u32,
    pub ss: u32,
    pub ds: u32,
    pub fs: u32,
    pub gs: u32,
    pub ldt: u32,
    pub trap: u16,
    pub iopb: u16,
}

impl TaskSwitchSegment {
    /// The segment as the kernel starts with it: everything zero but the
    /// ring-0 stack segment and the I/O map base.
    pub fn initial() -> (r: Self)
        ensures
            r.ss0 == (SEGMENT_SELECTOR_KERNEL_CODE << 3) as u32,
            r.iopb == TSS_SIZE as u16,
            r.esp0 == 0,
    {
        TaskSwitchSegment {
            prev_tss: 0,
            esp0: 0,
            ss0: (SEGMENT_SELECTOR_KERNEL_CODE << 3) as u32,
            esp1: 0,
            ss1: 0,
            esp2: 0,
            ss2: 0,
            cr3: 0,
            eip: 0,
            eflags: 0,
            eax: 0,
            ecx: 0,
            edx: 0,
            ebx: 0,
            esp: 0,
            ebp: 0,
            esi: 0,
            edi: 0,
            es: 0,
            cs: 0,
            ss: 0,
            ds: 0,
            fs: 0,
            gs: 0,
            ldt: 0,
            trap: 0,
            iopb: TSS_SIZE as u16,
        }
    }

    /// Points the ring-0 stack at the top of the kernel stack that starts at
    /// `stack_vaddr` and is `stack_size` bytes long.
    pub fn set_kernel_stack(&mut self, stack_vaddr: u32, stack_size: u32)
        requires
            4 <= stack_size,
            stack_vaddr + stack_size <= u32::MAX,
        ensures
            *final(self) == (TaskSwitchSegment {
                esp0: (stack_vaddr + stack_size - 4) as u32,
                ss0: (SEGMENT_SELECTOR_KERNEL_DATA << 3) as u32,
                iopb: TSS_SIZE as u16,
                ..*old(self)
            }),
    {
        self.esp0 = stack_vaddr + stack_size - 4;
        self.ss0 = (SEGMENT_SELECTOR_KERNEL_DATA << 3) as u32;
        self.iopb = TSS_SIZE as u16;
    }
}

/// The kernel's descriptors: null, kernel code and data, user code and data,
/// and the task state segment at `tss_vaddr`.
pub fn gdt_entries(tss_vaddr: u32) -> (r: Vec<GdtEntry>)
    ensures
        r@ == seq![
            GdtEntry(0),
            GdtEntry(descriptor_bits(0xC09A, 0xFFFFF, 0)),
            GdtEntry(descriptor_bits(0xC092, 0xFFFFF, 0)),
            GdtEntry(descriptor_bits(0xC0FA, 0xFFFFF, 0)),
            GdtEntry(descriptor_bits(0xC0F2, 0xFFFFF, 0)),
            GdtEntry(descriptor_bits(0x0089, 103, tss_vaddr)),
        ],
{
    let mut entries: Vec<GdtEntry> = Vec::new();
    entries.push(GdtEntry::disabled());
    entries.push(GdtEntry::new(0xC09A, 0xFFFFF, 0x0));
    entries.push(GdtEntry::new(0xC092, 0xFFFFF, 0x0));
    entries.push(GdtEntry::new(0xC0FA, 0xFFFFF, 0x0));
    entries.push(GdtEntry::new(0xC0F2, 0xFFFFF, 0x0));
    entries.push(GdtEntry::new(0x0089, TSS_SIZE - 1, tss_vaddr));
    assert(entries@ =~= seq![
        GdtEntry(0),
        GdtEntry(descriptor_bits(0xC09A, 0xFFFFF, 0)),
        GdtEntry(descriptor_bits(0xC092, 0xFFFFF, 0)),
        GdtEntry(descriptor_bits(0xC0FA, 0xFFFFF, 0)),
        GdtEntry(descriptor_bits(0xC0F2, 0xFFFFF, 0)),
        GdtEntry(descriptor_bits(0x0089, 103, tss_vaddr)),
    ]);
    entries
}

} // verus!
