//! Interrupt descriptors and the register frame saved on an interrupt.
use vstd::prelude::*;

verus! {

/// Registers pushed by the interrupt entry code, in stack order.
#[derive(Clone, Copy, Debug, PartialEq, Eq, Structural)]
pub struct InterruptRegisters {
    pub cr2: u32,
    pub ds: u32,
    pub edi: u32,
    pub esi: u32,
    pub ebp: u32,
    pub esp: u32,
    pub ebx: u32,
    pub edx: u32,
    pub ecx: u32,
    pub eax: u32,
    pub intno: u32,
    pub err_code: u32,
    pub eip: u32,
    pub csm: u32,
    pub eflags: u32,
    pub useresp: u32,
    pub ss: u32,
}

impl InterruptRegisters {
    /// The frame `new(eip, esp)` builds.
    pub open spec fn new_spec(eip: u32, esp: u32) -> Self {
        InterruptRegisters {
            cr2: 0,
            ds: 0,
            edi: 0,
            esi: 0,
            ebp: 0,
            esp: esp,
            ebx: 0,
            edx: 0,
            ecx: 0,
            eax: 0,
            intno: 0,
            err_code: 0,
            eip: eip,
            csm: 0,
            eflags: 0,
            useresp: 0,
            ss: 0,
        }
    }

    /// A frame that starts execution at `eip` with stack pointer `esp`,
    /// every other register zero.
    pub fn new(eip: u32, esp: u32) -> (r: Self)
        ensures
            r == Self::new_spec(eip, esp),
    {
        InterruptRegisters {
            cr2: 0,
            ds: 0,
            edi: 0,
            esi: 0,
            ebp: 0,
            esp,
            ebx: 0,
            edx: 0,
            ecx: 0,
            eax: 0,
            intno: 0,
            err_code: 0,
            eip,
            csm: 0,
            eflags: 0,
            useresp: 0,
            ss: 0,
        }
    }
}

} // verus!

verus! {

/// Number of entries in the interrupt descriptor table.
pub const MAX_INTERRUPT_DESCRIPTORS: usize = 256;

/// Kind of descriptor, kept in the low nibble of the attribute byte.
#[derive(Clone, Copy, Debug, PartialEq, Eq, Structural)]
pub enum GateType {
    NoGate,
    TaskGate,
    InterruptGate16,
    TrapGate16,
    InterruptGate32,
    TrapGate32,
}

/// The ring allowed to raise the interrupt by software.
#[derive(Clone, Copy, Debug, PartialEq, Eq, Structural)]
pub enum PrivilegeLevel {
    KernelMode,
    Ring1,
    Ring2,
    UserMode,
}

/// Whether the descriptor is in use.
#[derive(Clone, Copy, Debug, PartialEq, Eq, Structural)]
pub enum PresentBit {
    Absent,
    Present,
}

/// The number of a gate type.
pub open spec fn gate_value(g: GateType) -> int {
    match g {
        GateType::NoGate => 0,
        GateType::TaskGate => 0b0101,
        GateType::InterruptGate16 => 0b0110,
        GateType::TrapGate16 => 0b0111,
        GateType::InterruptGate32 => 0b1110,
        GateType::TrapGate32 => 0b1111,
    }
}

/// The number of a privilege level.
pub open spec fn level_value(l: PrivilegeLevel) -> int {
    match l {
        PrivilegeLevel::KernelMode => 0,
        PrivilegeLevel::Ring1 => 1,
        PrivilegeLevel::Ring2 => 2,
        PrivilegeLevel::UserMode => 3,
    }
}

/// The attribute byte: present bit 7, privilege bits 6-5, gate type bits 3-0.
#[derive(Clone, Copy, Debug, PartialEq, Eq, Structural)]
pub struct Attributes(pub u8);

impl Attributes {
    /// Packs the present bit, privilege level and gate type.
    pub fn new(present: PresentBit, dpl: PrivilegeLevel, gate_type: GateType) -> (r: Self)
        ensures
            r.0 == 128 * (if present == PresentBit::Present { 1int } else { 0 }) + 32 * level_value(dpl) + gate_value(gate_type),
    {
        let p: u8 = match present {
            PresentBit::Absent => 0,
            PresentBit::Present => 1,
        };
        let d: u8 = match dpl {
            PrivilegeLevel::KernelMode => 0,
            PrivilegeLevel::Ring1 => 1,
            PrivilegeLevel::Ring2 => 2,
            PrivilegeLevel::UserMode => 3,
        };
        let g: u8 = match gate_type {
            GateType::NoGate => 0,
            GateType::TaskGate => 0b0101,
            GateType::InterruptGate16 => 0b0110,
            GateType::TrapGate16 => 0b0111,
            GateType::InterruptGate32 => 0b1110,
            GateType::TrapGate32 => 0b1111,
        };
        let v = (p << 7) | (d << 5) | g;
        assert(v == 128 * p + 32 * d + g) by (bit_vector)
            requires
                p <= 1,
                d <= 3,
                g <= 15,
                v == (p << 7) | (d << 5) | g,
        ;
        Self(v)
    }

    /// The all-zero attribute byte (absent).
    pub fn empty() -> (r: Self)
        ensures
            r.0 == 0,
    {
        Self(0)
    }

    /// The attribute byte.
    pub fn to_u8(self) -> (r: u8)
        ensures
            r == self.0,
    {
        self.0
    }
}

/// An interrupt gate: handler address split in two halves, code selector
/// and attributes.
#[derive(Clone, Copy, Debug, PartialEq, Eq, Structural)]
pub struct InterruptDescriptor {
    pub isr_low: u16,
    pub kernel_cs: u16,
    pub zero: u8,
    pub attributes: Attributes,
    pub isr_high: u16,
}

impl InterruptDescriptor {
    /// A gate to the handler at `offset`; only its low 32 bits are kept.
    pub fn new(offset: usize, kernel_cs: u16, attributes: Attributes) -> (r: Self)
        ensures
            r.isr_low == offset % 0x1_0000,
            r.isr_high == (offset / 0x1_0000) % 0x1_0000,
            r.kernel_cs == kernel_cs,
            r.zero == 0,
            r.attributes == attributes,
    {
        let low = offset & 0xFFFF;
        let high = (offset >> 16) & 0xFFFF;
        assert(low == offset % 0x1_0000 && high == (offset / 0x1_0000) % 0x1_0000) by (bit_vector)
            requires
                low == offset & 0xFFFF,
                high == (offset >> 16) & 0xFFFF,
        ;
        Self { isr_low: low as u16, kernel_cs, zero: 0, attributes, isr_high: high as u16 }
    }

    /// The handler address this gate points to.
    pub fn offset(&self) -> (r: u32)
        ensures
            r == self.isr_high * 0x1_0000 + self.isr_low,
    {
        let h = self.isr_high as u32;
        let l = self.isr_low as u32;
        assert((h << 16) | l == h * 0x1_0000 + l) by (bit_vector)
            requires
                h <= 0xFFFF,
                l <= 0xFFFF,
        ;
        (h << 16) | l
    }
}

/// A gate's handler address reads back as the address it was built from,
/// reduced to 32 bits.
pub proof fn law_descriptor_offset_round_trip(offset: usize, d: InterruptDescriptor)
    requires
        d.isr_low == offset % 0x1_0000,
        d.isr_high == (offset / 0x1_0000) % 0x1_0000,
    ensures
        d.isr_high * 0x1_0000 + d.isr_low == (offset as int) % 0x1_0000_0000int,
{
    let low = d.isr_low as int;
    let high = d.isr_high as int;
    let o = offset as int;
    assert(high * 0x1_0000 + low == o % 0x1_0000_0000int) by (nonlinear_arith)
        requires
            low == o % 0x1_0000,
            high == (o / 0x1_0000) % 0x1_0000,
            o >= 0,
    {
        vstd::arithmetic::div_mod::lemma_fundamental_div_mod(o, 0x1_0000);
        vstd::arithmetic::div_mod::lemma_mod_breakdown(o, 0x1_0000, 0x1_0000);
    }
}

/// The interrupt descriptor table.
pub struct InterruptDescriptorTable {
    pub entries: Vec<InterruptDescriptor>,
}

/// The descriptor for vectors that have no handler.
pub open spec fn absent_descriptor() -> InterruptDescriptor {
    InterruptDescriptor { isr_low: 0, kernel_cs: 0, zero: 0, attributes: Attributes(0), isr_high: 0 }
}

/// Descriptor of every installed entry point: present, kernel mode, 32-bit interrupt gate.
pub open spec fn entry_descriptor(entry: usize) -> InterruptDescriptor {
    InterruptDescriptor {
        isr_low: (entry % 0x1_0000) as u16,
        kernel_cs: 8,
        zero: 0,
        attributes: Attributes(0x8E),
        isr_high: ((entry / 0x1_0000) % 0x1_0000) as u16,
    }
}

impl InterruptDescriptorTable {
    /// A table of 256 absent descriptors.
    pub fn new() -> (r: Self)
        ensures
            r.entries@ == Seq::new(256, |i: int| absent_descriptor()),
    {
        let mut entries: Vec<InterruptDescriptor> = Vec::new();
        while entries.len() < MAX_INTERRUPT_DESCRIPTORS
            invariant
                entries@.len() <= 256,
                forall|i: int| 0 <= i < entries@.len() ==> #[trigger] entries@[i] == absent_descriptor(),
            decreases 256 - entries@.len(),
        {
            entries.push(InterruptDescriptor::new(0, 0, Attributes::empty()));
        }
        assert(entries@ =~= Seq::new(256, |i: int| absent_descriptor()));
        Self { entries }
    }

    /// The value the table's descriptor register gets as its limit.
    pub fn limit(&self) -> (r: u16)
        ensures
            r == 2047,
    {
        (MAX_INTERRUPT_DESCRIPTORS * 8 - 1) as u16
    }

    /// Replaces descriptor `index`.
    pub fn set_descriptor(&mut self, index: u8, descriptor: InterruptDescriptor)
        requires
            old(self).entries@.len() == 256,
        ensures
            final(self).entries@ == old(self).entries@.update(index as int, descriptor),
    {
        self.entries.set(index as usize, descriptor);
    }
}

/// The kernel's table: exception entry `i` at vector `i`, IRQ entry `i` at
/// vector `32 + i`, every other vector absent.
pub fn build_idt(isr_entries: &[usize], irq_entries: &[usize]) -> (r: InterruptDescriptorTable)
    requires
        isr_entries@.len() <= 32,
        irq_entries@.len() <= 16,
    ensures
        r.entries@.len() == 256,
        forall|i: int| 0 <= i < isr_entries@.len() ==> #[trigger] r.entries@[i] == entry_descriptor(isr_entries@[i]),
        forall|i: int| 0 <= i < irq_entries@.len() ==> #[trigger] r.entries@[32 + i] == entry_descriptor(irq_entries@[i]),
        forall|i: int|
            0 <= i < 256 && !(0 <= i < isr_entries@.len()) && !(32 <= i < 32 + irq_entries@.len()) ==> #[trigger] r.entries@[i]
                == absent_descriptor(),
{
    let mut idt = InterruptDescriptorTable::new();
    let attributes = Attributes::new(PresentBit::Present, PrivilegeLevel::KernelMode, GateType::InterruptGate32);
    let mut index: usize = 0;
    while index < isr_entries.len()
        invariant
            isr_entries@.len() <= 32,
            index <= isr_entries@.len(),
            attributes == Attributes(0x8E),
            idt.entries@.len() == 256,
            forall|i: int| 0 <= i < index ==> #[trigger] idt.entries@[i] == entry_descriptor(isr_entries@[i]),
            forall|i: int| index <= i < 256 ==> #[trigger] idt.entries@[i] == absent_descriptor(),
        decreases isr_entries@.len() - index,
    {
        idt.set_descriptor(index as u8, InterruptDescriptor::new(isr_entries[index], 8, attributes));
        index = index + 1;
    }
    let mut index: usize = 0;
    while index < irq_entries.len()
        invariant
            isr_entries@.len() <= 32,
            irq_entries@.len() <= 16,
            index <= irq_entries@.len(),
            attributes == Attributes(0x8E),
            idt.entries@.len() == 256,
            forall|i: int| 0 <= i < isr_entries@.len() ==> #[trigger] idt.entries@[i] == entry_descriptor(isr_entries@[i]),
            forall|i: int| 0 <= i < index ==> #[trigger] idt.entries@[32 + i] == entry_descriptor(irq_entries@[i]),
            forall|i: int|
                isr_entries@.len() <= i < 256 && !(32 <= i < 32 + index) ==> #[trigger] idt.entries@[i] == absent_descriptor(),
        decreases irq_entries@.len() - index,
    {
        idt.set_descriptor(index as u8 + 32, InterruptDescriptor::new(irq_entries[index], 8, attributes));
        index = index + 1;
    }
    idt
}

} // verus!
