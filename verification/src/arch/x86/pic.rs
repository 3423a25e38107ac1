//! The two 8259 interrupt controllers: which ports get which bytes to remap,
//! mask, unmask and acknowledge interrupt lines. The writes themselves are
//! port I/O, done by the caller in the order given.
use vstd::prelude::*;

verus! {

/// Command port of the master controller.
pub const PIC1_COMMAND: u16 = 0x20;

/// Data port of the master controller.
pub const PIC1_DATA: u16 = 0x21;

/// Command port of the slave controller.
pub const PIC2_COMMAND: u16 = 0xA0;

/// Data port of the slave controller.
pub const PIC2_DATA: u16 = 0xA1;

/// End-of-interrupt command.
pub const PIC_EOI: u8 = 0x20;

/// Line of the master the slave is wired to.
pub const CASCADE_IRQ: u8 = 2;

/// First initialisation word: initialise, a fourth word follows.
pub const ICW1_INIT_ICW4: u8 = 0x11;

/// Fourth initialisation word: 8086 mode.
pub const ICW4_8086: u8 = 0x01;

/// The writes that acknowledge interrupt line `irq`: the slave too for lines 8 and up.
pub fn send_eoi(irq: u8) -> (r: Vec<(u16, u8)>)
    ensures
        r@ == (if irq >= 8 {
            seq![(PIC2_COMMAND, PIC_EOI), (PIC1_COMMAND, PIC_EOI)]
        } else {
            seq![(PIC1_COMMAND, PIC_EOI)]
        }),
{
    let mut w: Vec<(u16, u8)> = Vec::new();
    if irq >= 8 {
        w.push((PIC2_COMMAND, PIC_EOI));
    }
    w.push((PIC1_COMMAND, PIC_EOI));
    proof {
        if irq >= 8 {
            assert(w@ =~= seq![(PIC2_COMMAND, PIC_EOI), (PIC1_COMMAND, PIC_EOI)]);
        } else {
            assert(w@ =~= seq![(PIC1_COMMAND, PIC_EOI)]);
        }
    }
    w
}

/// The writes that move the master's lines to vectors from `offset1` and
/// the slave's to vectors from `offset2`, cascade the slave on line 2,
/// select 8086 mode and unmask every line.
pub fn remap(offset1: u32, offset2: u32) -> (r: Vec<(u16, u8)>)
    ensures
        r@ == seq![
            (PIC1_COMMAND, ICW1_INIT_ICW4),
            (PIC2_COMMAND, ICW1_INIT_ICW4),
            (PIC1_DATA, offset1 as u8),
            (PIC2_DATA, offset2 as u8),
            (PIC1_DATA, 4u8),
            (PIC2_DATA, 2u8),
            (PIC1_DATA, ICW4_8086),
            (PIC2_DATA, ICW4_8086),
            (PIC1_DATA, 0u8),
            (PIC2_DATA, 0u8),
        ],
{
    let mut w: Vec<(u16, u8)> = Vec::new();
    w.push((PIC1_COMMAND, ICW1_INIT_ICW4));
    w.push((PIC2_COMMAND, ICW1_INIT_ICW4));
    w.push((PIC1_DATA, offset1 as u8));
    w.push((PIC2_DATA, offset2 as u8));
    w.push((PIC1_DATA, 1u8 << CASCADE_IRQ));
    w.push((PIC2_DATA, 2));
    w.push((PIC1_DATA, ICW4_8086));
    w.push((PIC2_DATA, ICW4_8086));
    w.push((PIC1_DATA, 0));
    w.push((PIC2_DATA, 0));
    assert(1u8 << 2u8 == 4u8) by (bit_vector);
    assert(w@ =~= seq![
        (PIC1_COMMAND, ICW1_INIT_ICW4),
        (PIC2_COMMAND, ICW1_INIT_ICW4),
        (PIC1_DATA, offset1 as u8),
        (PIC2_DATA, offset2 as u8),
        (PIC1_DATA, 4u8),
        (PIC2_DATA, 2u8),
        (PIC1_DATA, ICW4_8086),
        (PIC2_DATA, ICW4_8086),
        (PIC1_DATA, 0u8),
        (PIC2_DATA, 0u8),
    ]);
    w
}

/// The writes that mask every line of both controllers.
pub fn disable() -> (r: Vec<(u16, u8)>)
    ensures
        r@ == seq![(PIC1_DATA, 0xffu8), (PIC2_DATA, 0xffu8)],
{
    let mut w: Vec<(u16, u8)> = Vec::new();
    w.push((PIC1_DATA, 0xff));
    w.push((PIC2_DATA, 0xff));
    assert(w@ =~= seq![(PIC1_DATA, 0xffu8), (PIC2_DATA, 0xffu8)]);
    w
}

/// The data port holding the mask of `irq_line`, and the line's bit in it.
pub fn mask_port(irq_line: u8) -> (r: (u16, u8))
    requires
        irq_line < 16,
    ensures
        irq_line < 8 ==> r == (PIC1_DATA, irq_line),
        irq_line >= 8 ==> r == (PIC2_DATA, (irq_line - 8) as u8),
{
    if irq_line < 8 {
        (PIC1_DATA, irq_line)
    } else {
        (PIC2_DATA, irq_line - 8)
    }
}

/// The mask `value` with the line's bit set.
pub fn set_mask(value: u8, bit: u8) -> (r: u8)
    requires
        bit < 8,
    ensures
        r == value | (1u8 << bit),
{
    value | (1u8 << bit)
}

/// The mask `value` with the line's bit cleared.
pub fn clear_mask(value: u8, bit: u8) -> (r: u8)
    requires
        bit < 8,
    ensures
        r == value & !(1u8 << bit),
{
    value & !(1u8 << bit)
}

/// The interrupt line of vector `intno`: vectors from 32 on are lines.
pub fn irq_index(intno: u32) -> (r: Option<usize>)
    ensures
        intno < 32 ==> r is None,
        intno >= 32 ==> r == Some((intno - 32) as usize),
{
    if intno < 32 {
        None
    } else {
        Some((intno - 32) as usize)
    }
}

} // verus!
