//! Layouts of the kernel's built-in test programs. Each takes the kernel
//! address of the program's machine code (and of its signal handler) and
//! describes the segments the program runs in.
use vstd::prelude::*;
use crate::binary::{Binary, Permissions, Segment};

verus! {

/// The program that forks and waits.
pub fn fork_bomb_test(code: usize) -> (r: Binary)
    ensures
        r.entry == 0x1000,
        r.stack == 0x0000,
        r.segments@ == seq![Segment { offset: Some(code), vaddr: 0x1000, size: 0x1000, permissions: Permissions::Read }],
{
    let mut bin = Binary::new(0x1000, 0x0000);
    bin.segments.push(Segment { offset: Some(code), vaddr: 0x1000, size: 0x1000, permissions: Permissions::Read });
    bin
}

/// The program that allocates without end.
pub fn leak_test(code: usize) -> (r: Binary)
    ensures
        r.entry == 0x1000,
        r.stack == 0x4000,
        r.segments@ == seq![Segment { offset: Some(code), vaddr: 0x1000, size: 0x1000, permissions: Permissions::Read }],
{
    let mut bin = Binary::new(0x1000, 0x4000);
    bin.segments.push(Segment { offset: Some(code), vaddr: 0x1000, size: 0x1000, permissions: Permissions::Read });
    bin
}

/// The program that writes into read-only memory.
pub fn memory_protection_test(code: usize) -> (r: Binary)
    ensures
        r.entry == 0x1000,
        r.stack == 0x4000,
        r.segments@ == seq![Segment { offset: Some(code), vaddr: 0x1000, size: 0x1000, permissions: Permissions::Read }, Segment { offset: None, vaddr: 0x2000, size: 0x1000, permissions: Permissions::Read }, Segment { offset: None, vaddr: 0x3000, size: 0x1000, permissions: Permissions::ReadWrite }],
{
    let mut bin = Binary::new(0x1000, 0x4000);
    bin.segments.push(Segment { offset: Some(code), vaddr: 0x1000, size: 0x1000, permissions: Permissions::Read });
    bin.segments.push(Segment { offset: None, vaddr: 0x2000, size: 0x1000, permissions: Permissions::Read });
    bin.segments.push(Segment { offset: None, vaddr: 0x3000, size: 0x1000, permissions: Permissions::ReadWrite });
    bin
}

/// The program that writes into its own data page.
pub fn memory_seperation_test(code: usize) -> (r: Binary)
    ensures
        r.entry == 0x1000,
        r.stack == 0x4000,
        r.segments@ == seq![Segment { offset: Some(code), vaddr: 0x1000, size: 0x1000, permissions: Permissions::Read }, Segment { offset: None, vaddr: 0x2000, size: 0x1000, permissions: Permissions::ReadWrite }, Segment { offset: None, vaddr: 0x3000, size: 0x1000, permissions: Permissions::ReadWrite }],
{
    let mut bin = Binary::new(0x1000, 0x4000);
    bin.segments.push(Segment { offset: Some(code), vaddr: 0x1000, size: 0x1000, permissions: Permissions::Read });
    bin.segments.push(Segment { offset: None, vaddr: 0x2000, size: 0x1000, permissions: Permissions::ReadWrite });
    bin.segments.push(Segment { offset: None, vaddr: 0x3000, size: 0x1000, permissions: Permissions::ReadWrite });
    bin
}

/// The program that installs a signal handler and signals itself.
pub fn signal_print_test(handler: usize, code: usize) -> (r: Binary)
    ensures
        r.entry == 0x4000,
        r.stack == 0x4000,
        r.segments@ == seq![Segment { offset: Some(handler), vaddr: 0x1000, size: 0x1000, permissions: Permissions::Read }, Segment { offset: Some(code), vaddr: 0x4000, size: 0x10000000, permissions: Permissions::Read }],
{
    let mut bin = Binary::new(0x4000, 0x4000);
    bin.segments.push(Segment { offset: Some(handler), vaddr: 0x1000, size: 0x1000, permissions: Permissions::Read });
    bin.segments.push(Segment { offset: Some(code), vaddr: 0x4000, size: 0x10000000, permissions: Permissions::Read });
    bin
}

/// The program that talks to its child through a socket.
pub fn sockets_test(code: usize) -> (r: Binary)
    ensures
        r.entry == 0x1000,
        r.stack == 0x4000,
        r.segments@ == seq![Segment { offset: Some(code), vaddr: 0x1000, size: 0x1000, permissions: Permissions::Read }, Segment { offset: None, vaddr: 0x2000, size: 0x1000, permissions: Permissions::ReadWrite }, Segment { offset: None, vaddr: 0x3000, size: 0x1000, permissions: Permissions::ReadWrite }],
{
    let mut bin = Binary::new(0x1000, 0x4000);
    bin.segments.push(Segment { offset: Some(code), vaddr: 0x1000, size: 0x1000, permissions: Permissions::Read });
    bin.segments.push(Segment { offset: None, vaddr: 0x2000, size: 0x1000, permissions: Permissions::ReadWrite });
    bin.segments.push(Segment { offset: None, vaddr: 0x3000, size: 0x1000, permissions: Permissions::ReadWrite });
    bin
}

/// The program that pushes and pops on its stack.
pub fn stack_test(code: usize) -> (r: Binary)
    ensures
        r.entry == 0x1000,
        r.stack == 0x4000,
        r.segments@ == seq![Segment { offset: Some(code), vaddr: 0x1000, size: 0x1000, permissions: Permissions::Read }, Segment { offset: None, vaddr: 0x3000, size: 0x1000, permissions: Permissions::ReadWrite }],
{
    let mut bin = Binary::new(0x1000, 0x4000);
    bin.segments.push(Segment { offset: Some(code), vaddr: 0x1000, size: 0x1000, permissions: Permissions::Read });
    bin.segments.push(Segment { offset: None, vaddr: 0x3000, size: 0x1000, permissions: Permissions::ReadWrite });
    bin
}

/// The program that waits for its children.
pub fn wait_test(code: usize) -> (r: Binary)
    ensures
        r.entry == 0x1000,
        r.stack == 0x4000,
        r.segments@ == seq![Segment { offset: Some(code), vaddr: 0x1000, size: 0x1000, permissions: Permissions::Read }, Segment { offset: None, vaddr: 0x3000, size: 0x1000, permissions: Permissions::ReadWrite }],
{
    let mut bin = Binary::new(0x1000, 0x4000);
    bin.segments.push(Segment { offset: Some(code), vaddr: 0x1000, size: 0x1000, permissions: Permissions::Read });
    bin.segments.push(Segment { offset: None, vaddr: 0x3000, size: 0x1000, permissions: Permissions::ReadWrite });
    bin
}

} // verus!
