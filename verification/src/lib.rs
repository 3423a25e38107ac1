//! A small i386 kernel's core logic: physical page allocation, process and
//! socket bookkeeping, signal handling, keyboard decoding and the shell prompt.
use vstd::prelude::*;

pub mod arch;
pub mod binaries;
pub mod binary;
pub mod bitmap;
pub mod boot;
pub mod conv;
pub mod gdt;
pub mod keyboard;
pub mod kmalloc;
pub mod port;
pub mod print;
pub mod printk;
pub mod scheduler;
pub mod ps2;
pub mod qemu;
pub mod shell;
pub mod signals;
pub mod socket;
pub mod stack_print_serial;

verus! {

} // verus!
