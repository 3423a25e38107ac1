pub mod gdt;
pub mod idt;
pub mod interrupts;
pub mod pic;
pub mod scheduler;
pub mod syscall;
pub mod vmm;
