pub mod kmalloc;
