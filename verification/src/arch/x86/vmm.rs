pub mod page;
pub mod page_allocator;
pub mod process;
pub mod init;
pub mod demand_paging;
pub mod allocators;
pub mod addressspace;
pub mod kernel_map;
