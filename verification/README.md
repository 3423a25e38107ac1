# kfs

The core of a small 32-bit x86 kernel, written in Verus: each function states
what it does in `requires`/`ensures`, and Verus proves it.

- `src/arch/x86/vmm/`: the buddy page allocator over the 4 GiB address space,
  boot-time reservation of memory from the loader's memory map, page table
  entries, process address spaces (map, unmap, fork, release of frames), the
  kernel's own mappings, demand paging decisions, the process table and the
  round-robin scheduler.
- `src/arch/x86/`: descriptor tables, the interrupt controllers' write
  sequences, interrupt locks, the timer tick and the system calls.
- `src/socket.rs`, `src/signals.rs`: sockets between processes and signal
  actions.
- `src/ps2*`, `src/keyboard*`, `src/shell.rs`, `src/printk.rs`: keyboard
  events, layouts, the shell prompt and kernel printing.
- `tests/`: tests on concrete values.
- `app/`: the hardware edges (I/O ports, the emulator's exit port, the PS/2
  controller) and a hosted driver that runs the shell on standard input and
  prints the boot memory report for a memory map file.

Hardware access stays in `app/`: the library computes what to write and
returns it, or takes what was read as an argument.
