use kfs::arch::x86::gdt::gdt_entries;
use kfs::arch::x86::idt::{build_idt, Attributes, GateType, InterruptDescriptor, PresentBit, PrivilegeLevel};
use kfs::arch::x86::interrupts::lock::{GlobalInterruptLock, IRQLock, LockFlags};
use kfs::arch::x86::pic::{clear_mask, disable, irq_index, mask_port, remap, send_eoi, set_mask};
use kfs::arch::x86::vmm::kernel_map::{map_kernel, map_to};
use kfs::arch::x86::vmm::page::{PageDirectory, PageTable};
use kfs::arch::x86::vmm::addressspace::{Addressspace, MappedPage};
use kfs::arch::x86::vmm::page_allocator::PageAllocator;
use kfs::arch::x86::vmm::demand_paging::{serve_page_fault, FaultOutcome};
use kfs::arch::x86::vmm::process::VMA;
use kfs::ps2::{scancode_step, ScancodeLookup};
use kfs::arch::x86::vmm::allocators::kmalloc::{align_up, buddy_region, kfree_by_slab, kmalloc_route, Route};
use kfs::binaries::{fork_bomb_test, signal_print_test};
use kfs::binary::Permissions;
use kfs::bitmap::BitMap;
use kfs::conv::hextou;
use kfs::gdt::access::{
    Access, AccessBit, DescriptorPrivilege, Direction, ExecutabilityType, Presence, ReadWriteAble, SegmentType,
};
use kfs::gdt::{create_gdt_descriptor, gdt_table};
use kfs::kmalloc::{init as heap_init, BlockCache, Error, Mmap};
use kfs::printk::PrintkWriter;
use kfs::qemu::QemuExitCode;
use kfs::scheduler::{find_next_pid, kill, signal, sys_execve, sys_fork_internal, timer, ProcessControlBlock, Signal};
use kfs::arch::x86::idt::InterruptRegisters;
use kfs::shell::{echo_cmd, Prompt, PromptPushError, Shell, ShellAction, ShellCommand, ShellKey};

#[test]
fn bitmap_entries_round_trip_and_stay_apart() {
    let mut map: BitMap<16, 4> = BitMap::new();
    map.set(5, 3);
    map.set(6, 1);
    assert_eq!(map.get(5), 3);
    assert_eq!(map.get(6), 1);
    assert_eq!(map.get(4), 0);
    map.set(5, 0xFE);
    assert_eq!(map.get(5), 2);
    assert_eq!(map.get(6), 1);
    map.clear(6);
    assert_eq!(map.get(6), 0);
    assert_eq!(map.get(5), 2);
}

#[test]
fn bitmap_iterates_every_entry_in_order() {
    let mut map: BitMap<8, 2> = BitMap::new();
    map.set(0, 9);
    map.set(7, 15);
    let mut it = map.into_iter();
    let mut seen = Vec::new();
    while let Some(v) = it.next() {
        seen.push(v);
    }
    assert_eq!(seen, vec![9, 0, 0, 0, 0, 0, 0, 15]);
}

#[test]
fn pool_hands_out_lowest_free_page() {
    let mut mmap = Mmap::empty();
    assert_eq!(mmap.mmap(), Some(0));
    assert_eq!(mmap.mmap(), Some(4096));
    assert_eq!(mmap.munmap(0), Ok(()));
    assert_eq!(mmap.munmap(100), Err(()));
    assert_eq!(mmap.munmap(1024 * 4096), Err(()));
    assert_eq!(mmap.mmap(), Some(0));
    assert_eq!(mmap.mmap(), Some(2 * 4096));
}

#[test]
fn pool_runs_out_after_every_page() {
    let mut mmap = Mmap::empty();
    for k in 0..1024usize {
        assert_eq!(mmap.mmap(), Some(k * 4096));
    }
    assert_eq!(mmap.mmap(), None);
    assert_eq!(BlockCache::new(&mut mmap, 16).unwrap_err(), Error::MmapFailure);
    assert!(heap_init(&mut mmap).is_err());
}

#[test]
fn block_cache_walks_its_page() {
    let mut mmap = Mmap::empty();
    mmap.mmap();
    let cache = heap_init(&mut mmap).unwrap();
    assert_eq!(cache.object_size, 16);
    assert_eq!(cache.pages, vec![4096; 8]);
    assert_eq!(cache.bitmap, 0);
    let mut it = cache.into_iter();
    assert_eq!(it.next(), Some(4096));
    it.page_index = 2;
    assert_eq!(it.next(), Some(4096 + 32));
    it.current_position = 4096 + 4090;
    assert_eq!(it.next(), Some(4096));
    assert_eq!(it.page_index, 3);
    it.page_index = 7;
    it.current_position = 4096 + 4090;
    assert_eq!(it.next(), None);
}

#[test]
fn printk_hands_out_lines_and_full_buffers() {
    let mut w = PrintkWriter::new();
    assert!(w.write_str(b"ab").is_empty());
    assert_eq!(w.write_byte(b'\n'), b"ab\n".to_vec());
    assert!(w.flush().is_empty());
    let big = vec![b'x'; 1024];
    assert!(w.write_str(&big).is_empty());
    assert_eq!(w.write_byte(b'y'), big);
    assert_eq!(w.flush(), b"y".to_vec());
    assert_eq!(w.write_str(b"one\ntwo\n"), b"one\ntwo\n".to_vec());
}

#[test]
fn prompt_push_pop_and_full() {
    let mut p = Prompt::default(6);
    assert_eq!(p.len(), 0);
    assert!(!p.pop());
    for c in b"abcdef" {
        assert_eq!(p.push(*c), Ok(()));
    }
    assert_eq!(p.push(b'g'), Err(PromptPushError::PromptFull));
    assert!(p.pop());
    assert_eq!(p.len(), 5);
    p.clear();
    assert_eq!(p.len(), 0);
    assert!(p.execute().is_none());
}

fn type_line(shell: &mut Shell, line: &[u8]) {
    for c in line {
        match shell.handle_key(ShellKey::Char(*c)) {
            ShellAction::Echo(e) => assert_eq!(e, *c),
            other => panic!("unexpected {:?}", other),
        }
    }
}

#[test]
fn shell_runs_echo_with_its_arguments() {
    let mut shell = Shell::default(16);
    type_line(&mut shell, b"echo hi");
    match shell.handle_key(ShellKey::Enter) {
        ShellAction::Submit { line, command } => {
            assert_eq!(line, b"echo hi".to_vec());
            assert_eq!(command, Some((ShellCommand::Echo, b"hi".to_vec())));
            assert_eq!(echo_cmd(b"hi"), b"hi\n".to_vec());
        }
        other => panic!("unexpected {:?}", other),
    }
    assert_eq!(shell.prompt.len(), 0);
}

#[test]
fn echo_writes_its_arguments_then_a_newline() {
    assert_eq!(echo_cmd(b""), b"\n".to_vec());
    assert_eq!(echo_cmd(b"a b"), b"a b\n".to_vec());
}

#[test]
fn shell_recognises_exit_and_ignores_other_lines() {
    let mut shell = Shell::default(16);
    type_line(&mut shell, b"exit");
    match shell.handle_key(ShellKey::Enter) {
        ShellAction::Submit { command, .. } => assert_eq!(command, Some((ShellCommand::Exit, Vec::new()))),
        other => panic!("unexpected {:?}", other),
    }
    type_line(&mut shell, b"ls");
    assert!(matches!(shell.handle_key(ShellKey::Backspace), ShellAction::RemoveLast));
    assert!(matches!(shell.handle_key(ShellKey::ArrowUp), ShellAction::Nothing));
    match shell.handle_key(ShellKey::Enter) {
        ShellAction::Submit { line, command } => {
            assert_eq!(line, b"l".to_vec());
            assert_eq!(command, None);
        }
        other => panic!("unexpected {:?}", other),
    }
    assert!(matches!(shell.handle_key(ShellKey::Backspace), ShellAction::Nothing));
}

#[test]
fn pic_write_sequences() {
    assert_eq!(send_eoi(3), vec![(0x20, 0x20)]);
    assert_eq!(send_eoi(9), vec![(0xA0, 0x20), (0x20, 0x20)]);
    assert_eq!(
        remap(0x20, 0x28),
        vec![
            (0x20, 0x11),
            (0xA0, 0x11),
            (0x21, 0x20),
            (0xA1, 0x28),
            (0x21, 4),
            (0xA1, 2),
            (0x21, 1),
            (0xA1, 1),
            (0x21, 0),
            (0xA1, 0)
        ]
    );
    assert_eq!(disable(), vec![(0x21, 0xff), (0xA1, 0xff)]);
    assert_eq!(mask_port(3), (0x21, 3));
    assert_eq!(mask_port(10), (0xA1, 2));
    assert_eq!(set_mask(0, 3), 8);
    assert_eq!(clear_mask(0xff, 0), 0xfe);
    assert_eq!(irq_index(33), Some(1));
    assert_eq!(irq_index(5), None);
}

#[test]
fn heap_routes_by_size() {
    assert_eq!(kmalloc_route(100), Route::Slab(100));
    assert_eq!(kmalloc_route(2048), Route::Slab(2048));
    assert_eq!(kmalloc_route(2049), Route::Buddy(4096));
    assert_eq!(kmalloc_route(4096), Route::Buddy(4096));
    assert_eq!(kmalloc_route(5000), Route::Buddy(8192));
    assert!(kfree_by_slab(10, 10, 20));
    assert!(!kfree_by_slab(20, 10, 20));
    assert_eq!(align_up(5, 4), 8);
    assert_eq!(align_up(8, 4), 8);
    assert_eq!(buddy_region(0xC010_1234, 0x1000, 0xC000_0000), (0xC010_2000, 0x0010_2000));
}

#[test]
fn interrupt_locks_record_what_was_taken() {
    let mut flags = LockFlags::new();
    assert!(!flags.global);
    let g = GlobalInterruptLock::lock(&mut flags);
    assert!(flags.global);
    g.unlock(&mut flags);
    assert!(!flags.global);
    let g = GlobalInterruptLock::lock(&mut flags);
    assert!(flags.global);
    g.unlock(&mut flags);
    let l = IRQLock::lock(&mut flags, 3);
    assert!(flags.irq[3]);
    assert!(!flags.irq[2]);
    assert_eq!(l.unlock(&mut flags), 3);
    assert!(!flags.irq[3]);
    let l = IRQLock::lock(&mut flags, 3);
    assert!(flags.irq[3]);
    assert_eq!(l.unlock(&mut flags), 3);
}

#[test]
fn descriptors_pack_standard_segments() {
    assert_eq!(create_gdt_descriptor(0xC09A, 0xFFFFF, 0), 0x00CF_9A00_0000_FFFF);
    assert_eq!(create_gdt_descriptor(0xC092, 0xFFFFF, 0), 0x00CF_9200_0000_FFFF);
    let table = gdt_table();
    assert_eq!(table[0], 0);
    assert_eq!(table[1], 0x00CF_9A00_0000_FFFF);
    let entries = gdt_entries(0);
    assert_eq!(entries.len(), 6);
    assert_eq!(entries[3].0, 0x00CF_FA00_0000_FFFF);
    let access = Access::new(
        Presence::Valid,
        DescriptorPrivilege::Lvl0,
        SegmentType::CodeOrData,
        ExecutabilityType::Code,
        Direction::GrowsUp,
        ReadWriteAble::Enabled,
        AccessBit::Default,
    );
    assert_eq!(access.to_u8(), 0x9B);
}

#[test]
fn idt_installs_entry_points() {
    let a = Attributes::new(PresentBit::Present, PrivilegeLevel::KernelMode, GateType::InterruptGate32);
    assert_eq!(a.to_u8(), 0x8E);
    let d = InterruptDescriptor::new(0x1234_5678, 8, a);
    assert_eq!(d.isr_low, 0x5678);
    assert_eq!(d.isr_high, 0x1234);
    assert_eq!(d.offset(), 0x1234_5678);
    let idt = build_idt(&[0x1000, 0x2000], &[0x3000]);
    assert_eq!(idt.entries.len(), 256);
    assert_eq!(idt.entries[1].offset(), 0x2000);
    assert_eq!(idt.entries[32].offset(), 0x3000);
    assert_eq!(idt.entries[32].attributes.to_u8(), 0x8E);
    assert_eq!(idt.entries[2].attributes.to_u8(), 0);
    assert_eq!(idt.limit(), 2047);
}

#[test]
fn hexadecimal_numbers_are_read() {
    assert_eq!(hextou(b"0x1f"), Some(31));
    assert_eq!(hextou(b"  ff"), Some(255));
    assert_eq!(hextou(b"10 rest"), Some(16));
    assert_eq!(hextou(b"1g"), None);
    assert_eq!(hextou(b"0"), Some(0));
    assert_eq!(hextou(b"  0"), Some(0));
    assert_eq!(hextou(b""), None);
    assert_eq!(hextou(b" \t\n "), None);
    assert_eq!(hextou(b"0xffffffffffffffff"), if usize::BITS == 64 { Some(usize::MAX) } else { None });
    assert_eq!(hextou(b"1ffffffffffffffff"), None);
}

#[test]
fn exit_codes_and_programs() {
    assert_eq!(QemuExitCode::Success.code(), 0x10);
    assert_eq!(QemuExitCode::Failed.byte(), 0x11);
    let b = fork_bomb_test(0x5000);
    assert_eq!(b.entry, 0x1000);
    assert_eq!(b.segments.len(), 1);
    assert_eq!(b.segments[0].offset, Some(0x5000));
    let s = signal_print_test(0x6000, 0x7000);
    assert_eq!(s.entry, 0x4000);
    assert_eq!(s.segments[1].permissions, Permissions::Read);
    assert_eq!(s.segments[1].offset, Some(0x7000));
}

#[test]
fn first_scheduler_is_round_robin() {
    let queue = vec![
        None,
        Some(ProcessControlBlock::new(1, 0, 0, 0)),
        None,
        Some(ProcessControlBlock::new(3, 0, 0, 0)),
    ];
    assert_eq!(find_next_pid(&queue, 1), 3);
    assert_eq!(find_next_pid(&queue, 3), 1);
    let empty: Vec<Option<ProcessControlBlock>> = vec![None, None];
    assert_eq!(find_next_pid(&empty, 0), 1);
    assert_eq!(kill(&queue, 1, Signal::Kill), Ok(()));
    let mut full = ProcessControlBlock::new(2, 0, 0, 0);
    for s in full.queue_signals.iter_mut() {
        *s = Some(Signal::Kill);
    }
    let q2 = vec![Some(full)];
    assert_eq!(kill(&q2, 0, Signal::Kill), Err(()));
}

#[test]
fn kernel_pages_map_across_tables() {
    let mut dir = PageDirectory::empty();
    let mut tables: Vec<PageTable> = (0..256).map(|_| PageTable::empty()).collect();
    map_to(&mut dir, &mut tables, 0x0010_0000, 0xC03F_F000, 0x0040_0000, 2);
    assert_eq!(dir.0[768].0, 0x0010_0003);
    assert_eq!(dir.0[769].0, 0x0010_1003);
    assert_eq!(dir.0[770].0, 0);
    assert_eq!(dir.0[767].0, 0);
    assert_eq!(tables[0].0[1023].0, 0x0040_0003);
    assert_eq!(tables[1].0[0].0, 0x0040_1003);
    assert_eq!(tables[1].0[1].0, 0);
    assert_eq!(tables[0].0[1022].0, 0);
}

#[test]
fn extended_scancodes_use_the_prefix() {
    assert_eq!(scancode_step(false, 0x1E), (false, ScancodeLookup::Normal(0x1E)));
    assert_eq!(scancode_step(false, 0xE0), (true, ScancodeLookup::Prefix));
    assert_eq!(scancode_step(true, 0x48), (false, ScancodeLookup::Extended(0x48)));
    assert_eq!(scancode_step(true, 0xE0), (false, ScancodeLookup::Extended(0xE0)));
}

#[test]
fn released_address_space_gives_its_frames_back() {
    let mut alloc = PageAllocator::new();
    let before = alloc.free_memory();
    let f1 = alloc.allocate(4096).unwrap();
    let f2 = alloc.allocate(4096).unwrap();
    assert_ne!(alloc.free_memory(), before);
    let kernel = PageDirectory::empty();
    let mut space = Addressspace::new(&kernel);
    space.map(0x1000, f1, Permissions::ReadWrite, 0x5000);
    space.map(0x0040_2000, f2, Permissions::Read, 0x6000);
    assert_eq!(space.mapped_pages().len(), 2);
    space.release(&mut alloc);
    assert_eq!(alloc.free_memory(), before);
}

#[test]
fn fork_maps_every_user_page_on_the_new_frames() {
    let kernel = PageDirectory::empty();
    let mut parent = Addressspace::new(&kernel);
    parent.map(0x0040_3000, 0x0010_0000, Permissions::ReadWrite, 0x5000);
    parent.map(0x1000, 0x0020_0000, Permissions::Read, 0x6000);
    let table_paddrs: Vec<usize> = (0..768).map(|p| 0x0100_0000 + p * 0x1000).collect();
    let child = parent.fork(&kernel, &[0x0030_0000, 0x0040_0000], &table_paddrs);
    assert_eq!(
        child.fork_pages(),
        vec![
            MappedPage { vaddr: 0x1000, paddr: 0x0030_0000, permissions: Permissions::Read },
            MappedPage { vaddr: 0x0040_3000, paddr: 0x0040_0000, permissions: Permissions::ReadWrite },
        ]
    );
    assert_eq!(child.page_directory.0[0].0, 0x0100_0007);
    assert_eq!(child.page_directory.0[1].0, 0x0100_1007);
    assert_eq!(child.page_directory.0[2].0, 0);
    assert_eq!(parent.fork_pages().len(), 2);
}

#[test]
fn kernel_image_is_reserved_and_mapped() {
    let mut alloc = PageAllocator::new();
    let mut dir = PageDirectory::empty();
    let mut tables: Vec<PageTable> = (0..256).map(|_| PageTable::empty()).collect();
    map_kernel(&mut alloc, &mut dir, &mut tables, 0x0020_0000, 0xC010_5000);
    assert_eq!(alloc.free_memory(), (4094, 0));
    assert_eq!(dir.0[768].0, 0x0020_0003);
    assert_eq!(dir.0[769].0, 0);
    assert_eq!(tables[0].0[0].0, 0x3);
    assert_eq!(tables[0].0[260].0, 0x0010_4003);
    assert_eq!(tables[0].0[261].0, 0);
}

#[test]
fn first_scheduler_timer_saves_and_switches() {
    let mut queue = vec![
        None,
        Some(ProcessControlBlock::new(1, 0x1000, 0, 0)),
        None,
        Some(ProcessControlBlock::new(3, 0x3000, 0, 0)),
    ];
    let mut running = None;
    assert_eq!(timer(&mut queue, &mut running, 0x9999), 0x3000);
    assert_eq!(running, Some(3));
    assert_eq!(queue[1].as_ref().unwrap().esp, 0x1000);
    assert_eq!(timer(&mut queue, &mut running, 0x5000), 0x1000);
    assert_eq!(running, Some(1));
    assert_eq!(queue[3].as_ref().unwrap().esp, 0x5000);
    queue[3].as_mut().unwrap().queue_signals[4] = Some(Signal::Kill);
    assert_eq!(timer(&mut queue, &mut running, 0x6000), 0);
    assert_eq!(running, Some(3));
    assert_eq!(queue[1].as_ref().unwrap().esp, 0x6000);
}

#[test]
fn first_scheduler_signal_reports_the_previous_handler() {
    let mut pcb = ProcessControlBlock::new(1, 0, 0, 0);
    let queue = vec![None, Some(ProcessControlBlock::new(1, 0, 0, 0))];
    assert_eq!(signal(&queue, 1, Signal::Kill, 0x1234), None);
    pcb.signal_handlers[0] = Some(0x4321);
    let queue = vec![None, Some(pcb)];
    assert_eq!(signal(&queue, 1, Signal::Kill, 0x1234), Some(0x4321));
}

#[test]
fn stack_dump_lines_show_hex_and_text() {
    let row: [u8; 16] = [0x41, 0x42, 0x43, 0x44, 0, 1, 2, 3, b'h', b'e', b'l', b'l', b'o', b',', 0x7f, 0x20];
    let line = kfs::stack_print_serial::dump_row(&row, 0x0010_fff0);
    assert_eq!(
        String::from_utf8(line).unwrap(),
        "0010fff0-0010ffff 41424344 00010203 68656c6c 6f2c7f20 ABCD....hello,. \n"
    );
}

#[test]
fn bitmap_with_one_entry_per_byte() {
    let mut map: BitMap<4, 1> = BitMap::new();
    map.set(2, 0xAB);
    assert_eq!(map.get(2), 0xAB);
    assert_eq!(map.get(1), 0);
    map.clear(2);
    assert_eq!(map.get(2), 0);
}

#[test]
fn page_faults_get_a_fresh_frame() {
    let kernel = PageDirectory::empty();
    let mut space = Addressspace::new(&kernel);
    let mut alloc = PageAllocator::new();
    let vmas = vec![VMA { start: 0x1000, offset: None, size: 0x2000, permissions: Permissions::ReadWrite }];
    let out = serve_page_fault(&mut space, &mut alloc, &vmas, 0x2345, 0, 0x9000);
    let frame = match out {
        FaultOutcome::Mapped { vma, page, frame } => {
            assert_eq!(vma, 0);
            assert_eq!(page, 0x2000);
            frame
        }
        FaultOutcome::Kill => panic!("fault not served"),
    };
    assert_eq!(
        space.fork_pages(),
        vec![MappedPage { vaddr: 0x2000, paddr: frame, permissions: Permissions::ReadWrite }]
    );
    assert_eq!(alloc.free_memory(), (4095, 1020));
    assert_eq!(serve_page_fault(&mut space, &mut alloc, &vmas, 0x5000, 0, 0x9000), FaultOutcome::Kill);
}

#[test]
fn allocator_serves_the_upper_half_and_ignores_empty_frees() {
    let mut alloc = PageAllocator::new();
    let low = alloc.allocate(0x8000_0000).unwrap();
    let high = alloc.allocate(0x8000_0000).unwrap();
    assert_ne!(low, high);
    assert_eq!(alloc.allocate(4096), None);
    alloc.dealloc(high, 0);
    assert_eq!(alloc.allocate(4096), None);
    alloc.dealloc(high, 0x8000_0000);
    assert_eq!(alloc.free_memory(), (2048, 0));
    assert_eq!(alloc.alloc_at(0x9000_0000, 4096), Some(0x9000_0000));
}

fn empty_queue() -> Vec<Option<ProcessControlBlock>> {
    (0..20).map(|_| None).collect()
}

#[test]
fn execve_puts_the_first_frame_at_the_stack_top() {
    let mut queue = empty_queue();
    let mut pid_next: u16 = 1;
    let mut frame = InterruptRegisters::new(0, 0);
    assert_eq!(sys_execve(&mut queue, &mut pid_next, Ok(0x10_0000), 0x1000, 0x4001, &mut frame), Ok(0x10_0FBC));
    assert_eq!(frame.esp, 0x10_0FBC);
    assert_eq!(frame.eip, 0x4000);
    assert_eq!(frame.cr2, 0x10);
    assert_eq!(frame.csm, 0x8);
    assert_eq!(frame.eflags, 0x200);
    assert_eq!(pid_next, 2);
    let p = queue[1].as_ref().unwrap();
    assert_eq!((p.id, p.esp, p.stack_start, p.stack_size), (1, 0x10_0FBC, 0x10_0000, 0x1000));
    assert_eq!(sys_execve(&mut queue, &mut pid_next, Err(()), 0x1000, 0x4001, &mut frame), Err(()));
    assert_eq!(pid_next, 2);
}

#[test]
fn fork_internal_moves_the_stack_pointer_into_the_copy() {
    let mut queue = empty_queue();
    queue[1] = Some(ProcessControlBlock::new(1, 0x10_0F00, 0x10_0000, 0x1000));
    let mut pid_next: u16 = 2;
    let mut frame = InterruptRegisters::new(0, 0);
    frame.eax = 7;
    let (pid, at) = sys_fork_internal(&mut queue, &mut pid_next, 1, 0x10_0E00, 0x1234, 0x20_0000, &mut frame);
    assert_eq!(pid, 2);
    assert_eq!(at, 0x20_0E04 - 68);
    assert_eq!((frame.eax, frame.esp, frame.eip, frame.cr2, frame.csm, frame.eflags), (0, 0x20_0E04, 0x1234, 0x10, 0x8, 0x200));
    let p = queue[2].as_ref().unwrap();
    assert_eq!((p.id, p.esp, p.stack_start, p.stack_size), (2, 0x20_0E04 - 68, 0x20_0000, 0x1000));
    assert_eq!(pid_next, 3);
}
