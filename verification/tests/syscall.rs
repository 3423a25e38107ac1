use kfs::arch::x86::idt::InterruptRegisters;
use kfs::arch::x86::scheduler::{init, timer_pick, timer_save, TimerAction};
use kfs::arch::x86::syscall::{
    finish_socket_read, finish_socket_write, sys_am_super_user, sys_exit, sys_exit_signal_handler, sys_fork,
    sys_getpid, sys_kill, sys_putnbr, sys_signal, sys_socket_close, sys_socket_create, sys_socket_read,
    sys_socket_write, sys_wait, syscall, Syscall, Transfer, SYSCALL_ERROR,
};
use kfs::arch::x86::vmm::process::{Parent, Process, ProcessState, Scheduler};
use kfs::arch::x86::vmm::page::PageDirectory;
use kfs::arch::x86::vmm::page_allocator::PageAllocator;
use kfs::binary::{Binary, Permissions, Segment};
use kfs::signals::{Action, Signal};
use kfs::socket::SocketTable;

fn program() -> Binary {
    let mut b = Binary::new(0x1000, 0x4000);
    b.segments.push(Segment { offset: None, vaddr: 0x1000, size: 0x1000, permissions: Permissions::Read });
    b.segments.push(Segment { offset: None, vaddr: 0x2000, size: 0x1000, permissions: Permissions::ReadWrite });
    b
}

fn running_scheduler(super_user: bool) -> Scheduler {
    let mut s = Scheduler::new();
    s.spawn(Process::new(&program(), Parent::Root, super_user, &PageDirectory::empty()));
    s.schedule();
    s
}

fn regs() -> InterruptRegisters {
    InterruptRegisters::new(0x1000, 0x4000)
}

#[test]
fn call_numbers_are_decoded() {
    let mut r = regs();
    r.eax = 57;
    assert_eq!(syscall(&mut r), Syscall::Fork);
    assert_eq!(r.eax, 57);
    r.eax = 98;
    assert_eq!(syscall(&mut r), Syscall::Wait);
    r.eax = 1;
    assert_eq!(syscall(&mut r), Syscall::Unknown);
    assert_eq!(r.eax, SYSCALL_ERROR);
}

#[test]
fn identity_calls() {
    let s = running_scheduler(true);
    let mut r = regs();
    sys_getpid(&s, &mut r);
    assert_eq!(r.eax, 0);
    sys_am_super_user(&s, &mut r);
    assert_eq!(r.eax, 1);
    let s = running_scheduler(false);
    sys_am_super_user(&s, &mut r);
    assert_eq!(r.eax, 2);
    sys_putnbr(&s, &mut r);
    assert_eq!(r.eax, 0);
}

#[test]
fn fork_returns_child_pid_to_parent_and_zero_to_child() {
    let mut s = running_scheduler(false);
    let mut t = SocketTable::new();
    let mut r = regs();
    r.ebx = 77;
    assert_eq!(sys_fork(&mut s, &mut t, &mut r, &mut PageAllocator::new(), &PageDirectory::empty(), &vec![0; 768]), 1);
    assert_eq!(r.eax, 1);
    let child = s.table.get(1).unwrap();
    assert_eq!(child.saved_registers.eax, 0);
    assert_eq!(child.saved_registers.ebx, 77);
    assert_eq!(child.parent, Parent::Pid(0));
    assert_eq!(child.state, ProcessState::Ready);
    let parent = s.table.get(0).unwrap();
    assert_eq!(parent.children, vec![1]);
    assert_eq!(parent.saved_registers.eax, 1);
}

#[test]
fn fork_shares_sockets() {
    let mut s = running_scheduler(false);
    let mut t = SocketTable::new();
    let mut r = regs();
    sys_socket_create(&mut s, &mut t, &mut r);
    assert_eq!(r.eax, 0);
    sys_fork(&mut s, &mut t, &mut r, &mut PageAllocator::new(), &PageDirectory::empty(), &vec![0; 768]);
    assert_eq!(t.get_mut(0).unwrap().references, 2);
    assert_eq!(s.table.get(1).unwrap().socket_fds, vec![Some(0)]);
}

#[test]
fn socket_descriptors_open_and_close() {
    let mut s = running_scheduler(false);
    let mut t = SocketTable::new();
    let mut r = regs();
    sys_socket_create(&mut s, &mut t, &mut r);
    assert_eq!(r.eax, 0);
    sys_socket_create(&mut s, &mut t, &mut r);
    assert_eq!(r.eax, 1);
    r.ebx = 0;
    sys_socket_close(&mut s, &mut t, &mut r);
    assert_eq!(r.eax, 0);
    sys_socket_close(&mut s, &mut t, &mut r);
    assert_eq!(r.eax, SYSCALL_ERROR);
    r.ebx = 5;
    sys_socket_close(&mut s, &mut t, &mut r);
    assert_eq!(r.eax, SYSCALL_ERROR);
}

#[test]
fn socket_transfer_through_user_memory() {
    let mut s = running_scheduler(false);
    let mut t = SocketTable::new();
    let mut r = regs();
    sys_socket_create(&mut s, &mut t, &mut r);
    r.ebx = 0;
    r.ecx = 0x2000;
    r.edx = 4;
    let w = sys_socket_write(&s, &mut r);
    assert_eq!(w, Some(Transfer { socket: 0, buf: 0x2000, len: 4 }));
    finish_socket_write(&mut t, 0, &[1, 2, 3, 4], &mut r);
    assert_eq!(r.eax, 4);
    let rd = sys_socket_read(&s, &mut r);
    assert_eq!(rd, Some(Transfer { socket: 0, buf: 0x2000, len: 4 }));
    let mut out = [0u8; 4];
    finish_socket_read(&mut t, 0, &mut out, &mut r);
    assert_eq!(r.eax, 4);
    assert_eq!(out, [1, 2, 3, 4]);
    r.ecx = 0x1000;
    assert_eq!(sys_socket_read(&s, &mut r), None);
    assert_eq!(r.eax, SYSCALL_ERROR);
    r.ecx = 0x1000;
    assert!(sys_socket_write(&s, &mut r).is_some());
    r.ebx = 3;
    assert_eq!(sys_socket_write(&s, &mut r), None);
    assert_eq!(r.eax, SYSCALL_ERROR);
    finish_socket_write(&mut t, 9, &[1], &mut r);
    assert_eq!(r.eax, SYSCALL_ERROR);
}

#[test]
fn signals_and_kill() {
    let mut s = running_scheduler(false);
    let mut r = regs();
    r.ebx = 2;
    r.ecx = 0x1800;
    sys_signal(&mut s, &mut r);
    assert_eq!(r.eax, 0);
    assert_eq!(s.table.get(0).unwrap().signal_handlers.get(Signal::SigUsr), Action::Handler(0x1800));
    r.ebx = 1;
    sys_signal(&mut s, &mut r);
    assert_eq!(r.eax, SYSCALL_ERROR);
    r.ebx = 9;
    sys_signal(&mut s, &mut r);
    assert_eq!(r.eax, SYSCALL_ERROR);
    r.ebx = 2;
    r.ecx = 0;
    sys_kill(&mut s, &mut r);
    assert_eq!(r.eax, 0);
    assert_eq!(s.table.get(0).unwrap().signals_queued, vec![Signal::SigUsr]);
    r.ecx = 6;
    sys_kill(&mut s, &mut r);
    assert_eq!(r.eax, SYSCALL_ERROR - 1);
    r.ebx = 8;
    sys_kill(&mut s, &mut r);
    assert_eq!(r.eax, SYSCALL_ERROR);
}

#[test]
fn exit_hands_children_to_the_parent() {
    let mut s = running_scheduler(false);
    let mut t = SocketTable::new();
    let mut r = regs();
    sys_fork(&mut s, &mut t, &mut r, &mut PageAllocator::new(), &PageDirectory::empty(), &vec![0; 768]);
    s.schedule();
    s.schedule();
    assert_eq!(s.current, Some(1));
    sys_socket_create(&mut s, &mut t, &mut r);
    assert_eq!(sys_fork(&mut s, &mut t, &mut r, &mut PageAllocator::new(), &PageDirectory::empty(), &vec![0; 768]), 2);
    assert_eq!(t.get_mut(0).unwrap().references, 2);
    let next = sys_exit(&mut s, &mut t, &mut r, &mut PageAllocator::new());
    assert_eq!(next, Some(0));
    assert_eq!(s.current, Some(0));
    assert!(s.table.get(1).is_none());
    assert_eq!(s.table.get(2).unwrap().parent, Parent::Pid(0));
    let root = s.table.get(0).unwrap();
    assert_eq!(root.children, vec![2]);
    assert_eq!(root.children_stopped, vec![1]);
    assert_eq!(r.eax, 1);
    assert_eq!(t.get_mut(0).unwrap().references, 1);
}

#[test]
fn waiting_parent_resumes_with_a_stopped_child() {
    let mut s = running_scheduler(false);
    let mut t = SocketTable::new();
    let mut r = regs();
    sys_fork(&mut s, &mut t, &mut r, &mut PageAllocator::new(), &PageDirectory::empty(), &vec![0; 768]);
    s.schedule();
    s.schedule();
    sys_exit(&mut s, &mut t, &mut r, &mut PageAllocator::new());
    sys_wait(&mut s);
    assert_eq!(s.table.get(0).unwrap().state, ProcessState::Waiting);
    timer_save(&mut s, &r);
    assert_eq!(timer_pick(&mut s, &mut r), TimerAction::Resume(0));
    assert_eq!(r.eax, 1);
    assert_eq!(s.table.get(0).unwrap().state, ProcessState::Running);
    assert!(s.table.get(0).unwrap().children_stopped.is_empty());
}

#[test]
fn timer_acts_on_queued_signals() {
    let mut s = running_scheduler(false);
    let mut r = regs();
    r.ebx = 4;
    r.ecx = 0;
    sys_kill(&mut s, &mut r);
    assert_eq!(timer_pick(&mut s, &mut r), TimerAction::Retry);
    assert_eq!(s.table.get(0).unwrap().state, ProcessState::Blocked);
    assert_eq!(timer_pick(&mut s, &mut r), TimerAction::Retry);
    r.ebx = 3;
    sys_kill(&mut s, &mut r);
    assert_eq!(timer_pick(&mut s, &mut r), TimerAction::Retry);
    let p = s.table.get(0).unwrap();
    assert_eq!(p.state, ProcessState::Blocked);
    assert_eq!(p.signals_queued.len(), 1);
    r.ebx = 1;
    sys_kill(&mut s, &mut r);
    s.table.get_mut(0).unwrap().state = ProcessState::Ready;
    assert_eq!(timer_pick(&mut s, &mut r), TimerAction::Terminate);
}

#[test]
fn timer_enters_signal_handlers_once() {
    let mut s = running_scheduler(false);
    let mut r = regs();
    r.ebx = 2;
    r.ecx = 0x1800;
    sys_signal(&mut s, &mut r);
    r.ecx = 0;
    sys_kill(&mut s, &mut r);
    sys_kill(&mut s, &mut r);
    assert_eq!(timer_pick(&mut s, &mut r), TimerAction::Resume(0));
    assert_eq!(r.eip, 0x1800);
    assert_eq!(timer_pick(&mut s, &mut r), TimerAction::Resume(0));
    assert_eq!(s.table.get(0).unwrap().signals_queued.len(), 1);
    sys_exit_signal_handler(&mut s, &mut r);
    assert_eq!(s.table.get(0).unwrap().saved_registers.eip, 0x1000);
    assert_eq!(r.eip, 0x1000);
    r.eip = 0x2222;
    sys_exit_signal_handler(&mut s, &mut r);
    assert_eq!(r.eip, 0x2222);
}

#[test]
fn idle_when_nothing_is_queued() {
    let mut s = Scheduler::new();
    let mut r = regs();
    assert_eq!(timer_pick(&mut s, &mut r), TimerAction::Idle);
    assert_eq!(init(&mut s, 0x10_0000, &PageDirectory::empty()), 0);
    assert_eq!(timer_pick(&mut s, &mut r), TimerAction::Resume(0));
    assert_eq!(r.eip, 0x1000);
    assert_eq!(r.esp, 0x4000);
}

#[test]
fn fork_copies_pages_and_exit_gives_frames_back() {
    let mut alloc = PageAllocator::new();
    let before = alloc.free_memory();
    let mut s = running_scheduler(false);
    let mut t = SocketTable::new();
    let mut r = regs();
    let f0 = alloc.allocate(4096).unwrap();
    s.table.get_mut(0).unwrap().addressspace.map(0x1000, f0, Permissions::Read, 0x9000);
    let one_taken = alloc.free_memory();
    let tables: Vec<usize> = (0..768).map(|p| 0x0200_0000 + p * 0x1000).collect();
    assert_eq!(sys_fork(&mut s, &mut t, &mut r, &mut alloc, &PageDirectory::empty(), &tables), 1);
    assert_ne!(alloc.free_memory(), one_taken);
    let child_pages = s.table.get(1).unwrap().addressspace.fork_pages();
    assert_eq!(child_pages.len(), 1);
    assert_eq!(child_pages[0].vaddr, 0x1000);
    assert_ne!(child_pages[0].paddr, f0);
    assert_eq!(child_pages[0].paddr % 4096, 0);
    assert_eq!(child_pages[0].permissions, Permissions::Read);
    assert_eq!(s.table.get(0).unwrap().addressspace.fork_pages()[0].paddr, f0);
    s.schedule();
    s.schedule();
    assert_eq!(s.current, Some(1));
    sys_exit(&mut s, &mut t, &mut r, &mut alloc);
    assert_eq!(alloc.free_memory(), one_taken);
    alloc.dealloc(f0, 4096);
    assert_eq!(alloc.free_memory(), before);
}
