use kfs::arch::x86::idt::InterruptRegisters;
use kfs::arch::x86::vmm::process::{Parent, Process, ProcessState, ProcessTable, RunQueue, Scheduler};
use kfs::arch::x86::vmm::page::PageDirectory;
use kfs::arch::x86::vmm::page_allocator::PageAllocator;
use kfs::binary::{Binary, Permissions, Segment};
use kfs::signals::{Action, Signal};

fn program() -> Binary {
    let mut b = Binary::new(0x1000, 0x4000);
    b.segments.push(Segment { offset: Some(0x10_0000), vaddr: 0x1000, size: 0x1000, permissions: Permissions::Read });
    b.segments.push(Segment { offset: None, vaddr: 0x2000, size: 0x1000, permissions: Permissions::ReadWrite });
    b
}

#[test]
fn new_process_starts_at_entry_with_default_actions() {
    let p = Process::new(&program(), Parent::Root, true, &PageDirectory::empty());
    assert_eq!(p.state, ProcessState::Ready);
    assert_eq!(p.saved_registers, InterruptRegisters::new(0x1000, 0x4000));
    assert_eq!(p.vmas.len(), 2);
    assert_eq!(p.vmas[1].start, 0x2000);
    assert_eq!(p.vmas[1].permissions, Permissions::ReadWrite);
    assert_eq!(p.signal_handlers.get(Signal::SigUsr), Action::Ignore);
    assert_eq!(p.signal_handlers.get(Signal::SigKill), Action::Terminate);
    assert!(p.super_user);
}

#[test]
fn fork_copy_keeps_descriptors_and_registers() {
    let mut p = Process::new(&program(), Parent::Root, false, &PageDirectory::empty());
    p.pid = 4;
    assert_eq!(p.install_socket(7), 0);
    let c = Process::from_process(&p, &mut PageAllocator::new(), &PageDirectory::empty(), &vec![0; 768]);
    assert_eq!(c.parent, Parent::Pid(4));
    assert_eq!(c.socket_fds, vec![Some(7)]);
    assert_eq!(c.saved_registers, p.saved_registers);
    assert!(c.children.is_empty());
}

#[test]
fn descriptors_fill_the_first_free_slot() {
    let mut p = Process::new(&program(), Parent::Root, false, &PageDirectory::empty());
    assert_eq!(p.install_socket(3), 0);
    assert_eq!(p.install_socket(4), 1);
    assert_eq!(p.remove_socket(0), Some(3));
    assert_eq!(p.remove_socket(0), None);
    assert_eq!(p.resolve_socket(1), Some(4));
    assert_eq!(p.resolve_socket(9), None);
    assert_eq!(p.install_socket(5), 0);
}

#[test]
fn signal_handler_entry_and_exit_restore_registers() {
    let mut p = Process::new(&program(), Parent::Root, false, &PageDirectory::empty());
    p.enter_signal_handler(0x1234);
    assert_eq!(p.saved_registers.eip, 0x1234);
    assert_eq!(p.exit_signal_handler(), Ok(()));
    assert_eq!(p.saved_registers.eip, 0x1000);
    assert_eq!(p.exit_signal_handler(), Err(()));
}

#[test]
fn table_reuses_the_most_recently_freed_pid() {
    let mut t = ProcessTable::new();
    assert_eq!(t.insert(Process::new(&program(), Parent::Root, false, &PageDirectory::empty())), 0);
    assert_eq!(t.insert(Process::new(&program(), Parent::Root, false, &PageDirectory::empty())), 1);
    assert_eq!(t.insert(Process::new(&program(), Parent::Root, false, &PageDirectory::empty())), 2);
    assert!(t.remove(1).is_some());
    assert!(t.remove(0).is_some());
    assert!(t.remove(0).is_none());
    assert_eq!(t.insert(Process::new(&program(), Parent::Root, false, &PageDirectory::empty())), 0);
    assert_eq!(t.insert(Process::new(&program(), Parent::Root, false, &PageDirectory::empty())), 1);
    assert_eq!(t.insert(Process::new(&program(), Parent::Root, false, &PageDirectory::empty())), 3);
    assert_eq!(t.get(3).unwrap().pid, 3);
    assert!(t.get(4).is_none());
}

#[test]
fn run_queue_is_fifo_and_removes_every_copy() {
    let mut q = RunQueue::new();
    assert!(q.is_empty());
    q.enqueue(1);
    q.enqueue(2);
    q.enqueue(1);
    q.enqueue(3);
    q.remove(1);
    assert_eq!(q.len(), 2);
    assert_eq!(q.dequeue(), Some(2));
    assert_eq!(q.dequeue(), Some(3));
    assert_eq!(q.dequeue(), None);
}

#[test]
fn scheduler_is_round_robin() {
    let mut s = Scheduler::new();
    assert_eq!(s.spawn(Process::new(&program(), Parent::Root, false, &PageDirectory::empty())), 0);
    assert_eq!(s.spawn(Process::new(&program(), Parent::Root, false, &PageDirectory::empty())), 1);
    assert_eq!(s.schedule().unwrap().pid, 0);
    assert_eq!(s.schedule().unwrap().pid, 1);
    assert_eq!(s.schedule().unwrap().pid, 0);
    assert_eq!(s.current().unwrap().pid, 0);
    s.exit(1);
    assert_eq!(s.schedule().unwrap().pid, 0);
    assert_eq!(s.schedule().unwrap().pid, 0);
    s.exit(0);
    assert!(s.schedule().is_none());
}

#[test]
fn every_live_slot_holds_its_own_pid() {
    let mut t = ProcessTable::new();
    for _ in 0..4 {
        t.insert(Process::new(&program(), Parent::Root, false, &PageDirectory::empty()));
    }
    assert!(t.remove(2).is_some());
    assert!(t.remove(0).is_some());
    t.insert(Process::new(&program(), Parent::Root, false, &PageDirectory::empty()));
    for pid in 0..4 {
        if let Some(p) = t.get(pid) {
            assert_eq!(p.pid, pid);
        }
    }
    assert!(t.get(2).is_none());
    assert_eq!(t.get(0).unwrap().pid, 0);
}
