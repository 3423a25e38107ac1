//! System call handlers: each reads its arguments from the saved registers
//! of the calling process, updates the scheduler or the socket table, and
//! leaves its result in `eax`.
use vstd::prelude::*;
use crate::arch::x86::idt::InterruptRegisters;
use crate::arch::x86::vmm::process::{Scheduler, Process, ProcessState, Pid, first_free_fd, same_but_signals};
use crate::signals::{Action, Signal, signal_number, overridable};
use crate::arch::x86::vmm::process::Parent;
use crate::arch::x86::vmm::addressspace::{
    forked_space, pages_from, frames_of, releasable, page_frames, fresh_frames, frames_in_use, frames_disjoint,
    law_fork_separate,
};
use crate::arch::x86::vmm::page_allocator::PageAllocator;
use crate::arch::x86::vmm::page::PageDirectory;
use crate::socket::{
    SocketTable, SocketId, validate_user_range, user_range_ok, meets_empty_vma_from, refs_of, fd_count, add_refs,
    close_all, clamp0, socket_write, socket_read, closed_once, created,
};

verus! {

/// Value returned in `eax` when a call fails.
pub const SYSCALL_ERROR: u32 = 0xFFFF_FFFF;

/// `regs` with `eax` replaced by `v`.
pub open spec fn with_eax(regs: InterruptRegisters, v: u32) -> InterruptRegisters {
    InterruptRegisters { eax: v, ..regs }
}

/// The table after the current process is replaced by `p`.
pub open spec fn with_current(s: Scheduler, p: Process) -> Seq<Option<Process>> {
    s.table.slots().update(s.current.unwrap() as int, Some(p))
}

/// The descriptor `install_socket` picks.
pub open spec fn installed_fd(fds: Seq<Option<SocketId>>) -> int {
    match first_free_fd(fds) {
        Some(i) => i,
        None => fds.len() as int,
    }
}

/// The descriptor table after `install_socket(sid)`.
pub open spec fn installed_fds(fds: Seq<Option<SocketId>>, sid: SocketId) -> Seq<Option<SocketId>> {
    match first_free_fd(fds) {
        Some(i) => fds.update(i, Some(sid)),
        None => fds.push(Some(sid)),
    }
}

/// The system calls, by the number the caller puts in `eax`.
#[derive(Clone, Copy, Debug, PartialEq, Eq, Structural)]
pub enum Syscall {
    SocketCreate,
    SocketClose,
    SocketRead,
    SocketWrite,
    Yield,
    Putnbr,
    Fork,
    Exit,
    Signal,
    Kill,
    ExitSignalHandler,
    Wait,
    AmSuperUser,
    Unknown,
}

/// The system call numbered `n`.
pub open spec fn syscall_of(n: u32) -> Syscall {
    if n == 5 {
        Syscall::SocketCreate
    } else if n == 6 {
        Syscall::SocketClose
    } else if n == 7 {
        Syscall::SocketRead
    } else if n == 8 {
        Syscall::SocketWrite
    } else if n == 35 {
        Syscall::Yield
    } else if n == 42 {
        Syscall::Putnbr
    } else if n == 57 {
        Syscall::Fork
    } else if n == 60 {
        Syscall::Exit
    } else if n == 70 {
        Syscall::Signal
    } else if n == 71 {
        Syscall::Kill
    } else if n == 72 {
        Syscall::ExitSignalHandler
    } else if n == 98 {
        Syscall::Wait
    } else if n == 99 {
        Syscall::AmSuperUser
    } else {
        Syscall::Unknown
    }
}

/// The number a user program puts in `eax` to make each system call (the
/// kernel's call-number table).
pub open spec fn call_number(c: Syscall) -> u32 {
    match c {
        Syscall::SocketCreate => 5,
        Syscall::SocketClose => 6,
        Syscall::SocketRead => 7,
        Syscall::SocketWrite => 8,
        Syscall::Yield => 35,
        Syscall::Putnbr => 42,
        Syscall::Fork => 57,
        Syscall::Exit => 60,
        Syscall::Signal => 70,
        Syscall::Kill => 71,
        Syscall::ExitSignalHandler => 72,
        Syscall::Wait => 98,
        Syscall::AmSuperUser => 99,
        Syscall::Unknown => 0,
    }
}

/// Decoding follows the call-number table: each system call's number
/// decodes to that call, and a number that decodes to a call is that call's
/// number (every other number is unknown).
pub proof fn law_call_numbers(c: Syscall, n: u32)
    ensures
        c != Syscall::Unknown ==> syscall_of(call_number(c)) == c,
        syscall_of(n) != Syscall::Unknown ==> call_number(syscall_of(n)) == n,
{
}

/// Decodes the call number in `eax`; an unknown number gets the error value
/// in `eax` at once. After the call runs, the timer picks the next process.
pub fn syscall(regs: &mut InterruptRegisters) -> (r: Syscall)
    ensures
        r == syscall_of(old(regs).eax),
        r == Syscall::Unknown ==> *final(regs) == with_eax(*old(regs), SYSCALL_ERROR),
        r != Syscall::Unknown ==> *final(regs) == *old(regs),
{
    match regs.eax {
        5 => Syscall::SocketCreate,
        6 => Syscall::SocketClose,
        7 => Syscall::SocketRead,
        8 => Syscall::SocketWrite,
        35 => Syscall::Yield,
        42 => Syscall::Putnbr,
        57 => Syscall::Fork,
        60 => Syscall::Exit,
        70 => Syscall::Signal,
        71 => Syscall::Kill,
        72 => Syscall::ExitSignalHandler,
        98 => Syscall::Wait,
        99 => Syscall::AmSuperUser,
        _ => {
            regs.eax = SYSCALL_ERROR;
            Syscall::Unknown
        },
    }
}

/// `q` agrees with `p` on everything but its family (parent, children,
/// stopped children) and its saved registers.
pub open spec fn same_core(p: Process, q: Process) -> bool {
    &&& q.pid == p.pid
    &&& q.state == p.state
    &&& q.addressspace == p.addressspace
    &&& q.vmas@ == p.vmas@
    &&& q.owner_id == p.owner_id
    &&& q.socket_fds@ == p.socket_fds@
    &&& q.super_user == p.super_user
    &&& q.signal_handlers == p.signal_handlers
    &&& q.signals_queued@ == p.signals_queued@
    &&& q.signal_handler_saved_registers == p.signal_handler_saved_registers
}

/// `c` is the child `p` forks with registers `regs` under pid `cpid`: a
/// ready copy whose call returns 0.
pub open spec fn is_fork_of(c: Process, p: Process, regs: InterruptRegisters, cpid: Pid) -> bool {
    &&& c.pid == cpid
    &&& c.state == ProcessState::Ready
    &&& c.saved_registers == with_eax(regs, 0)
    &&& c.vmas@ == p.vmas@
    &&& c.parent == Parent::Pid(p.pid)
    &&& c.children@ == Seq::<Pid>::empty()
    &&& c.children_stopped@ == Seq::<Pid>::empty()
    &&& c.owner_id == 0
    &&& c.socket_fds@ == p.socket_fds@
    &&& c.super_user == p.super_user
    &&& c.signal_handlers == p.signal_handlers
    &&& c.signals_queued@ == Seq::<Signal>::empty()
    &&& c.signal_handler_saved_registers == p.signal_handler_saved_registers
}

/// Duplicates the caller: the child gets the next pid, a copy of the caller
/// whose call returns 0, an address space forked from the caller's on frames
/// newly taken from `allocator` (one per user page, into which the caller of
/// this function copies the parent's pages; the child's tables are kept at
/// `table_paddrs`), and one more reference on every socket it shares; the
/// caller records the child and gets its pid in `eax`. There must be a free
/// page for each user page.
pub fn sys_fork(
    scheduler: &mut Scheduler,
    sockets: &mut SocketTable,
    regs: &mut InterruptRegisters,
    allocator: &mut PageAllocator,
    kernel_directory: &PageDirectory,
    table_paddrs: &[usize],
) -> (r: Pid)
    requires
        old(scheduler).wf(),
        old(scheduler).has_current(),
        old(scheduler).current_process().addressspace.wf(),
        old(allocator).wf(),
        frames_in_use(old(scheduler).current_process().addressspace, old(allocator).free_pages()),
        pages_from(old(scheduler).current_process().addressspace, 0, 0xC_0000).len() <= old(allocator).free_pages().len(),
        kernel_directory.0@.len() == 1024,
        table_paddrs@.len() == 768,
        old(scheduler).table.slots().len() < usize::MAX,
        old(sockets).wf(),
        forall|id: SocketId| #[trigger] old(sockets).is_open(id) ==> refs_of(*old(sockets), id) + fd_count(
            old(scheduler).current_process().socket_fds@,
            id,
        ) <= usize::MAX,
    ensures
        r == old(scheduler).table.next_pid(),
        final(scheduler).wf(),
        final(sockets).wf(),
        final(allocator).wf(),
        *final(regs) == with_eax(*old(regs), r as u32),
        final(scheduler).current == old(scheduler).current,
        final(scheduler).run_queue@ == old(scheduler).run_queue@.push(r),
        final(scheduler).table.free_pids() == (if old(scheduler).table.free_pids().len() > 0 {
            old(scheduler).table.free_pids().drop_last()
        } else {
            old(scheduler).table.free_pids()
        }),
        final(scheduler).table.is_live(r),
        is_fork_of(final(scheduler).table.slots()[r as int].unwrap(), old(scheduler).current_process(), *old(regs), r),
        ({
            let c = final(scheduler).table.slots()[r as int].unwrap();
            &&& c.addressspace.wf()
            &&& forked_space(
                c.addressspace,
                old(scheduler).current_process().addressspace,
                kernel_directory.0@,
                page_frames(pages_from(c.addressspace, 0, 0xC_0000)),
                table_paddrs@,
            )
            &&& fresh_frames(c.addressspace, old(allocator).free_pages(), final(allocator).free_pages())
            &&& frames_disjoint(c.addressspace, old(scheduler).current_process().addressspace)
        }),
        frames_in_use(old(scheduler).current_process().addressspace, final(allocator).free_pages()),
        forall|i: int|
            0 <= i < old(scheduler).table.slots().len() && #[trigger] old(scheduler).table.slots()[i] is Some && frames_in_use(
                old(scheduler).table.slots()[i].unwrap().addressspace,
                old(allocator).free_pages(),
            ) ==> frames_disjoint(final(scheduler).table.slots()[r as int].unwrap().addressspace, old(scheduler).table.slots()[i].unwrap().addressspace)
                && frames_in_use(old(scheduler).table.slots()[i].unwrap().addressspace, final(allocator).free_pages()),
        ({
            let p = old(scheduler).current_process();
            let q = final(scheduler).current_process();
            &&& final(scheduler).has_current()
            &&& same_core(p, q)
            &&& q.saved_registers == with_eax(*old(regs), r as u32)
            &&& q.parent == p.parent
            &&& q.children@ == p.children@.push(r)
            &&& q.children_stopped@ == p.children_stopped@
        }),
        forall|i: int| 0 <= i < old(scheduler).table.slots().len() && i != r && i != old(scheduler).current.unwrap()
            ==> #[trigger] final(scheduler).table.slots()[i] == old(scheduler).table.slots()[i],
        final(sockets).free_ids() == old(sockets).free_ids(),
        final(sockets).slots().len() == old(sockets).slots().len(),
        forall|id: SocketId| #[trigger] final(sockets).is_open(id) == old(sockets).is_open(id),
        forall|id: SocketId| #[trigger] refs_of(*final(sockets), id) == if old(sockets).is_open(id) {
            refs_of(*old(sockets), id) + fd_count(old(scheduler).current_process().socket_fds@, id)
        } else {
            0
        },
        forall|id: SocketId| #[trigger] final(sockets).is_open(id) ==> final(sockets).slots()[id as int].unwrap().contents()
            == old(sockets).slots()[id as int].unwrap().contents(),
{
    let cur = scheduler.current.unwrap();
    proof {
        scheduler.table.lemma_next_pid_free();
    }
    let mut child = {
        let parent = scheduler.current().unwrap();
        parent.saved_registers = *regs;
        Process::from_process(parent, allocator, kernel_directory, table_paddrs)
    };
    add_refs(sockets, child.socket_fds.as_slice());
    child.saved_registers.eax = 0;
    let child_pid = scheduler.spawn(child);
    let parent = scheduler.current().unwrap();
    parent.children.push(child_pid);
    parent.saved_registers.eax = child_pid as u32;
    regs.eax = child_pid as u32;
    proof {
        let c = scheduler.table.slots()[child_pid as int].unwrap().addressspace;
        assert(fresh_frames(c, old(allocator).free_pages(), allocator.free_pages()));
        assert forall|i: int|
            0 <= i < old(scheduler).table.slots().len() && #[trigger] old(scheduler).table.slots()[i] is Some && frames_in_use(
                old(scheduler).table.slots()[i].unwrap().addressspace,
                old(allocator).free_pages(),
            ) implies frames_disjoint(c, old(scheduler).table.slots()[i].unwrap().addressspace)
                && frames_in_use(old(scheduler).table.slots()[i].unwrap().addressspace, allocator.free_pages()) by {
            law_fork_separate(c, old(scheduler).table.slots()[i].unwrap().addressspace, old(allocator).free_pages(), allocator.free_pages());
        }
    }
    child_pid
}

/// Whether pid `i` occurs among the first `k` entries of `ch`.
pub open spec fn listed(ch: Seq<Pid>, k: int, i: int) -> bool {
    exists|j: int| 0 <= j < k && #[trigger] ch[j] as int == i
}

/// `q` is `p` adopted by `parent`: only its parent changed.
pub open spec fn adopted(p: Process, q: Process, parent: Pid) -> bool {
    &&& same_core(p, q)
    &&& q.saved_registers == p.saved_registers
    &&& q.children@ == p.children@
    &&& q.children_stopped@ == p.children_stopped@
    &&& q.parent == Parent::Pid(parent)
}

/// The process an exit acts on: the one whose pid the current process carries.
pub open spec fn exiting_pid(s: Scheduler) -> Pid {
    s.current_process().pid
}

/// What `sys_exit` needs to run to its end: a current process that names a
/// live process with a live parent (not the root) and live children.
pub open spec fn exit_ready(s: Scheduler) -> bool {
    &&& s.wf()
    &&& s.has_current()
    &&& s.table.is_live(exiting_pid(s))
    &&& {
        let e = s.table.slots()[exiting_pid(s) as int].unwrap();
        &&& e.parent is Pid
        &&& s.table.is_live(e.parent->0)
        &&& forall|j: int| 0 <= j < e.children@.len() ==> s.table.is_live(#[trigger] e.children@[j])
    }
}

/// A copy of a pid list.
fn copy_pids(v: &Vec<Pid>) -> (r: Vec<Pid>)
    ensures
        r@ == v@,
{
    let mut r: Vec<Pid> = Vec::new();
    let mut i: usize = 0;
    while i < v.len()
        invariant
            i <= v@.len(),
            r@ == v@.subrange(0, i as int),
        decreases v@.len() - i,
    {
        r.push(v[i]);
        i = i + 1;
    }
    r
}

/// Drops every occurrence of `x`, keeping the others in order.
fn remove_pid(v: &mut Vec<Pid>, x: Pid)
    ensures
        final(v)@ == old(v)@.filter(|c: Pid| c != x),
{
    let mut out: Vec<Pid> = Vec::new();
    let mut i: usize = 0;
    while i < v.len()
        invariant
            i <= v@.len(),
            v@ == old(v)@,
            out@ == old(v)@.subrange(0, i as int).filter(|c: Pid| c != x),
        decreases v@.len() - i,
    {
        let c = v[i];
        proof {
            old(v)@.subrange(0, i as int).lemma_filter_push(c, |c: Pid| c != x);
            assert(old(v)@.subrange(0, i + 1int) =~= old(v)@.subrange(0, i as int).push(c));
        }
        if c != x {
            out.push(c);
        }
        i = i + 1;
    }
    assert(old(v)@.subrange(0, v@.len() as int) =~= old(v)@);
    *v = out;
}

/// Ends the process the caller names: its sockets lose a reference per
/// descriptor, the frames of its pages go back to `allocator`, its children
/// are handed to its parent, the parent records it as stopped, and it leaves
/// the table and the run queue. Then the next process is scheduled and its
/// registers are loaded; its pid is returned (`None` when no process is left
/// to run).
pub fn sys_exit(
    scheduler: &mut Scheduler,
    sockets: &mut SocketTable,
    regs: &mut InterruptRegisters,
    allocator: &mut PageAllocator,
) -> (r: Option<Pid>)
    requires
        exit_ready(*old(scheduler)),
        old(sockets).wf(),
        old(allocator).wf(),
        releasable(
            old(scheduler).table.slots()[exiting_pid(*old(scheduler)) as int].unwrap().addressspace,
            *old(allocator),
        ),
    ensures
        final(scheduler).wf(),
        final(sockets).wf(),
        final(allocator).wf(),
        final(allocator).free_pages() == old(allocator).free_pages().union(
            frames_of(
                pages_from(old(scheduler).table.slots()[exiting_pid(*old(scheduler)) as int].unwrap().addressspace, 0, 0x10_0000),
            ).to_set(),
        ),
        ({
            let o = old(scheduler).table.slots();
            let pid = exiting_pid(*old(scheduler));
            let e = o[pid as int].unwrap();
            let par = e.parent->0;
            let ch = e.children@;
            let q = old(scheduler).run_queue@.filter(|p: Pid| p != pid);
            &&& forall|id: SocketId| #[trigger] refs_of(*final(sockets), id) == clamp0(refs_of(*old(sockets), id) - fd_count(e.socket_fds@, id))
            &&& forall|id: SocketId| #[trigger] final(sockets).is_open(id) ==> old(sockets).is_open(id)
                && final(sockets).slots()[id as int].unwrap().contents() == old(sockets).slots()[id as int].unwrap().contents()
            &&& final(scheduler).table.slots().len() == o.len()
            &&& final(scheduler).table.slots()[pid as int].is_none()
            &&& final(scheduler).table.free_pids() == old(scheduler).table.free_pids().push(pid)
            &&& par != pid ==> {
                let pp = o[par as int].unwrap();
                let np = final(scheduler).table.slots()[par as int].unwrap();
                &&& final(scheduler).table.is_live(par)
                &&& same_core(pp, np)
                &&& np.saved_registers == pp.saved_registers
                &&& np.children@ == (pp.children@ + ch).filter(|c: Pid| c != pid)
                &&& np.children_stopped@ == pp.children_stopped@.push(pid)
                &&& np.parent == (if ch.contains(par) { Parent::Pid(par) } else { pp.parent })
            }
            &&& forall|i: int| 0 <= i < o.len() && i != pid && i != par && ch.contains(i as Pid)
                ==> #[trigger] final(scheduler).table.slots()[i] is Some
                && adopted(o[i].unwrap(), final(scheduler).table.slots()[i].unwrap(), par)
            &&& forall|i: int| 0 <= i < o.len() && i != pid && i != par && !ch.contains(i as Pid)
                ==> #[trigger] final(scheduler).table.slots()[i] == o[i]
            &&& final(scheduler).run_queue@ == (if q.len() > 0 { q.drop_first().push(q[0]) } else { q })
            &&& final(scheduler).current == (if q.len() > 0 { Some(q[0]) } else { old(scheduler).current })
            &&& r == (if q.len() > 0 && old(scheduler).table.is_live(q[0]) { Some(q[0]) } else { None })
            &&& r is Some ==> *final(regs) == o[q[0] as int].unwrap().saved_registers
            &&& r is None ==> *final(regs) == *old(regs)
        }),
{
    let ghost o = scheduler.table.slots();
    let pid = scheduler.table.get(scheduler.current.unwrap()).unwrap().pid;
    let (children, parent_id) = {
        let exiting = scheduler.table.get(pid).unwrap();
        close_all(sockets, exiting.socket_fds.as_slice());
        exiting.addressspace.release(allocator);
        let children = copy_pids(&exiting.children);
        let parent_id = match exiting.parent {
            Parent::Pid(id) => id,
            Parent::Root => {
                proof {
                    assert(false);
                }
                return None;
            },
        };
        (children, parent_id)
    };
    let ghost ch = children@;
    let mut k: usize = 0;
    while k < children.len()
        invariant
            scheduler.wf(),
            scheduler.run_queue == old(scheduler).run_queue,
            scheduler.current == old(scheduler).current,
            scheduler.table.free_pids() == old(scheduler).table.free_pids(),
            o == old(scheduler).table.slots(),
            k <= ch.len(),
            children@ == ch,
            ch == o[pid as int].unwrap().children@,
            o[pid as int] is Some,
            o[parent_id as int] is Some,
            (parent_id as int) < o.len(),
            forall|j: int| 0 <= j < ch.len() ==> (#[trigger] ch[j] as int) < o.len() && o[ch[j] as int] is Some,
            scheduler.table.slots().len() == o.len(),
            forall|i: int| 0 <= i < o.len() ==> (#[trigger] scheduler.table.slots()[i] is Some) == (o[i] is Some),
            forall|i: int| 0 <= i < o.len() && i != parent_id && !listed(ch, k as int, i)
                ==> #[trigger] scheduler.table.slots()[i] == o[i],
            forall|i: int| 0 <= i < o.len() && i != parent_id && listed(ch, k as int, i)
                ==> adopted(o[i].unwrap(), #[trigger] scheduler.table.slots()[i].unwrap(), parent_id),
            ({
                let pp = o[parent_id as int].unwrap();
                let np = scheduler.table.slots()[parent_id as int].unwrap();
                &&& same_core(pp, np)
                &&& np.saved_registers == pp.saved_registers
                &&& np.children@ == pp.children@ + ch.subrange(0, k as int)
                &&& np.children_stopped@ == pp.children_stopped@
                &&& np.parent == (if listed(ch, k as int, parent_id as int) { Parent::Pid(parent_id) } else { pp.parent })
            }),
        decreases ch.len() - k,
    {
        let c = children[k];
        let ghost before = scheduler.table.slots();
        assert(o[c as int] is Some);
        {
            let child = scheduler.table.get_mut(c).unwrap();
            child.parent = Parent::Pid(parent_id);
        }
        let ghost mid = scheduler.table.slots();
        {
            let parent = scheduler.table.get_mut(parent_id).unwrap();
            parent.children.push(c);
        }
        proof {
            assert(ch.subrange(0, k + 1int) =~= ch.subrange(0, k as int).push(c));
            assert(ch[k as int] == c);
            assert forall|i: int| 0 <= i < o.len() && i != parent_id && !listed(ch, k + 1int, i)
                implies #[trigger] scheduler.table.slots()[i] == o[i] by {
                assert(!listed(ch, k as int, i));
                assert(i != c);
            }
            assert forall|i: int| 0 <= i < o.len() && i != parent_id && listed(ch, k + 1int, i)
                implies adopted(o[i].unwrap(), #[trigger] scheduler.table.slots()[i].unwrap(), parent_id) by {
                if i != c {
                    let j = choose|j: int| 0 <= j < k + 1 && #[trigger] ch[j] as int == i;
                    assert(j != k);
                    assert(listed(ch, k as int, i));
                    assert(scheduler.table.slots()[i] == before[i]);
                } else {
                    if listed(ch, k as int, i) {
                        assert(adopted(o[i].unwrap(), before[i].unwrap(), parent_id));
                    } else {
                        assert(before[i] == o[i]);
                    }
                }
            }
            assert(listed(ch, k + 1int, parent_id as int) == (listed(ch, k as int, parent_id as int) || c == parent_id)) by {
                if listed(ch, k + 1int, parent_id as int) && c != parent_id {
                    let j = choose|j: int| 0 <= j < k + 1 && #[trigger] ch[j] as int == parent_id as int;
                    assert(j != k);
                }
                if listed(ch, k as int, parent_id as int) {
                    let j = choose|j: int| 0 <= j < k && #[trigger] ch[j] as int == parent_id as int;
                    assert(0 <= j < k + 1);
                }
            }
        }
        k = k + 1;
    }
    let parent = scheduler.table.get_mut(parent_id).unwrap();
    remove_pid(&mut parent.children, pid);
    parent.children_stopped.push(pid);
    proof {
        assert(ch.subrange(0, ch.len() as int) =~= ch);
        old(scheduler).table.lemma_slots_len();
        assert forall|i: int| 0 <= i < o.len() implies listed(ch, ch.len() as int, i) == ch.contains(i as Pid) by {
            if listed(ch, ch.len() as int, i) {
                let j = choose|j: int| 0 <= j < ch.len() && #[trigger] ch[j] as int == i;
                assert(ch[j] == i as Pid);
            }
            if ch.contains(i as Pid) {
                let j = choose|j: int| 0 <= j < ch.len() && ch[j] == i as Pid;
                assert(ch[j] as int == i);
            }
        }
    }
    scheduler.exit(pid);
    match scheduler.schedule() {
        Some(next) => {
            *regs = next.saved_registers;
            Some(scheduler.current.unwrap())
        },
        None => None,
    }
}

/// Returns the caller's pid in `eax`.
pub fn sys_getpid(scheduler: &Scheduler, regs: &mut InterruptRegisters)
    requires
        scheduler.has_current(),
    ensures
        *final(regs) == with_eax(*old(regs), scheduler.current_process().pid as u32),
{
    let cur = scheduler.table.get(scheduler.current.unwrap()).unwrap();
    regs.eax = cur.pid as u32;
}

/// Returns 1 in `eax` if the caller is a super user, 2 otherwise.
pub fn sys_am_super_user(scheduler: &Scheduler, regs: &mut InterruptRegisters)
    requires
        scheduler.has_current(),
    ensures
        *final(regs) == with_eax(*old(regs), if scheduler.current_process().super_user { 1u32 } else { 2u32 }),
{
    let cur = scheduler.table.get(scheduler.current.unwrap()).unwrap();
    regs.eax = match cur.super_user {
        true => 1,
        false => 2,
    };
}

/// Clears `eax` after the caller's registers have been dumped.
pub fn sys_putnbr(scheduler: &Scheduler, regs: &mut InterruptRegisters)
    requires
        scheduler.current.is_some(),
    ensures
        *final(regs) == with_eax(*old(regs), 0),
{
    regs.eax = 0;
}

/// Opens a socket, installs it in the caller's descriptor table, and returns
/// the descriptor in `eax`.
pub fn sys_socket_create(scheduler: &mut Scheduler, sockets: &mut SocketTable, regs: &mut InterruptRegisters)
    requires
        old(scheduler).wf(),
        old(scheduler).has_current(),
        old(sockets).wf(),
        old(sockets).slots().len() < usize::MAX,
        old(scheduler).current_process().socket_fds@.len() < usize::MAX,
    ensures
        final(scheduler).wf(),
        final(sockets).wf(),
        created(*old(sockets), *final(sockets)),
        ({
            let cur = old(scheduler).current_process();
            let fds = cur.socket_fds@;
            &&& *final(regs) == with_eax(*old(regs), installed_fd(fds) as u32)
            &&& final(scheduler).table.slots()[old(scheduler).current.unwrap() as int].unwrap().socket_fds@
                == installed_fds(fds, old(sockets).next_id())
            &&& final(scheduler).has_current()
            &&& final(scheduler).current_process() == (Process {
                socket_fds: final(scheduler).current_process().socket_fds,
                ..cur
            })
        }),
        final(scheduler).run_queue == old(scheduler).run_queue,
        final(scheduler).table.free_pids() == old(scheduler).table.free_pids(),
        final(scheduler).current == old(scheduler).current,
        final(scheduler).table.slots().len() == old(scheduler).table.slots().len(),
        forall|i: int| 0 <= i < old(scheduler).table.slots().len() && i != old(scheduler).current.unwrap()
            ==> #[trigger] final(scheduler).table.slots()[i] == old(scheduler).table.slots()[i],
{
    let sid = sockets.create();
    let process = scheduler.current().unwrap();
    let fd = process.install_socket(sid);
    regs.eax = fd as u32;
}

/// Closes the caller's descriptor `ebx`: `eax` is 0 on success and the error
/// value if the descriptor was empty or its socket was not open.
pub fn sys_socket_close(scheduler: &mut Scheduler, sockets: &mut SocketTable, regs: &mut InterruptRegisters)
    requires
        old(scheduler).wf(),
        old(scheduler).has_current(),
        old(sockets).wf(),
    ensures
        final(scheduler).wf(),
        final(sockets).wf(),
        ({
            let cur = old(scheduler).current_process();
            let fds = cur.socket_fds@;
            let fd = old(regs).ebx as usize as int;
            let sid = if fd < fds.len() { fds[fd] } else { None };
            &&& final(scheduler).table.slots()[old(scheduler).current.unwrap() as int].unwrap().socket_fds@
                == (if fd < fds.len() { fds.update(fd, None) } else { fds })
            &&& final(scheduler).has_current()
            &&& final(scheduler).current_process() == (Process {
                socket_fds: final(scheduler).current_process().socket_fds,
                ..cur
            })
            &&& *final(regs) == with_eax(*old(regs), match sid {
                None => SYSCALL_ERROR,
                Some(s) => if old(sockets).is_open(s) { 0 } else { SYSCALL_ERROR },
            })
            &&& sid.is_none() ==> *final(sockets) == *old(sockets)
            &&& sid matches Some(s) ==> if old(sockets).is_open(s) {
                closed_once(*old(sockets), *final(sockets), s)
            } else {
                *final(sockets) == *old(sockets)
            }
        }),
        final(scheduler).current == old(scheduler).current,
        final(scheduler).run_queue == old(scheduler).run_queue,
        final(scheduler).table.free_pids() == old(scheduler).table.free_pids(),
        final(scheduler).table.slots().len() == old(scheduler).table.slots().len(),
        forall|i: int| 0 <= i < old(scheduler).table.slots().len() && i != old(scheduler).current.unwrap()
            ==> #[trigger] final(scheduler).table.slots()[i] == old(scheduler).table.slots()[i],
{
    let fd = regs.ebx as usize;
    let sid = {
        let process = scheduler.current().unwrap();
        process.remove_socket(fd)
    };
    regs.eax = match sid {
        None => SYSCALL_ERROR,
        Some(sid) => match sockets.close(sid) {
            Ok(()) => 0,
            Err(_) => SYSCALL_ERROR,
        },
    };
}

/// A checked socket transfer: the socket and the caller's buffer, which lies
/// inside one of its VMAs.
#[derive(Clone, Copy, Debug, PartialEq, Eq, Structural)]
pub struct Transfer {
    pub socket: SocketId,
    pub buf: usize,
    pub len: usize,
}

/// The socket behind the caller's descriptor `ebx`, if any.
pub open spec fn resolved_socket(p: Process, regs: InterruptRegisters) -> Option<SocketId> {
    let fd = regs.ebx as usize as int;
    if fd < p.socket_fds@.len() { p.socket_fds@[fd] } else { None }
}

/// The checks of a socket call on descriptor `ebx` and buffer `ecx`/`edx`
/// do not reach an empty VMA at address 0 (the scan cannot handle one).
pub open spec fn transfer_checkable(p: Process, regs: InterruptRegisters) -> bool {
    let buf = regs.ecx as usize as int;
    let len = regs.edx as usize as int;
    resolved_socket(p, regs) is Some && len > 0 && buf + len - 1 <= usize::MAX ==> !meets_empty_vma_from(
        p.vmas@,
        0,
        buf,
        len,
    )
}

/// What a socket call on the caller's registers goes on with: `None` (and
/// the error value in `eax`) when the descriptor is empty or the buffer is
/// not inside a VMA that allows the access.
pub open spec fn transfer_spec(p: Process, regs: InterruptRegisters, need_write: bool) -> Option<Transfer> {
    let buf = regs.ecx as usize;
    let len = regs.edx as usize;
    match resolved_socket(p, regs) {
        Some(sid) => if user_range_ok(p.vmas@, buf as int, len as int, need_write) {
            Some(Transfer { socket: sid, buf, len })
        } else {
            None
        },
        None => None,
    }
}

fn socket_transfer(scheduler: &Scheduler, regs: &mut InterruptRegisters, need_write: bool) -> (r: Option<Transfer>)
    requires
        scheduler.has_current(),
        transfer_checkable(scheduler.current_process(), *old(regs)),
    ensures
        r == transfer_spec(scheduler.current_process(), *old(regs), need_write),
        r is Some ==> *final(regs) == *old(regs),
        r is None ==> *final(regs) == with_eax(*old(regs), SYSCALL_ERROR),
{
    let fd = regs.ebx as usize;
    let buf = regs.ecx as usize;
    let len = regs.edx as usize;
    let process = scheduler.table.get(scheduler.current.unwrap()).unwrap();
    let sid = match process.resolve_socket(fd) {
        Some(sid) => sid,
        None => {
            regs.eax = SYSCALL_ERROR;
            return None;
        },
    };
    if !validate_user_range(process.vmas.as_slice(), buf, len, need_write) {
        regs.eax = SYSCALL_ERROR;
        return None;
    }
    Some(Transfer { socket: sid, buf, len })
}

/// First half of a socket write: resolves descriptor `ebx` and checks that
/// the `edx` bytes at `ecx` lie inside one of the caller's VMAs. On failure
/// `eax` gets the error value and nothing is to be copied.
pub fn sys_socket_write(scheduler: &Scheduler, regs: &mut InterruptRegisters) -> (r: Option<Transfer>)
    requires
        scheduler.has_current(),
        transfer_checkable(scheduler.current_process(), *old(regs)),
    ensures
        r == transfer_spec(scheduler.current_process(), *old(regs), false),
        r is Some ==> *final(regs) == *old(regs),
        r is None ==> *final(regs) == with_eax(*old(regs), SYSCALL_ERROR),
{
    socket_transfer(scheduler, regs, false)
}

/// Second half of a socket write: appends `data`, the bytes of the checked
/// buffer, to the socket; `eax` gets the number of bytes written, or the
/// error value if the socket is no longer open.
pub fn finish_socket_write(sockets: &mut SocketTable, socket: SocketId, data: &[u8], regs: &mut InterruptRegisters)
    requires
        old(sockets).wf(),
    ensures
        final(sockets).wf(),
        *final(regs) == with_eax(*old(regs), if old(sockets).is_open(socket) { data@.len() as usize as u32 } else { SYSCALL_ERROR }),
        !old(sockets).is_open(socket) ==> *final(sockets) == *old(sockets),
        old(sockets).is_open(socket) ==> final(sockets).is_open(socket)
            && final(sockets).slots()[socket as int].unwrap().contents() == old(sockets).slots()[socket as int].unwrap().contents() + data@
            && final(sockets).slots()[socket as int].unwrap().ref_count() == old(sockets).slots()[socket as int].unwrap().ref_count()
            && forall|i: int| 0 <= i < old(sockets).slots().len() && i != socket ==> #[trigger] final(sockets).slots()[i] == old(sockets).slots()[i],
        final(sockets).slots().len() == old(sockets).slots().len(),
        final(sockets).free_ids() == old(sockets).free_ids(),
{
    regs.eax = match socket_write(sockets, socket, data) {
        Ok(n) => n as u32,
        Err(_) => SYSCALL_ERROR,
    };
}

/// First half of a socket read: resolves descriptor `ebx` and checks that
/// the `edx` bytes at `ecx` lie inside one of the caller's writable VMAs. On
/// failure `eax` gets the error value and nothing is to be copied.
pub fn sys_socket_read(scheduler: &Scheduler, regs: &mut InterruptRegisters) -> (r: Option<Transfer>)
    requires
        scheduler.has_current(),
        transfer_checkable(scheduler.current_process(), *old(regs)),
    ensures
        r == transfer_spec(scheduler.current_process(), *old(regs), true),
        r is Some ==> *final(regs) == *old(regs),
        r is None ==> *final(regs) == with_eax(*old(regs), SYSCALL_ERROR),
{
    socket_transfer(scheduler, regs, true)
}

/// Second half of a socket read: moves the oldest bytes of the socket into
/// `out`, the checked buffer; `eax` gets the number of bytes moved, or the
/// error value if the socket is no longer open.
pub fn finish_socket_read(sockets: &mut SocketTable, socket: SocketId, out: &mut [u8], regs: &mut InterruptRegisters)
    requires
        old(sockets).wf(),
    ensures
        final(sockets).wf(),
        !old(sockets).is_open(socket) ==> *final(sockets) == *old(sockets) && final(out)@ == old(out)@
            && *final(regs) == with_eax(*old(regs), SYSCALL_ERROR),
        old(sockets).is_open(socket) ==> {
            let held = old(sockets).slots()[socket as int].unwrap().contents();
            let n = if old(out)@.len() < held.len() { old(out)@.len() } else { held.len() };
            &&& *final(regs) == with_eax(*old(regs), n as usize as u32)
            &&& final(out)@ == held.subrange(0, n as int) + old(out)@.subrange(n as int, old(out)@.len() as int)
            &&& final(sockets).is_open(socket)
            &&& final(sockets).slots()[socket as int].unwrap().contents() == held.subrange(n as int, held.len() as int)
            &&& final(sockets).slots()[socket as int].unwrap().ref_count() == old(sockets).slots()[socket as int].unwrap().ref_count()
            &&& forall|i: int| 0 <= i < old(sockets).slots().len() && i != socket ==> #[trigger] final(sockets).slots()[i] == old(sockets).slots()[i]
        },
        final(sockets).slots().len() == old(sockets).slots().len(),
        final(sockets).free_ids() == old(sockets).free_ids(),
{
    regs.eax = match socket_read(sockets, socket, out) {
        Ok(n) => n as u32,
        Err(_) => SYSCALL_ERROR,
    };
}

/// Marks the caller as waiting for a child to stop.
pub fn sys_wait(scheduler: &mut Scheduler)
    requires
        old(scheduler).wf(),
        old(scheduler).has_current(),
    ensures
        final(scheduler).wf(),
        final(scheduler).table.slots() == with_current(
            *old(scheduler),
            Process { state: ProcessState::Waiting, ..old(scheduler).current_process() },
        ),
        final(scheduler).current == old(scheduler).current,
        final(scheduler).run_queue@ == old(scheduler).run_queue@,
        final(scheduler).table.free_pids() == old(scheduler).table.free_pids(),
{
    let cur = scheduler.current().unwrap();
    cur.state = ProcessState::Waiting;
}

/// Installs the handler at address `ecx` for signal `ebx`: `eax` is 0 on
/// success, the error value for an unknown signal or one that keeps its action.
pub fn sys_signal(scheduler: &mut Scheduler, regs: &mut InterruptRegisters)
    requires
        old(scheduler).wf(),
        old(scheduler).has_current(),
    ensures
        final(scheduler).wf(),
        final(scheduler).current == old(scheduler).current,
        ({
            let n = old(regs).ebx as u8;
            let cur = old(scheduler).current_process();
            if n >= 5 {
                &&& *final(regs) == with_eax(*old(regs), SYSCALL_ERROR)
                &&& *final(scheduler) == *old(scheduler)
            } else {
                let sig = choose|s: Signal| signal_number(s) == n;
                let ok = overridable(sig);
                &&& *final(regs) == with_eax(*old(regs), if ok { 0 } else { SYSCALL_ERROR })
                &&& final(scheduler).table.slots().len() == old(scheduler).table.slots().len()
                &&& forall|i: int| 0 <= i < old(scheduler).table.slots().len() && i != old(scheduler).current.unwrap()
                    ==> #[trigger] final(scheduler).table.slots()[i] == old(scheduler).table.slots()[i]
                &&& final(scheduler).run_queue == old(scheduler).run_queue
                &&& final(scheduler).table.free_pids() == old(scheduler).table.free_pids()
                &&& final(scheduler).has_current()
                &&& ok ==> final(scheduler).current_process() == Process {
                    signal_handlers: final(scheduler).current_process().signal_handlers,
                    ..cur
                }
                &&& ok ==> final(scheduler).current_process().signal_handlers.0@ == cur.signal_handlers.0@.update(
                    signal_number(sig) as int,
                    Action::Handler(old(regs).ecx as usize),
                )
                &&& ok ==> final(scheduler).current_process().signal_handlers.action(sig) == Action::Handler(old(regs).ecx as usize)
                &&& ok ==> forall|other: Signal| other != sig ==> #[trigger] final(scheduler).current_process().signal_handlers.action(other)
                    == cur.signal_handlers.action(other)
                &&& !ok ==> final(scheduler).current_process() == cur
            }
        }),
{
    let signal = match Signal::try_from(regs.ebx as u8) {
        Ok(signal) => signal,
        Err(_) => {
            regs.eax = SYSCALL_ERROR;
            return;
        },
    };
    let vaddr = regs.ecx as usize;
    let cur = scheduler.current().unwrap();
    match cur.signal_handlers.set(signal, Action::Handler(vaddr)) {
        Ok(_) => regs.eax = 0,
        Err(_) => regs.eax = SYSCALL_ERROR,
    }
    proof {
        let n = old(regs).ebx as u8;
        let sig = choose|s: Signal| signal_number(s) == n;
        assert(signal_number(signal) == n);
        assert(sig == signal) by {
            match sig {
                Signal::SigInt => {},
                Signal::SigKill => {},
                Signal::SigUsr => {},
                Signal::SigCont => {},
                Signal::SigStop => {},
            }
            match signal {
                Signal::SigInt => {},
                Signal::SigKill => {},
                Signal::SigUsr => {},
                Signal::SigCont => {},
                Signal::SigStop => {},
            }
        }
    }
}

/// Queues signal `ebx` on process `ecx`: `eax` is 0 on success, the error
/// value for an unknown signal, and the error value minus one when no such
/// process exists.
pub fn sys_kill(scheduler: &mut Scheduler, regs: &mut InterruptRegisters)
    requires
        old(scheduler).wf(),
    ensures
        final(scheduler).wf(),
        final(scheduler).current == old(scheduler).current,
        final(scheduler).run_queue@ == old(scheduler).run_queue@,
        final(scheduler).table.free_pids() == old(scheduler).table.free_pids(),
        ({
            let n = old(regs).ebx as u8;
            let pid = old(regs).ecx as usize;
            if n >= 5 {
                &&& *final(regs) == with_eax(*old(regs), SYSCALL_ERROR)
                &&& *final(scheduler) == *old(scheduler)
            } else if !old(scheduler).table.is_live(pid) {
                &&& *final(regs) == with_eax(*old(regs), (SYSCALL_ERROR - 1) as u32)
                &&& final(scheduler).table == old(scheduler).table
            } else {
                let p = old(scheduler).table.slots()[pid as int].unwrap();
                let sig = choose|s: Signal| signal_number(s) == n;
                let q = final(scheduler).table.slots()[pid as int].unwrap();
                &&& *final(regs) == with_eax(*old(regs), 0)
                &&& final(scheduler).table.is_live(pid)
                &&& q.signals_queued@ == p.signals_queued@.push(sig)
                &&& same_but_signals(p, q)
                &&& final(scheduler).table.slots().len() == old(scheduler).table.slots().len()
                &&& forall|i: int| 0 <= i < old(scheduler).table.slots().len() && i != pid
                    ==> #[trigger] final(scheduler).table.slots()[i] == old(scheduler).table.slots()[i]
            }
        }),
{
    let signal = match Signal::try_from(regs.ebx as u8) {
        Ok(signal) => signal,
        Err(_) => {
            regs.eax = SYSCALL_ERROR;
            return;
        },
    };
    let pid = regs.ecx as Pid;
    let process = match scheduler.table.get_mut(pid) {
        Some(process) => process,
        None => {
            regs.eax = SYSCALL_ERROR - 1;
            return;
        },
    };
    process.signals_queued.push(signal);
    regs.eax = 0;
}

/// Leaves the caller's signal handler, restoring its saved registers: the
/// caller resumes with the registers it had when the signal came (`regs`
/// gets them). Outside a handler nothing changes.
pub fn sys_exit_signal_handler(scheduler: &mut Scheduler, regs: &mut InterruptRegisters)
    requires
        old(scheduler).wf(),
        old(scheduler).has_current(),
    ensures
        final(scheduler).wf(),
        final(scheduler).current == old(scheduler).current,
        *final(regs) == (match old(scheduler).current_process().signal_handler_saved_registers {
            Some(saved) => saved,
            None => *old(regs),
        }),
        ({
            let cur = old(scheduler).current_process();
            let now = final(scheduler).current_process();
            &&& cur.signal_handler_saved_registers.is_some() ==> now.saved_registers == cur.signal_handler_saved_registers.unwrap()
                && now.signal_handler_saved_registers.is_none()
            &&& cur.signal_handler_saved_registers.is_none() ==> now.saved_registers == cur.saved_registers
                && now.signal_handler_saved_registers.is_none()
            &&& now.pid == cur.pid && now.state == cur.state
            &&& final(scheduler).has_current()
            &&& now == (match cur.signal_handler_saved_registers {
                Some(saved) => Process { saved_registers: saved, signal_handler_saved_registers: None, ..cur },
                None => cur,
            })
        }),
        final(scheduler).run_queue == old(scheduler).run_queue,
        final(scheduler).table.free_pids() == old(scheduler).table.free_pids(),
        final(scheduler).table.slots().len() == old(scheduler).table.slots().len(),
        forall|i: int| 0 <= i < old(scheduler).table.slots().len() && i != old(scheduler).current.unwrap()
            ==> #[trigger] final(scheduler).table.slots()[i] == old(scheduler).table.slots()[i],
{
    let cur = scheduler.current().unwrap();
    if cur.exit_signal_handler().is_ok() {
        *regs = cur.saved_registers;
    }
}

} // verus!
