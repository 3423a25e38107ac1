//! Processes, the process table, the run queue and the round-robin scheduler.
use vstd::prelude::*;
use crate::binary::{Binary, Permissions, Segment};
use crate::arch::x86::idt::InterruptRegisters;
use crate::signals::{Signal, SignalsHandlers, default_action};
use crate::socket::SocketId;
use crate::arch::x86::vmm::addressspace::{
    Addressspace, forked_space, pages_from, page_frames, fresh_frames, lemma_forked_frames, frames_in_use,
    frames_disjoint, law_fork_separate,
};
use crate::arch::x86::vmm::page_allocator::PageAllocator;
use crate::arch::x86::vmm::page::PageDirectory;
use std::collections::VecDeque;

verus! {

/// A process id: the process's index in the process table.
pub type Pid = usize;

/// Owner of a process.
pub type OwnerId = usize;

/// Scheduling state of a process.
#[derive(Clone, Copy, Debug, PartialEq, Eq, Structural)]
pub enum ProcessState {
    Running,
    Ready,
    Blocked,
    Waiting,
    Zombie,
}

/// A region of a process's virtual address space.
#[derive(Clone, Copy, Debug, PartialEq, Eq)]
pub struct VMA {
    pub start: usize,
    pub offset: Option<usize>,
    pub size: usize,
    pub permissions: Permissions,
}

/// Who created a process.
#[derive(Clone, Copy, Debug, PartialEq, Eq, Structural)]
pub enum Parent {
    Root,
    Pid(Pid),
}

/// A user process.
pub struct Process {
    pub pid: Pid,
    pub state: ProcessState,
    pub addressspace: Addressspace,
    pub saved_registers: InterruptRegisters,
    pub vmas: Vec<VMA>,
    pub parent: Parent,
    pub children: Vec<Pid>,
    pub children_stopped: Vec<Pid>,
    pub owner_id: OwnerId,
    pub socket_fds: Vec<Option<SocketId>>,
    pub super_user: bool,
    pub signal_handlers: SignalsHandlers,
    pub signals_queued: Vec<Signal>,
    pub signal_handler_saved_registers: Option<InterruptRegisters>,
}

/// The VMA describing a program segment.
pub open spec fn segment_vma(s: Segment) -> VMA {
    VMA { start: s.vaddr, offset: s.offset, size: s.size, permissions: s.permissions }
}

/// `q` equals `p` in every field but the queued signals.
pub open spec fn same_but_signals(p: Process, q: Process) -> bool {
    &&& q.pid == p.pid
    &&& q.state == p.state
    &&& q.addressspace == p.addressspace
    &&& q.saved_registers == p.saved_registers
    &&& q.vmas@ == p.vmas@
    &&& q.parent == p.parent
    &&& q.children@ == p.children@
    &&& q.children_stopped@ == p.children_stopped@
    &&& q.owner_id == p.owner_id
    &&& q.socket_fds@ == p.socket_fds@
    &&& q.super_user == p.super_user
    &&& q.signal_handlers == p.signal_handlers
    &&& q.signal_handler_saved_registers == p.signal_handler_saved_registers
}

/// The first empty descriptor slot, if any.
pub open spec fn first_free_fd(fds: Seq<Option<SocketId>>) -> Option<int> {
    if exists|i: int| 0 <= i < fds.len() && fds[i].is_none() {
        Some(choose|i: int| 0 <= i < fds.len() && fds[i].is_none() && forall|j: int| 0 <= j < i ==> fds[j].is_some())
    } else {
        None
    }
}

impl Process {
    /// A ready process that runs `binary`: an address space with only the
    /// kernel's directory entries, one VMA per segment, execution starting at
    /// the binary's entry with its stack, default signal actions.
    pub fn new(binary: &Binary, parent: Parent, super_user: bool, kernel_directory: &PageDirectory) -> (r: Self)
        requires
            kernel_directory.0@.len() == 1024,
        ensures
            r.pid == 0,
            r.state == ProcessState::Ready,
            r.addressspace.wf(),
            r.addressspace.page_directory.0@ == kernel_directory.0@,
            forall|i: int| 0 <= i < 1024 ==> (#[trigger] r.addressspace.page_tables@[i]) is None,
            r.saved_registers == InterruptRegisters::new_spec(binary.entry as u32, binary.stack as u32),
            r.vmas@ == binary.segments@.map_values(|s: Segment| segment_vma(s)),
            r.parent == parent,
            r.children@ == Seq::<Pid>::empty(),
            r.children_stopped@ == Seq::<Pid>::empty(),
            r.owner_id == 0,
            r.socket_fds@ == Seq::<Option<SocketId>>::empty(),
            r.super_user == super_user,
            forall|sig: Signal| #[trigger] r.signal_handlers.action(sig) == default_action(sig),
            r.signals_queued@ == Seq::<Signal>::empty(),
            r.signal_handler_saved_registers.is_none(),
    {
        let mut vmas: Vec<VMA> = Vec::new();
        let mut i: usize = 0;
        while i < binary.segments.len()
            invariant
                i <= binary.segments@.len(),
                vmas@ == binary.segments@.subrange(0, i as int).map_values(|s: Segment| segment_vma(s)),
            decreases binary.segments@.len() - i,
        {
            let s = &binary.segments[i];
            vmas.push(VMA { start: s.vaddr, offset: s.offset, size: s.size, permissions: s.permissions });
            i = i + 1;
            assert(vmas@ =~= binary.segments@.subrange(0, i as int).map_values(|s: Segment| segment_vma(s)));
        }
        assert(binary.segments@.subrange(0, i as int) =~= binary.segments@);
        Self {
            pid: 0,
            state: ProcessState::Ready,
            addressspace: Addressspace::new(kernel_directory),
            saved_registers: InterruptRegisters::new(binary.entry as u32, binary.stack as u32),
            vmas,
            parent,
            children: Vec::new(),
            owner_id: 0,
            socket_fds: Vec::new(),
            children_stopped: Vec::new(),
            super_user,
            signal_handlers: SignalsHandlers::new(),
            signals_queued: Vec::new(),
            signal_handler_saved_registers: None,
        }
    }

    /// A ready child of `process`: same registers, VMAs, descriptors, rights
    /// and signal actions; no children and no queued signals of its own; an
    /// address space forked from the parent's (see `Addressspace::fork`), its
    /// pages on frames newly taken from `allocator`, one per user page of the
    /// parent, into which the caller copies the parent's pages. There must be
    /// a free page for each.
    pub fn from_process(
        process: &Process,
        allocator: &mut PageAllocator,
        kernel_directory: &PageDirectory,
        table_paddrs: &[usize],
    ) -> (r: Self)
        requires
            process.addressspace.wf(),
            old(allocator).wf(),
            frames_in_use(process.addressspace, old(allocator).free_pages()),
            pages_from(process.addressspace, 0, 0xC_0000).len() <= old(allocator).free_pages().len(),
            kernel_directory.0@.len() == 1024,
            table_paddrs@.len() == 768,
        ensures
            r.pid == 0,
            r.state == ProcessState::Ready,
            r.addressspace.wf(),
            final(allocator).wf(),
            forked_space(
                r.addressspace,
                process.addressspace,
                kernel_directory.0@,
                page_frames(pages_from(r.addressspace, 0, 0xC_0000)),
                table_paddrs@,
            ),
            fresh_frames(r.addressspace, old(allocator).free_pages(), final(allocator).free_pages()),
            frames_disjoint(r.addressspace, process.addressspace),
            frames_in_use(process.addressspace, final(allocator).free_pages()),
            r.saved_registers == process.saved_registers,
            r.vmas@ == process.vmas@,
            r.parent == Parent::Pid(process.pid),
            r.children@ == Seq::<Pid>::empty(),
            r.children_stopped@ == Seq::<Pid>::empty(),
            r.owner_id == 0,
            r.socket_fds@ == process.socket_fds@,
            r.super_user == process.super_user,
            r.signal_handlers == process.signal_handlers,
            r.signals_queued@ == Seq::<Signal>::empty(),
            r.signal_handler_saved_registers == process.signal_handler_saved_registers,
    {
        let pages = process.addressspace.fork_pages();
        let frames = allocator.allocate_frames(pages.len());
        let addressspace = process.addressspace.fork(kernel_directory, frames.as_slice(), table_paddrs);
        proof {
            lemma_forked_frames(pages_from(process.addressspace, 0, 0xC_0000), frames@);
            law_fork_separate(addressspace, process.addressspace, old(allocator).free_pages(), allocator.free_pages());
        }
        Self {
            pid: 0,
            state: ProcessState::Ready,
            addressspace,
            saved_registers: process.saved_registers,
            vmas: copy_vmas(&process.vmas),
            parent: Parent::Pid(process.pid),
            children: Vec::new(),
            children_stopped: Vec::new(),
            owner_id: 0,
            socket_fds: copy_fds(&process.socket_fds),
            super_user: process.super_user,
            signal_handlers: process.signal_handlers,
            signals_queued: Vec::new(),
            signal_handler_saved_registers: process.signal_handler_saved_registers,
        }
    }

    /// Saves the registers and resumes at the signal handler `entry`.
    pub fn enter_signal_handler(&mut self, entry: usize)
        ensures
            final(self).signal_handler_saved_registers == Some(old(self).saved_registers),
            final(self).saved_registers == (InterruptRegisters { eip: entry as u32, ..old(self).saved_registers }),
            final(self).pid == old(self).pid,
            final(self).state == old(self).state,
            final(self).addressspace == old(self).addressspace,
            final(self).vmas@ == old(self).vmas@,
            final(self).parent == old(self).parent,
            final(self).children@ == old(self).children@,
            final(self).children_stopped@ == old(self).children_stopped@,
            final(self).socket_fds@ == old(self).socket_fds@,
            final(self).super_user == old(self).super_user,
            final(self).signal_handlers == old(self).signal_handlers,
            final(self).signals_queued@ == old(self).signals_queued@,
            final(self).owner_id == old(self).owner_id,
    {
        self.signal_handler_saved_registers = Some(self.saved_registers);
        self.saved_registers.eip = entry as u32;
    }

    /// Restores the registers saved on entering a signal handler; `Err` when
    /// no handler is running.
    pub fn exit_signal_handler(&mut self) -> (r: Result<(), ()>)
        ensures
            r.is_ok() == old(self).signal_handler_saved_registers.is_some(),
            r.is_ok() ==> final(self).saved_registers == old(self).signal_handler_saved_registers.unwrap()
                && final(self).signal_handler_saved_registers.is_none(),
            r.is_err() ==> final(self).saved_registers == old(self).saved_registers
                && final(self).signal_handler_saved_registers == old(self).signal_handler_saved_registers,
            final(self).pid == old(self).pid,
            final(self).state == old(self).state,
            final(self).addressspace == old(self).addressspace,
            final(self).vmas@ == old(self).vmas@,
            final(self).parent == old(self).parent,
            final(self).children@ == old(self).children@,
            final(self).children_stopped@ == old(self).children_stopped@,
            final(self).socket_fds@ == old(self).socket_fds@,
            final(self).super_user == old(self).super_user,
            final(self).signal_handlers == old(self).signal_handlers,
            final(self).signals_queued@ == old(self).signals_queued@,
            final(self).owner_id == old(self).owner_id,
            *final(self) == (match old(self).signal_handler_saved_registers {
                Some(saved) => Process { saved_registers: saved, signal_handler_saved_registers: None, ..*old(self) },
                None => *old(self),
            }),
    {
        match self.signal_handler_saved_registers {
            Some(reg) => {
                self.saved_registers = reg;
                self.signal_handler_saved_registers = None;
                Ok(())
            },
            None => Err(()),
        }
    }

    /// Puts socket `sid` in the first empty descriptor slot (or a new one at
    /// the end) and returns the descriptor.
    pub fn install_socket(&mut self, sid: SocketId) -> (r: usize)
        requires
            old(self).socket_fds@.len() < usize::MAX,
        ensures
            first_free_fd(old(self).socket_fds@).is_some() ==> r == first_free_fd(old(self).socket_fds@).unwrap()
                && final(self).socket_fds@ == old(self).socket_fds@.update(r as int, Some(sid)),
            first_free_fd(old(self).socket_fds@).is_none() ==> r == old(self).socket_fds@.len()
                && final(self).socket_fds@ == old(self).socket_fds@.push(Some(sid)),
            final(self).pid == old(self).pid,
            final(self).state == old(self).state,
            final(self).addressspace == old(self).addressspace,
            final(self).saved_registers == old(self).saved_registers,
            final(self).vmas@ == old(self).vmas@,
            final(self).parent == old(self).parent,
            final(self).children@ == old(self).children@,
            final(self).children_stopped@ == old(self).children_stopped@,
            final(self).super_user == old(self).super_user,
            final(self).signal_handlers == old(self).signal_handlers,
            final(self).signals_queued@ == old(self).signals_queued@,
            final(self).signal_handler_saved_registers == old(self).signal_handler_saved_registers,
            *final(self) == (Process { socket_fds: final(self).socket_fds, ..*old(self) }),
    {
        let mut idx: usize = 0;
        while idx < self.socket_fds.len()
            invariant
                idx <= self.socket_fds@.len(),
                self.socket_fds@ == old(self).socket_fds@,
                forall|j: int| 0 <= j < idx ==> self.socket_fds@[j].is_some(),
                *self == *old(self),
            decreases self.socket_fds@.len() - idx,
        {
            if self.socket_fds[idx].is_none() {
                proof {
                    let fds = old(self).socket_fds@;
                    assert(exists|i: int| 0 <= i < fds.len() && fds[i].is_none());
                    let c = choose|i: int| 0 <= i < fds.len() && fds[i].is_none() && forall|j: int| 0 <= j < i ==> fds[j].is_some();
                    assert(c == idx) by {
                        if c < idx {
                            assert(fds[c].is_some());
                        }
                        if c > idx {
                            assert(fds[idx as int].is_some());
                        }
                    }
                }
                self.socket_fds.set(idx, Some(sid));
                return idx;
            }
            idx = idx + 1;
        }
        proof {
            let fds = old(self).socket_fds@;
            assert(!(exists|i: int| 0 <= i < fds.len() && fds[i].is_none()));
        }
        self.socket_fds.push(Some(sid));
        self.socket_fds.len() - 1
    }

    /// The socket behind descriptor `fd`, if the slot exists and is in use.
    pub fn resolve_socket(&self, fd: usize) -> (r: Option<SocketId>)
        ensures
            r == (if (fd as int) < self.socket_fds@.len() { self.socket_fds@[fd as int] } else { None }),
    {
        if fd < self.socket_fds.len() {
            self.socket_fds[fd]
        } else {
            None
        }
    }

    /// Empties descriptor slot `fd` and returns the socket it held.
    pub fn remove_socket(&mut self, fd: usize) -> (r: Option<SocketId>)
        ensures
            r == (if (fd as int) < old(self).socket_fds@.len() { old(self).socket_fds@[fd as int] } else { None }),
            final(self).socket_fds@ == (if (fd as int) < old(self).socket_fds@.len() {
                old(self).socket_fds@.update(fd as int, None)
            } else {
                old(self).socket_fds@
            }),
            final(self).pid == old(self).pid,
            final(self).state == old(self).state,
            final(self).addressspace == old(self).addressspace,
            final(self).saved_registers == old(self).saved_registers,
            final(self).vmas@ == old(self).vmas@,
            final(self).parent == old(self).parent,
            final(self).children@ == old(self).children@,
            final(self).children_stopped@ == old(self).children_stopped@,
            final(self).super_user == old(self).super_user,
            final(self).signal_handlers == old(self).signal_handlers,
            final(self).signals_queued@ == old(self).signals_queued@,
            final(self).signal_handler_saved_registers == old(self).signal_handler_saved_registers,
            *final(self) == (Process { socket_fds: final(self).socket_fds, ..*old(self) }),
    {
        if fd < self.socket_fds.len() {
            let r = self.socket_fds[fd];
            self.socket_fds.set(fd, None);
            r
        } else {
            None
        }
    }
}

/// A copy of a VMA list.
fn copy_vmas(v: &Vec<VMA>) -> (r: Vec<VMA>)
    ensures
        r@ == v@,
{
    let mut r: Vec<VMA> = Vec::new();
    let mut i: usize = 0;
    while i < v.len()
        invariant
            i <= v@.len(),
            r@ == v@.subrange(0, i as int),
        decreases v@.len() - i,
    {
        r.push(v[i]);
        i = i + 1;
    }
    r
}

/// A copy of a descriptor table.
fn copy_fds(v: &Vec<Option<SocketId>>) -> (r: Vec<Option<SocketId>>)
    ensures
        r@ == v@,
{
    let mut r: Vec<Option<SocketId>> = Vec::new();
    let mut i: usize = 0;
    while i < v.len()
        invariant
            i <= v@.len(),
            r@ == v@.subrange(0, i as int),
        decreases v@.len() - i,
    {
        r.push(v[i]);
        i = i + 1;
    }
    r
}

} // verus!

verus! {

/// All processes, addressed by pid; pids of removed processes are reused,
/// most recently freed first.
pub struct ProcessTable {
    processes: Vec<Option<Process>>,
    free_slots: Vec<Pid>,
}

impl ProcessTable {
    /// The slot of every pid ever handed out.
    pub closed spec fn slots(&self) -> Seq<Option<Process>> {
        self.processes@
    }

    /// The freed pids, the next one to reuse last.
    pub closed spec fn free_pids(&self) -> Seq<Pid> {
        self.free_slots@
    }

    /// Whether `pid` names a live process.
    pub open spec fn is_live(&self, pid: Pid) -> bool {
        (pid as int) < self.slots().len() && self.slots()[pid as int].is_some()
    }

    /// The freed pids are exactly the empty slots, each once.
    pub closed spec fn wf(&self) -> bool {
        &&& self.pids_match()
        &&& self.free_slots@.no_duplicates()
        &&& forall|k: int| 0 <= k < self.free_slots@.len() ==> (#[trigger] self.free_slots@[k] as int) < self.processes@.len()
        &&& forall|i: int|
            0 <= i < self.processes@.len() ==> ((#[trigger] self.processes@[i]).is_none() <==> self.free_slots@.contains(i as usize))
    }

    /// Every live slot holds the process whose `pid` is that slot's index.
    pub open spec fn pids_match(&self) -> bool {
        forall|i: int| 0 <= i < self.slots().len() && (#[trigger] self.slots()[i]).is_some() ==> self.slots()[i].unwrap().pid == i
    }

    /// The pid `insert` hands out next.
    pub open spec fn next_pid(&self) -> Pid {
        if self.free_pids().len() > 0 { self.free_pids().last() } else { self.slots().len() as usize }
    }

    /// A table has at most `usize::MAX` slots.
    pub proof fn lemma_slots_len(&self)
        ensures
            self.slots().len() <= usize::MAX,
    {
        assert(self.processes@.len() == self.processes.len());
    }

    /// In a well-formed table every live slot holds its own pid.
    pub proof fn lemma_pids_match(&self)
        requires
            self.wf(),
        ensures
            self.pids_match(),
    {
    }

    /// The pid `insert` hands out next names no live process.
    pub proof fn lemma_next_pid_free(&self)
        requires
            self.wf(),
        ensures
            !self.is_live(self.next_pid()),
    {
        if self.free_slots@.len() > 0 {
            let k = self.free_slots@.len() - 1;
            assert((self.free_slots@[k] as int) < self.processes@.len());
            assert(self.free_slots@.contains(self.free_slots@[k]));
            assert(self.processes@[self.free_slots@[k] as int].is_none());
        } else {
            assert(self.processes@.len() == self.processes.len());
        }
    }

    /// An empty table.
    pub fn new() -> (r: Self)
        ensures
            r.wf(),
            r.slots() == Seq::<Option<Process>>::empty(),
            r.free_pids() == Seq::<Pid>::empty(),
    {
        Self { processes: Vec::new(), free_slots: Vec::new() }
    }

    /// Stores `proc` under the most recently freed pid (or a new one), sets
    /// its `pid` field, and returns the pid.
    pub fn insert(&mut self, proc: Process) -> (r: Pid)
        requires
            old(self).wf(),
            old(self).slots().len() < usize::MAX,
        ensures
            final(self).wf(),
            r == old(self).next_pid(),
            (r as int) <= old(self).slots().len(),
            final(self).slots() == (if (r as int) < old(self).slots().len() {
                old(self).slots().update(r as int, Some(Process { pid: r, ..proc }))
            } else {
                old(self).slots().push(Some(Process { pid: r, ..proc }))
            }),
            final(self).free_pids() == (if old(self).free_pids().len() > 0 {
                old(self).free_pids().drop_last()
            } else {
                old(self).free_pids()
            }),
    {
        let mut proc = proc;
        if let Some(pid) = self.free_slots.pop() {
            proc.pid = pid;
            self.processes.set(pid, Some(proc));
            proof {
                let fs = old(self).free_slots@;
                assert(fs.contains(pid));
                assert(self.free_slots@ =~= fs.drop_last());
                assert forall|i: int| 0 <= i < self.processes@.len() implies ((#[trigger] self.processes@[i]).is_none() <==> self.free_slots@.contains(i as usize)) by {
                    if i == pid as int {
                        if self.free_slots@.contains(i as usize) {
                            let k = choose|k: int| 0 <= k < self.free_slots@.len() && self.free_slots@[k] == i as usize;
                            assert(fs[k] == fs[fs.len() - 1]);
                        }
                    } else {
                        if fs.contains(i as usize) {
                            let k = choose|k: int| 0 <= k < fs.len() && fs[k] == i as usize;
                            assert(k != fs.len() - 1);
                            assert(self.free_slots@[k] == i as usize);
                        }
                        if self.free_slots@.contains(i as usize) {
                            let k = choose|k: int| 0 <= k < self.free_slots@.len() && self.free_slots@[k] == i as usize;
                            assert(fs[k] == i as usize);
                        }
                    }
                }
            }
            pid
        } else {
            let pid = self.processes.len();
            proc.pid = pid;
            self.processes.push(Some(proc));
            proof {
                assert forall|i: int| 0 <= i < self.processes@.len() implies ((#[trigger] self.processes@[i]).is_none() <==> self.free_slots@.contains(i as usize)) by {
                    if i < pid {
                        assert(self.processes@[i] == old(self).processes@[i]);
                    }
                }
            }
            pid
        }
    }

    /// Takes the process `pid` out of the table and frees its pid.
    pub fn remove(&mut self, pid: Pid) -> (r: Option<Process>)
        requires
            old(self).wf(),
        ensures
            final(self).wf(),
            r == (if (pid as int) < old(self).slots().len() { old(self).slots()[pid as int] } else { None }),
            r.is_some() ==> final(self).slots() == old(self).slots().update(pid as int, None)
                && final(self).free_pids() == old(self).free_pids().push(pid),
            r.is_none() ==> *final(self) == *old(self),
            r.is_some() ==> r.unwrap().pid == pid,
    {
        if pid >= self.processes.len() || self.processes[pid].is_none() {
            return None;
        }
        let mut slot: Option<Process> = None;
        std::mem::swap(&mut slot, &mut self.processes[pid]);
        self.free_slots.push(pid);
        proof {
            assert(!old(self).free_slots@.contains(pid));
            assert forall|i: int| 0 <= i < self.processes@.len() implies ((#[trigger] self.processes@[i]).is_none() <==> self.free_slots@.contains(i as usize)) by {
                if i != pid as int {
                    if old(self).free_slots@.contains(i as usize) {
                        let k = choose|k: int| 0 <= k < old(self).free_slots@.len() && old(self).free_slots@[k] == i as usize;
                        assert(self.free_slots@[k] == i as usize);
                    }
                } else {
                    assert(self.free_slots@[self.free_slots@.len() - 1] == pid);
                }
            }
            assert(self.processes@ =~= old(self).processes@.update(pid as int, None));
        }
        slot
    }

    /// The live process `pid`.
    pub fn get(&self, pid: Pid) -> (r: Option<&Process>)
        ensures
            r.is_some() == self.is_live(pid),
            r.is_some() ==> *r.unwrap() == self.slots()[pid as int].unwrap(),
    {
        if pid >= self.processes.len() {
            return None;
        }
        match &self.processes[pid] {
            Some(p) => Some(p),
            None => None,
        }
    }

    /// The live process `pid`, for update; the table stays well formed as
    /// long as the process keeps its pid.
    pub fn get_mut(&mut self, pid: Pid) -> (r: Option<&mut Process>)
        requires
            old(self).wf(),
        ensures
            r.is_some() ==> (*final(r.unwrap())).pid == (*r.unwrap()).pid ==> final(self).wf(),
            r.is_none() ==> final(self).wf(),
            r.is_some() == old(self).is_live(pid),
            r.is_some() ==> *r.unwrap() == old(self).slots()[pid as int].unwrap(),
            r.is_some() ==> final(self).slots() == old(self).slots().update(pid as int, Some(*final(r.unwrap()))),
            final(self).free_pids() == old(self).free_pids(),
            r.is_none() ==> *final(self) == *old(self),
    {
        if pid >= self.processes.len() || self.processes[pid].is_none() {
            return None;
        }
        match &mut self.processes[pid] {
            Some(p) => Some(p),
            None => None,
        }
    }
}

/// Removing a live process frees its pid, and the next insert hands that
/// pid out again.
pub proof fn law_insert_reuses_removed_pid(t0: ProcessTable, t1: ProcessTable, pid: Pid)
    requires
        t0.wf(),
        t0.is_live(pid),
        t1.slots() == t0.slots().update(pid as int, None),
        t1.free_pids() == t0.free_pids().push(pid),
    ensures
        !t1.is_live(pid),
        t1.next_pid() == pid,
{
}

/// The queue of runnable pids, served round-robin.
pub struct RunQueue {
    queue: VecDeque<Pid>,
}

impl RunQueue {
    /// The queued pids, front first.
    pub closed spec fn view(&self) -> Seq<Pid> {
        self.queue@
    }

    /// An empty queue.
    pub fn new() -> (r: Self)
        ensures
            r@ == Seq::<Pid>::empty(),
    {
        Self { queue: VecDeque::new() }
    }

    /// Adds `pid` at the back.
    pub fn enqueue(&mut self, pid: Pid)
        ensures
            final(self)@ == old(self)@.push(pid),
    {
        self.queue.push_back(pid);
    }

    /// Takes the pid at the front.
    pub fn dequeue(&mut self) -> (r: Option<Pid>)
        ensures
            old(self)@.len() == 0 ==> r.is_none() && final(self)@ == old(self)@,
            old(self)@.len() > 0 ==> r == Some(old(self)@[0]) && final(self)@ == old(self)@.drop_first(),
    {
        self.queue.pop_front()
    }

    /// Drops every occurrence of `pid`, keeping the others in order.
    pub fn remove(&mut self, pid: Pid)
        ensures
            final(self)@ == old(self)@.filter(|p: Pid| p != pid),
    {
        let n = self.queue.len();
        let ghost orig = self.queue@;
        let mut i: usize = 0;
        while i < n
            invariant
                n == orig.len(),
                i <= n,
                self.queue@ == orig.subrange(i as int, n as int) + orig.subrange(0, i as int).filter(|p: Pid| p != pid),
            decreases n - i,
        {
            let ghost kept = orig.subrange(0, i as int).filter(|p: Pid| p != pid);
            let front = self.queue.pop_front();
            let p = front.unwrap();
            assert(p == orig[i as int]);
            proof {
                orig.subrange(0, i as int).lemma_filter_push(p, |p: Pid| p != pid);
                assert(orig.subrange(0, i + 1 as int) =~= orig.subrange(0, i as int).push(p));
            }
            if p != pid {
                self.queue.push_back(p);
            }
            i = i + 1;
            assert(self.queue@ =~= orig.subrange(i as int, n as int) + orig.subrange(0, i as int).filter(|p: Pid| p != pid));
        }
        assert(orig.subrange(0, n as int) =~= orig);
        assert(self.queue@ =~= orig.filter(|p: Pid| p != pid));
    }

    /// Whether no pid is queued.
    pub fn is_empty(&self) -> (r: bool)
        ensures
            r == (self@.len() == 0),
    {
        self.queue.len() == 0
    }

    /// Number of queued pids.
    pub fn len(&self) -> (r: usize)
        ensures
            r == self@.len(),
    {
        self.queue.len()
    }
}

/// The process table, the run queue and the pid currently running.
pub struct Scheduler {
    pub table: ProcessTable,
    pub run_queue: RunQueue,
    pub current: Option<Pid>,
}

impl Scheduler {
    /// The scheduler's table is consistent.
    pub open spec fn wf(&self) -> bool {
        self.table.wf()
    }

    /// Whether a process is current and still in the table.
    pub open spec fn has_current(&self) -> bool {
        self.current.is_some() && self.table.is_live(self.current.unwrap())
    }

    /// The current process.
    pub open spec fn current_process(&self) -> Process {
        self.table.slots()[self.current.unwrap() as int].unwrap()
    }

    /// No processes, nothing queued, nothing running.
    pub fn new() -> (r: Self)
        ensures
            r.wf(),
            r.table.slots() == Seq::<Option<Process>>::empty(),
            r.table.free_pids() == Seq::<Pid>::empty(),
            r.run_queue@ == Seq::<Pid>::empty(),
            r.current.is_none(),
    {
        Self { table: ProcessTable::new(), run_queue: RunQueue::new(), current: None }
    }

    /// Adds `proc` to the table and queues it; returns its pid.
    pub fn spawn(&mut self, proc: Process) -> (r: Pid)
        requires
            old(self).wf(),
            old(self).table.slots().len() < usize::MAX,
        ensures
            final(self).wf(),
            r == old(self).table.next_pid(),
            final(self).table.is_live(r),
            final(self).table.slots()[r as int] == Some(Process { pid: r, ..proc }),
            final(self).table.slots().len() == (if (r as int) < old(self).table.slots().len() {
                old(self).table.slots().len()
            } else {
                old(self).table.slots().len() + 1
            }),
            forall|i: int| 0 <= i < old(self).table.slots().len() && i != r ==> #[trigger] final(self).table.slots()[i] == old(self).table.slots()[i],
            final(self).run_queue@ == old(self).run_queue@.push(r),
            final(self).current == old(self).current,
            final(self).table.free_pids() == (if old(self).table.free_pids().len() > 0 {
                old(self).table.free_pids().drop_last()
            } else {
                old(self).table.free_pids()
            }),
    {
        let pid = self.table.insert(proc);
        self.run_queue.enqueue(pid);
        pid
    }

    /// Moves the front of the run queue to its back, makes it current, and
    /// returns its process (none if the queue is empty or the pid is gone).
    pub fn schedule(&mut self) -> (r: Option<&mut Process>)
        requires
            old(self).wf(),
        ensures
            r.is_some() ==> (*final(r.unwrap())).pid == (*r.unwrap()).pid ==> final(self).wf(),
            r.is_none() ==> final(self).wf(),
            old(self).run_queue@.len() == 0 ==> r.is_none() && final(self).run_queue@ == old(self).run_queue@
                && final(self).table == old(self).table && final(self).current == old(self).current,
            old(self).run_queue@.len() > 0 ==> {
                let pid = old(self).run_queue@[0];
                &&& final(self).run_queue@ == old(self).run_queue@.drop_first().push(pid)
                &&& final(self).current == Some(pid)
                &&& r.is_some() == old(self).table.is_live(pid)
                &&& r.is_some() ==> *r.unwrap() == old(self).table.slots()[pid as int].unwrap()
                    && final(self).table.slots() == old(self).table.slots().update(pid as int, Some(*final(r.unwrap())))
                &&& r.is_none() ==> final(self).table == old(self).table
                &&& final(self).table.free_pids() == old(self).table.free_pids()
            },
    {
        let pid = match self.run_queue.dequeue() {
            Some(p) => p,
            None => return None,
        };
        self.run_queue.enqueue(pid);
        self.current = Some(pid);
        self.table.get_mut(pid)
    }

    /// Removes process `pid` from the run queue and the table.
    pub fn exit(&mut self, pid: Pid)
        requires
            old(self).wf(),
        ensures
            final(self).wf(),
            final(self).run_queue@ == old(self).run_queue@.filter(|p: Pid| p != pid),
            old(self).table.is_live(pid) ==> final(self).table.slots() == old(self).table.slots().update(pid as int, None)
                && final(self).table.free_pids() == old(self).table.free_pids().push(pid),
            !old(self).table.is_live(pid) ==> final(self).table == old(self).table,
            final(self).current == old(self).current,
    {
        self.run_queue.remove(pid);
        let _removed = self.table.remove(pid);
    }

    /// The current process, if one is set and still in the table.
    pub fn current(&mut self) -> (r: Option<&mut Process>)
        requires
            old(self).wf(),
        ensures
            r.is_some() ==> (*final(r.unwrap())).pid == (*r.unwrap()).pid ==> final(self).wf(),
            r.is_none() ==> final(self).wf(),
            r.is_some() == old(self).has_current(),
            r.is_some() ==> *r.unwrap() == old(self).current_process()
                && final(self).table.slots() == old(self).table.slots().update(old(self).current.unwrap() as int, Some(*final(r.unwrap()))),
            final(self).table.free_pids() == old(self).table.free_pids(),
            final(self).run_queue == old(self).run_queue,
            final(self).current == old(self).current,
            r.is_none() ==> *final(self) == *old(self),
    {
        match self.current {
            Some(pid) => self.table.get_mut(pid),
            None => None,
        }
    }
}

} // verus!
