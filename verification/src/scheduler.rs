//! The first scheduler: a fixed table of process control blocks scanned
//! round-robin. Signal handlers are kept as code addresses.
use vstd::prelude::*;
use crate::arch::x86::idt::InterruptRegisters;

verus! {

/// Number of slots of the process table.
pub const QUEUE_SIZE: usize = 20;

/// What a signal does by default.
#[derive(Clone, Copy, Debug, PartialEq, Eq, Structural)]
pub enum SignalDefaultBehaviour {
    Terminate,
}

/// The signals of this scheduler.
#[derive(Clone, Copy, Debug, PartialEq, Eq, Structural)]
pub enum Signal {
    Kill,
}

/// A process: its id, saved stack pointer, stack, queued signals and handlers.
#[derive(Debug)]
pub struct ProcessControlBlock {
    pub id: u16,
    pub esp: u32,
    pub stack_start: u32,
    pub stack_size: u32,
    pub queue_signals: Vec<Option<Signal>>,
    pub signal_handlers: Vec<Option<usize>>,
}

/// Saved memory state of a process.
#[derive(Clone, Copy, Debug, PartialEq, Eq, Structural)]
pub struct Memory {
    pub stack_pointer: u32,
}

fn nones<T>(n: usize) -> (r: Vec<Option<T>>)
    ensures
        r@.len() == n,
        forall|i: int| 0 <= i < n ==> #[trigger] r@[i] is None,
{
    let mut v: Vec<Option<T>> = Vec::new();
    while v.len() < n
        invariant
            v@.len() <= n,
            forall|i: int| 0 <= i < v@.len() ==> #[trigger] v@[i] is None,
        decreases n - v@.len(),
    {
        v.push(None);
    }
    v
}

impl ProcessControlBlock {
    /// A process with no queued signal and no handler: 20 signal slots, 32 handler slots.
    pub fn new(id: u16, esp: u32, stack_start: u32, stack_size: u32) -> (r: Self)
        ensures
            r.id == id,
            r.esp == esp,
            r.stack_start == stack_start,
            r.stack_size == stack_size,
            r.queue_signals@.len() == 20,
            forall|i: int| 0 <= i < 20 ==> #[trigger] r.queue_signals@[i] is None,
            r.signal_handlers@.len() == 32,
            forall|i: int| 0 <= i < 32 ==> #[trigger] r.signal_handlers@[i] is None,
    {
        Self {
            id,
            esp,
            stack_start,
            stack_size,
            queue_signals: nones(20),
            signal_handlers: nones(32),
        }
    }
}

/// The first occupied slot at or after `from`, if any.
pub open spec fn first_occupied(queue: Seq<Option<ProcessControlBlock>>, from: int) -> Option<int>
    decreases queue.len() - from,
{
    if from < 0 || from >= queue.len() {
        None
    } else if queue[from] is Some {
        Some(from)
    } else {
        first_occupied(queue, from + 1)
    }
}

/// The pid to run after `running`: the next occupied slot after it, else the
/// first occupied slot, else 1.
pub open spec fn next_pid(queue: Seq<Option<ProcessControlBlock>>, running: int) -> int {
    match first_occupied(queue, running + 1) {
        Some(p) => p,
        None => match first_occupied(queue, 0) {
            Some(p) => p,
            None => 1,
        },
    }
}

/// An occupied slot found from `from` on lies between `from` and the end.
proof fn lemma_first_occupied_range(queue: Seq<Option<ProcessControlBlock>>, from: int)
    ensures
        first_occupied(queue, from) matches Some(p) ==> from <= p < queue.len(),
    decreases queue.len() - from,
{
    if 0 <= from < queue.len() && queue[from] is None {
        lemma_first_occupied_range(queue, from + 1);
    }
}

fn scan_from(queue: &[Option<ProcessControlBlock>], from: usize) -> (r: Option<usize>)
    ensures
        r == (match first_occupied(queue@, from as int) {
            Some(p) => Some(p as usize),
            None => None::<usize>,
        }),
        r is Some ==> r->0 < queue@.len(),
{
    let mut k = from;
    while k < queue.len()
        invariant
            from <= k,
            first_occupied(queue@, from as int) == first_occupied(queue@, k as int),
        decreases queue@.len() - k,
    {
        if queue[k].is_some() {
            return Some(k);
        }
        k = k + 1;
    }
    None
}

/// Picks the next process after `running` round-robin (see `next_pid`).
pub fn find_next_pid(queue: &[Option<ProcessControlBlock>], running: u16) -> (r: u16)
    requires
        queue@.len() <= QUEUE_SIZE,
    ensures
        r == next_pid(queue@, running as int),
{
    proof {
        lemma_first_occupied_range(queue@, running as int + 1);
        lemma_first_occupied_range(queue@, 0);
    }
    match scan_from(queue, running as usize + 1) {
        Some(p) => p as u16,
        None => match scan_from(queue, 0) {
            Some(p) => p as u16,
            None => 1,
        },
    }
}

/// Whether some signal is queued for `pcb`.
pub open spec fn has_queued_signal(pcb: ProcessControlBlock) -> bool {
    exists|i: int| 0 <= i < pcb.queue_signals@.len() && (#[trigger] pcb.queue_signals@[i]) is Some
}

/// The process the timer runs on from `running` (the first tick runs from 1).
pub open spec fn timer_from(running: Option<u16>) -> int {
    match running {
        Some(p) => p as int,
        None => 1,
    }
}

/// The timer tick: the stack pointer of the interrupted process (the address
/// of its saved registers, `regs_addr`) is saved in its slot unless no
/// process ran yet; the next process is picked round-robin (see `next_pid`)
/// and made the running one. Returns its saved stack pointer to switch to,
/// or 0 (stay) when a signal is queued for it.
pub fn timer(queue: &mut Vec<Option<ProcessControlBlock>>, running: &mut Option<u16>, regs_addr: u32) -> (r: u32)
    requires
        old(queue)@.len() <= QUEUE_SIZE,
        *old(running) matches Some(p) ==> (p as int) < old(queue)@.len() && old(queue)@[p as int] is Some,
        ({
            let n = next_pid(old(queue)@, timer_from(*old(running)));
            0 <= n < old(queue)@.len() && old(queue)@[n] is Some
        }),
    ensures
        ({
            let from = timer_from(*old(running));
            let n = next_pid(old(queue)@, from);
            &&& final(queue)@.len() == old(queue)@.len()
            &&& *final(running) == Some(n as u16)
            &&& forall|i: int| 0 <= i < old(queue)@.len() && !(*old(running) is Some && i == from) ==> #[trigger] final(queue)@[i]
                == old(queue)@[i]
            &&& *old(running) is Some ==> (final(queue)@[from] matches Some(pcb) && pcb.esp == regs_addr && {
                let o = old(queue)@[from]->0;
                &&& pcb.id == o.id
                &&& pcb.stack_start == o.stack_start
                &&& pcb.stack_size == o.stack_size
                &&& pcb.queue_signals@ == o.queue_signals@
                &&& pcb.signal_handlers@ == o.signal_handlers@
            })
            &&& final(queue)@[n] matches Some(pcb) && r == (if has_queued_signal(pcb) { 0 } else { pcb.esp })
        }),
{
    let from: u16 = match *running {
        None => 1,
        Some(p) => {
            let mut slot: Option<ProcessControlBlock> = None;
            std::mem::swap(&mut slot, &mut queue[p as usize]);
            let mut pcb = match slot {
                Some(pcb) => pcb,
                None => vstd::pervasive::unreached(),
            };
            pcb.esp = regs_addr;
            queue.set(p as usize, Some(pcb));
            p
        },
    };
    proof {
        assert(forall|i: int| 0 <= i < queue@.len() ==> (#[trigger] queue@[i]).is_some() == old(queue)@[i].is_some());
        lemma_next_pid_same_occupancy(old(queue)@, queue@, from as int);
    }
    let next = find_next_pid(queue.as_slice(), from);
    *running = Some(next);
    let pcb = match &queue[next as usize] {
        Some(pcb) => pcb,
        None => vstd::pervasive::unreached(),
    };
    if signal_queued(pcb) {
        0
    } else {
        pcb.esp
    }
}

/// Whether some signal is queued for `pcb`.
fn signal_queued(pcb: &ProcessControlBlock) -> (r: bool)
    ensures
        r == has_queued_signal(*pcb),
{
    let mut i: usize = 0;
    while i < pcb.queue_signals.len()
        invariant
            i <= pcb.queue_signals@.len(),
            forall|k: int| 0 <= k < i ==> (#[trigger] pcb.queue_signals@[k]) is None,
        decreases pcb.queue_signals@.len() - i,
    {
        if pcb.queue_signals[i].is_some() {
            assert(pcb.queue_signals@[i as int] is Some);
            return true;
        }
        i = i + 1;
    }
    false
}

/// Two queues with the same occupied slots have the same first occupied
/// slot from every index.
proof fn lemma_first_occupied_same(a: Seq<Option<ProcessControlBlock>>, b: Seq<Option<ProcessControlBlock>>, from: int)
    requires
        a.len() == b.len(),
        forall|i: int| 0 <= i < a.len() ==> (#[trigger] b[i]).is_some() == a[i].is_some(),
    ensures
        first_occupied(a, from) == first_occupied(b, from),
    decreases a.len() - from,
{
    if 0 <= from < a.len() {
        lemma_first_occupied_same(a, b, from + 1);
    }
}

/// Two queues with the same occupied slots pick the same next pid.
proof fn lemma_next_pid_same_occupancy(a: Seq<Option<ProcessControlBlock>>, b: Seq<Option<ProcessControlBlock>>, running: int)
    requires
        a.len() == b.len(),
        forall|i: int| 0 <= i < a.len() ==> (#[trigger] b[i]).is_some() == a[i].is_some(),
    ensures
        next_pid(a, running) == next_pid(b, running),
{
    lemma_first_occupied_same(a, b, running + 1);
    lemma_first_occupied_same(a, b, 0);
}

/// Installing a handler for `sig` on the running process: returns
/// the handler installed before. The table is left as it is: the handler goes
/// into a copy of the process, which is dropped.
pub fn signal(queue: &[Option<ProcessControlBlock>], running: u16, sig: Signal, _handler: usize) -> (r: Option<usize>)
    requires
        (running as int) < queue@.len(),
        queue@[running as int] is Some,
        queue@[running as int]->0.signal_handlers@.len() > 0,
    ensures
        r == queue@[running as int]->0.signal_handlers@[0],
{
    let pcb = match &queue[running as usize] {
        Some(p) => p,
        None => vstd::pervasive::unreached(),
    };
    let index: usize = match sig {
        Signal::Kill => 0,
    };
    pcb.signal_handlers[index]
}

/// Whether process `pid` has room to queue a signal. The table is left as
/// it is: the signal goes into a copy of the process, which is dropped.
pub fn kill(queue: &[Option<ProcessControlBlock>], pid: usize, signal: Signal) -> (r: Result<(), ()>)
    requires
        pid < queue@.len(),
        queue@[pid as int] is Some,
    ensures
        r is Ok <==> exists|i: int|
            0 <= i < queue@[pid as int]->0.queue_signals@.len() && (#[trigger] queue@[pid as int]->0.queue_signals@[i]) is None,
{
    let pcb = match &queue[pid] {
        Some(p) => p,
        None => return Err(()),
    };
    assert(*pcb == queue@[pid as int]->0);
    let mut i: usize = 0;
    while i < pcb.queue_signals.len()
        invariant
            *pcb == queue@[pid as int]->0,
            i <= pcb.queue_signals@.len(),
            forall|k: int| 0 <= k < i ==> (#[trigger] pcb.queue_signals@[k]) is Some,
        decreases pcb.queue_signals@.len() - i,
    {
        if pcb.queue_signals[i].is_none() {
            return Ok(());
        }
        i = i + 1;
    }
    Err(())
}


/// Bytes of a saved register frame: 17 registers of 4 bytes.
pub const FRAME_BYTES: usize = 68;

/// `f` is a fresh control block with the given id, stack pointer and stack.
pub open spec fn fresh_pcb(p: ProcessControlBlock, id: u16, esp: u32, stack_start: u32, stack_size: u32) -> bool {
    &&& p.id == id
    &&& p.esp == esp
    &&& p.stack_start == stack_start
    &&& p.stack_size == stack_size
    &&& p.queue_signals@.len() == 20
    &&& forall|i: int| 0 <= i < 20 ==> #[trigger] p.queue_signals@[i] is None
    &&& p.signal_handlers@.len() == 32
    &&& forall|i: int| 0 <= i < 32 ==> #[trigger] p.signal_handlers@[i] is None
}

/// `q` is `p` with the stack pointer, entry point, fault address, code
/// segment and flags a new user frame gets.
pub open spec fn start_frame(p: InterruptRegisters, esp: u32, eip: u32) -> InterruptRegisters {
    InterruptRegisters { esp, eip, cr2: 0x10, csm: 0x8, eflags: 0x200, ..p }
}

/// Starts a process at `f` on a new stack of `stack_size` bytes at `stack`
/// (the mapping the caller made, or its failure): its first register frame
/// sits at the top of the stack, in `frame` (the bytes there), and its
/// control block takes the next pid. Returns the frame's address.
pub fn sys_execve(
    queue: &mut Vec<Option<ProcessControlBlock>>,
    pid_next: &mut u16,
    stack: Result<usize, ()>,
    stack_size: usize,
    f: u32,
    frame: &mut InterruptRegisters,
) -> (r: Result<usize, ()>)
    requires
        old(queue)@.len() <= QUEUE_SIZE,
        (*old(pid_next) as int) < old(queue)@.len(),
        f >= 1,
        stack matches Ok(s) ==> FRAME_BYTES <= s + stack_size <= usize::MAX,
    ensures
        stack is Err ==> r is Err && final(queue)@ == old(queue)@ && *final(pid_next) == *old(pid_next)
            && *final(frame) == *old(frame),
        stack matches Ok(s) ==> {
            let top = s + stack_size - FRAME_BYTES;
            let pid = *old(pid_next);
            &&& r == Ok::<usize, ()>(top as usize)
            &&& *final(frame) == start_frame(*old(frame), top as u32, (f - 1) as u32)
            &&& *final(pid_next) == pid + 1
            &&& final(queue)@.len() == old(queue)@.len()
            &&& final(queue)@[pid as int] matches Some(p) && fresh_pcb(p, pid, top as u32, s as u32, stack_size as u32)
            &&& forall|i: int| 0 <= i < old(queue)@.len() && i != pid ==> #[trigger] final(queue)@[i] == old(queue)@[i]
        },
{
    let stack = match stack {
        Ok(a) => a,
        Err(_) => return Err(()),
    };
    let stack_start = stack;
    let stack = stack + stack_size;
    let stack = stack - FRAME_BYTES;
    frame.esp = stack as u32;
    frame.eip = f - 1;
    frame.cr2 = 0x10;
    frame.csm = 0x8;
    frame.eflags = 0x200;
    let pid = *pid_next;
    let pcb = ProcessControlBlock::new(pid, stack as u32, stack_start as u32, stack_size as u32);
    queue.set(pid as usize, Some(pcb));
    *pid_next = pid + 1;
    Ok(stack)
}

/// Forks the running process `running` inside its own stack: the caller's
/// stack pointer before the fork is `return_eip + 4`, the word at
/// `return_eip` (`eip_to_return`) is where both resume, and the copy of the
/// stack lives at `stack_new_start` (the caller copies the bytes). The
/// child's frame, in `frame` (the bytes there), resumes with 0 in `eax`;
/// its control block takes the next pid. Returns that pid and the frame's
/// address.
pub fn sys_fork_internal(
    queue: &mut Vec<Option<ProcessControlBlock>>,
    pid_next: &mut u16,
    running: u16,
    return_eip: u32,
    eip_to_return: u32,
    stack_new_start: usize,
    frame: &mut InterruptRegisters,
) -> (r: (usize, usize))
    requires
        old(queue)@.len() <= QUEUE_SIZE,
        (running as int) < old(queue)@.len(),
        old(queue)@[running as int] is Some,
        (*old(pid_next) as int) < old(queue)@.len(),
        return_eip + 4 <= u32::MAX,
        old(queue)@[running as int]->0.stack_start <= return_eip + 4,
        FRAME_BYTES <= stack_new_start + (return_eip + 4 - old(queue)@[running as int]->0.stack_start) <= usize::MAX,
        FRAME_BYTES <= ((stack_new_start + (return_eip + 4 - old(queue)@[running as int]->0.stack_start)) as u32),
    ensures
        ({
            let cur = old(queue)@[running as int]->0;
            let new_esp = stack_new_start + (return_eip + 4 - cur.stack_start);
            let pid = *old(pid_next);
            &&& r == (pid as usize, (new_esp - FRAME_BYTES) as usize)
            &&& *final(frame) == InterruptRegisters {
                eax: 0,
                ..start_frame(*old(frame), new_esp as u32, eip_to_return)
            }
            &&& *final(pid_next) == pid + 1
            &&& final(queue)@.len() == old(queue)@.len()
            &&& final(queue)@[pid as int] matches Some(p) && fresh_pcb(
                p,
                pid,
                ((new_esp as u32) - FRAME_BYTES) as u32,
                stack_new_start as u32,
                cur.stack_size,
            )
            &&& forall|i: int| 0 <= i < old(queue)@.len() && i != pid ==> #[trigger] final(queue)@[i] == old(queue)@[i]
        }),
{
    let esp_before_fork = return_eip + 4;
    let (cur_start, cur_size) = match &queue[running as usize] {
        Some(p) => (p.stack_start, p.stack_size),
        None => (0, 0),
    };
    let pid = *pid_next;
    *pid_next = pid + 1;
    let diff = esp_before_fork - cur_start;
    let new_esp = stack_new_start + diff as usize;
    let pcb = ProcessControlBlock::new(pid, new_esp as u32 - FRAME_BYTES as u32, stack_new_start as u32, cur_size);
    let ir = new_esp - FRAME_BYTES;
    frame.eax = 0;
    frame.esp = new_esp as u32;
    frame.eip = eip_to_return;
    frame.cr2 = 0x10;
    frame.csm = 0x8;
    frame.eflags = 0x200;
    queue.set(pid as usize, Some(pcb));
    (pid as usize, ir)
}

} // verus!
