//! The timer tick: the interrupted process's registers are saved and the
//! run queue is walked round-robin until a process can be resumed. Loading
//! the chosen process's address space into the processor is left to the
//! caller.
use vstd::prelude::*;
use crate::arch::x86::idt::InterruptRegisters;
use crate::arch::x86::syscall::with_eax;
use crate::arch::x86::vmm::process::{Scheduler, Process, ProcessState, Pid, Parent};
use crate::arch::x86::vmm::page::PageDirectory;
use crate::binaries::stack_test;
use crate::signals::{Action, Signal};

verus! {

/// Starts scheduling: the stack test program (its code at `code`) is
/// spawned as a super-user child of the root, in an address space with the
/// kernel's directory entries; returns its pid.
pub fn init(scheduler: &mut Scheduler, code: usize, kernel_directory: &PageDirectory) -> (r: Pid)
    requires
        old(scheduler).wf(),
        old(scheduler).table.slots().len() < usize::MAX,
        kernel_directory.0@.len() == 1024,
    ensures
        final(scheduler).wf(),
        r == old(scheduler).table.next_pid(),
        final(scheduler).table.is_live(r),
        final(scheduler).run_queue@ == old(scheduler).run_queue@.push(r),
        ({
            let p = final(scheduler).table.slots()[r as int].unwrap();
            &&& p.pid == r
            &&& p.parent == Parent::Root
            &&& p.super_user
            &&& p.state == ProcessState::Ready
            &&& p.saved_registers == InterruptRegisters::new_spec(0x1000, 0x4000)
            &&& p.addressspace.wf()
            &&& p.addressspace.page_directory.0@ == kernel_directory.0@
        }),
{
    let b = stack_test(code);
    let p = Process::new(&b, Parent::Root, true, kernel_directory);
    scheduler.spawn(p)
}

/// What the timer does after one pick.
#[derive(Clone, Copy, Debug, PartialEq, Eq, Structural)]
pub enum TimerAction {
    /// Resume this process with the registers now in `regs`, after loading
    /// its address space.
    Resume(Pid),
    /// The picked process received a signal that ends it: exit it.
    Terminate,
    /// The picked process cannot run now: pick again.
    Retry,
    /// No process can be picked.
    Idle,
}

/// `q` is `p` with the given state, registers, stopped children, queued
/// signals and handler registers, and every other field unchanged.
pub open spec fn process_is(
    q: Process,
    p: Process,
    state: ProcessState,
    saved: InterruptRegisters,
    stopped: Seq<Pid>,
    signals: Seq<Signal>,
    handler_saved: Option<InterruptRegisters>,
) -> bool {
    &&& q.pid == p.pid
    &&& q.state == state
    &&& q.addressspace == p.addressspace
    &&& q.saved_registers == saved
    &&& q.vmas@ == p.vmas@
    &&& q.parent == p.parent
    &&& q.children@ == p.children@
    &&& q.children_stopped@ == stopped
    &&& q.owner_id == p.owner_id
    &&& q.socket_fds@ == p.socket_fds@
    &&& q.super_user == p.super_user
    &&& q.signal_handlers == p.signal_handlers
    &&& q.signals_queued@ == signals
    &&& q.signal_handler_saved_registers == handler_saved
}

/// What picking process `p` (under pid `pid`) does: the action, the
/// process afterwards (as `process_is` arguments: state, registers, stopped
/// children, queued signals, handler registers) and the registers to resume
/// with.
///
/// A waiting process resumes with the pid of its last stopped child in
/// `eax`, or is skipped if none stopped; a blocked one is skipped. Otherwise
/// its last queued signal (if any) is taken and acted on: terminate ends it,
/// continue and stop set its state and skip it, a handler is entered unless
/// one already runs (then the signal is queued again).
pub open spec fn pick_outcome(p: Process, pid: Pid, regs: InterruptRegisters) -> (
    TimerAction,
    ProcessState,
    InterruptRegisters,
    Seq<Pid>,
    Seq<Signal>,
    Option<InterruptRegisters>,
    InterruptRegisters,
) {
    let stopped = p.children_stopped@;
    let sigs = p.signals_queued@;
    let saved = p.saved_registers;
    let hs = p.signal_handler_saved_registers;
    if p.state == ProcessState::Waiting {
        if stopped.len() > 0 {
            (
                TimerAction::Resume(pid),
                ProcessState::Running,
                saved,
                stopped.drop_last(),
                sigs,
                hs,
                with_eax(saved, stopped.last() as u32),
            )
        } else {
            (TimerAction::Retry, p.state, saved, stopped, sigs, hs, regs)
        }
    } else if p.state == ProcessState::Blocked {
        (TimerAction::Retry, p.state, saved, stopped, sigs, hs, regs)
    } else if sigs.len() == 0 {
        (TimerAction::Resume(pid), p.state, saved, stopped, sigs, hs, saved)
    } else {
        let rest = sigs.drop_last();
        match p.signal_handlers.action(sigs.last()) {
            Action::Terminate => (TimerAction::Terminate, p.state, saved, stopped, rest, hs, regs),
            Action::Ignore => (TimerAction::Resume(pid), p.state, saved, stopped, rest, hs, saved),
            Action::Continue => (TimerAction::Retry, ProcessState::Running, saved, stopped, rest, hs, regs),
            Action::Stop => (TimerAction::Retry, ProcessState::Blocked, saved, stopped, rest, hs, regs),
            Action::Handler(vaddr) => if hs is Some {
                (TimerAction::Resume(pid), p.state, saved, stopped, sigs, hs, saved)
            } else {
                let entered = InterruptRegisters { eip: vaddr as u32, ..saved };
                (TimerAction::Resume(pid), p.state, entered, stopped, rest, Some(saved), entered)
            },
        }
    }
}

/// What picking a process does with its signals: a waiting process with no
/// stopped child and a blocked process are skipped untouched; otherwise the
/// last queued signal is taken and its installed action decides: only
/// `Terminate` ends the process, `Continue` marks it running and picks
/// again, `Stop` blocks it and picks again, `Ignore` resumes it as it was.
pub proof fn law_signal_actions(p: Process, pid: Pid, regs: InterruptRegisters)
    ensures
        pick_outcome(p, pid, regs).0 == TimerAction::Terminate ==> {
            &&& p.state != ProcessState::Waiting
            &&& p.state != ProcessState::Blocked
            &&& p.signals_queued@.len() > 0
            &&& p.signal_handlers.action(p.signals_queued@.last()) == Action::Terminate
        },
        p.state == ProcessState::Waiting ==> {
            let o = pick_outcome(p, pid, regs);
            &&& p.children_stopped@.len() == 0 ==> o.0 == TimerAction::Retry && o.1 == p.state && o.4 == p.signals_queued@
            &&& p.children_stopped@.len() > 0 ==> o.0 == TimerAction::Resume(pid) && o.1 == ProcessState::Running
                && o.3 == p.children_stopped@.drop_last() && o.6.eax == p.children_stopped@.last() as u32
                && o.4 == p.signals_queued@
        },
        p.state == ProcessState::Blocked ==> {
            let o = pick_outcome(p, pid, regs);
            &&& o.0 == TimerAction::Retry
            &&& o.1 == p.state
            &&& o.4 == p.signals_queued@
        },
        p.state != ProcessState::Waiting && p.state != ProcessState::Blocked && p.signals_queued@.len() > 0 ==> {
            let a = p.signal_handlers.action(p.signals_queued@.last());
            let o = pick_outcome(p, pid, regs);
            &&& a == Action::Continue ==> o.0 == TimerAction::Retry && o.1 == ProcessState::Running
                && o.4 == p.signals_queued@.drop_last()
            &&& a == Action::Stop ==> o.0 == TimerAction::Retry && o.1 == ProcessState::Blocked
                && o.4 == p.signals_queued@.drop_last()
            &&& a == Action::Ignore ==> o.0 == TimerAction::Resume(pid) && o.1 == p.state
                && o.4 == p.signals_queued@.drop_last() && o.6 == p.saved_registers
            &&& a == Action::Terminate ==> o.0 == TimerAction::Terminate
            &&& a is Handler ==> o.0 == TimerAction::Resume(pid)
        },
{
}

/// First step of a timer tick: the registers of the interrupted process, if
/// one is current, are saved in it.
pub fn timer_save(scheduler: &mut Scheduler, regs: &InterruptRegisters)
    requires
        old(scheduler).wf(),
    ensures
        final(scheduler).wf(),
        final(scheduler).current == old(scheduler).current,
        final(scheduler).run_queue@ == old(scheduler).run_queue@,
        final(scheduler).table.free_pids() == old(scheduler).table.free_pids(),
        old(scheduler).has_current() ==> {
            let p = old(scheduler).current_process();
            &&& final(scheduler).table.slots() == old(scheduler).table.slots().update(
                old(scheduler).current.unwrap() as int,
                final(scheduler).table.slots()[old(scheduler).current.unwrap() as int],
            )
            &&& final(scheduler).has_current()
            &&& process_is(final(scheduler).current_process(), p, p.state, *regs, p.children_stopped@, p.signals_queued@, p.signal_handler_saved_registers)
        },
        !old(scheduler).has_current() ==> *final(scheduler) == *old(scheduler),
{
    match scheduler.current() {
        Some(p) => {
            p.saved_registers = *regs;
        },
        None => {},
    }
}

/// One pick of a timer tick: the front of the run queue moves to its back
/// and becomes current, and is acted on as `pick_outcome` says. `Idle` when
/// the queue is empty or names no live process.
pub fn timer_pick(scheduler: &mut Scheduler, regs: &mut InterruptRegisters) -> (r: TimerAction)
    requires
        old(scheduler).wf(),
    ensures
        final(scheduler).wf(),
        old(scheduler).run_queue@.len() == 0 ==> r == TimerAction::Idle && final(scheduler).table == old(scheduler).table
            && final(scheduler).run_queue@ == old(scheduler).run_queue@ && final(scheduler).current == old(scheduler).current
            && *final(regs) == *old(regs),
        old(scheduler).run_queue@.len() > 0 ==> {
            let pid = old(scheduler).run_queue@[0];
            &&& final(scheduler).run_queue@ == old(scheduler).run_queue@.drop_first().push(pid)
            &&& final(scheduler).current == Some(pid)
            &&& final(scheduler).table.free_pids() == old(scheduler).table.free_pids()
            &&& !old(scheduler).table.is_live(pid) ==> r == TimerAction::Idle && final(scheduler).table == old(scheduler).table
                && *final(regs) == *old(regs)
            &&& old(scheduler).table.is_live(pid) ==> {
                let p = old(scheduler).table.slots()[pid as int].unwrap();
                let o = pick_outcome(p, pid, *old(regs));
                &&& r == o.0
                &&& final(scheduler).table.slots() == old(scheduler).table.slots().update(pid as int, final(scheduler).table.slots()[pid as int])
                &&& final(scheduler).table.is_live(pid)
                &&& process_is(final(scheduler).table.slots()[pid as int].unwrap(), p, o.1, o.2, o.3, o.4, o.5)
                &&& *final(regs) == o.6
            }
        },
{
    let picked = match scheduler.schedule() {
        Some(next) => pick_process(next, regs),
        None => {
            return TimerAction::Idle;
        },
    };
    match picked {
        Pick::Run => TimerAction::Resume(scheduler.current.unwrap()),
        Pick::Exit => TimerAction::Terminate,
        Pick::Skip => TimerAction::Retry,
    }
}

/// What became of a picked process.
enum Pick {
    Run,
    Exit,
    Skip,
}

/// Whether `k` is the kind of action `a`.
spec fn pick_matches(a: TimerAction, k: Pick) -> bool {
    match k {
        Pick::Run => a is Resume,
        Pick::Exit => a is Terminate,
        Pick::Skip => a is Retry,
    }
}

/// Acts on the picked process as `pick_outcome` says.
fn pick_process(next: &mut Process, regs: &mut InterruptRegisters) -> (r: Pick)
    ensures
        ({
            let o = pick_outcome(*old(next), 0, *old(regs));
            &&& pick_matches(o.0, r)
            &&& process_is(*final(next), *old(next), o.1, o.2, o.3, o.4, o.5)
            &&& *final(regs) == o.6
        }),
{
    if next.state == ProcessState::Waiting {
        match next.children_stopped.pop() {
            Some(child_stopped_id) => {
                next.state = ProcessState::Running;
                *regs = next.saved_registers;
                regs.eax = child_stopped_id as u32;
                return Pick::Run;
            },
            None => {
                return Pick::Skip;
            },
        }
    }
    if next.state == ProcessState::Blocked {
        return Pick::Skip;
    }
    match next.signals_queued.pop() {
        Some(signal) => {
            match next.signal_handlers.get(signal) {
                Action::Terminate => {
                    return Pick::Exit;
                },
                Action::Ignore => {},
                Action::Continue => {
                    next.state = ProcessState::Running;
                    return Pick::Skip;
                },
                Action::Stop => {
                    next.state = ProcessState::Blocked;
                    return Pick::Skip;
                },
                Action::Handler(vaddr) => {
                    if next.signal_handler_saved_registers.is_some() {
                        next.signals_queued.push(signal);
                        assert(next.signals_queued@ =~= old(next).signals_queued@);
                        *regs = next.saved_registers;
                        return Pick::Run;
                    }
                    next.enter_signal_handler(vaddr);
                },
            }
        },
        None => {},
    }
    *regs = next.saved_registers;
    Pick::Run
}

} // verus!
