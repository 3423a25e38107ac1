//! Signals a process can receive, and what each one does.
use vstd::prelude::*;

verus! {

/// A signal, numbered 0 to 4 in declaration order.
#[derive(Clone, Copy, Debug, PartialEq, Eq, Structural)]
pub enum Signal {
    /// Terminates; its action can be overwritten.
    SigInt,
    /// Terminates; its action can't be overwritten.
    SigKill,
    /// User defined; does nothing by default.
    SigUsr,
    SigCont,
    SigStop,
}

/// What receiving a signal does.
#[derive(Clone, Copy, Debug, PartialEq, Eq, Structural)]
pub enum Action {
    Terminate,
    Ignore,
    Continue,
    Stop,
    /// Jump to the handler at this user address.
    Handler(usize),
}

/// Number of signals.
pub const SIGNAL_AMOUNT: usize = 5;

/// The number of a signal.
pub open spec fn signal_number(sig: Signal) -> int {
    match sig {
        Signal::SigInt => 0,
        Signal::SigKill => 1,
        Signal::SigUsr => 2,
        Signal::SigCont => 3,
        Signal::SigStop => 4,
    }
}

/// Whether a process may install its own action for `sig`.
pub open spec fn overridable(sig: Signal) -> bool {
    sig == Signal::SigInt || sig == Signal::SigUsr
}

/// The action every signal starts with.
pub open spec fn default_action(sig: Signal) -> Action {
    match sig {
        Signal::SigInt => Action::Terminate,
        Signal::SigKill => Action::Terminate,
        Signal::SigUsr => Action::Ignore,
        Signal::SigCont => Action::Continue,
        Signal::SigStop => Action::Stop,
    }
}

/// The default actions: the interrupt and kill signals (numbers 0 and 1)
/// terminate, the user signal (2) does nothing, the continue signal (3)
/// continues and the stop signal (4) stops; no signal starts with a handler.
pub proof fn law_default_actions(sig: Signal)
    ensures
        default_action(sig) == Action::Terminate <==> signal_number(sig) <= 1,
        default_action(sig) == Action::Ignore <==> sig == Signal::SigUsr,
        default_action(sig) == Action::Continue <==> sig == Signal::SigCont,
        default_action(sig) == Action::Stop <==> sig == Signal::SigStop,
        !(default_action(sig) is Handler),
        sig == Signal::SigInt || sig == Signal::SigKill ==> default_action(sig) == Action::Terminate,
{
}

impl Signal {
    /// The signal's number.
    pub fn number(self) -> (r: usize)
        ensures
            r == signal_number(self),
    {
        match self {
            Signal::SigInt => 0,
            Signal::SigKill => 1,
            Signal::SigUsr => 2,
            Signal::SigCont => 3,
            Signal::SigStop => 4,
        }
    }

    /// The signal numbered `value`, or `Err` for numbers above 4.
    pub fn try_from(value: u8) -> (r: Result<Signal, ()>)
        ensures
            value < 5 ==> r.is_ok() && signal_number(r.unwrap()) == value,
            value >= 5 ==> r.is_err(),
    {
        match value {
            0 => Ok(Signal::SigInt),
            1 => Ok(Signal::SigKill),
            2 => Ok(Signal::SigUsr),
            3 => Ok(Signal::SigCont),
            4 => Ok(Signal::SigStop),
            _ => Err(()),
        }
    }
}

/// The action of every signal, indexed by signal number.
#[derive(Clone, Copy, Debug)]
pub struct SignalsHandlers(pub [Action; 5]);

impl SignalsHandlers {
    /// The action currently installed for `sig`.
    pub open spec fn action(&self, sig: Signal) -> Action {
        self.0@[signal_number(sig)]
    }

    /// Every signal with its default action.
    pub fn new() -> (r: Self)
        ensures
            forall|sig: Signal| #[trigger] r.action(sig) == default_action(sig),
    {
        let r = Self([
            Action::Terminate,
            Action::Terminate,
            Action::Ignore,
            Action::Continue,
            Action::Stop,
        ]);
        assert forall|sig: Signal| #[trigger] r.action(sig) == default_action(sig) by {
            match sig {
                Signal::SigInt => {},
                Signal::SigKill => {},
                Signal::SigUsr => {},
                Signal::SigCont => {},
                Signal::SigStop => {},
            }
        }
        r
    }

    /// Installs `action` for `sig`; only `SigInt` and `SigUsr` accept one.
    pub fn set(&mut self, sig: Signal, action: Action) -> (r: Result<(), ()>)
        ensures
            r.is_ok() == overridable(sig),
            r.is_ok() ==> final(self).action(sig) == action,
            r.is_ok() ==> final(self).0@ == old(self).0@.update(signal_number(sig) as int, action),
            forall|other: Signal| other != sig ==> #[trigger] final(self).action(other) == old(self).action(other),
            r.is_err() ==> *final(self) == *old(self),
    {
        match sig {
            Signal::SigInt | Signal::SigUsr => {
                let idx = sig.number();
                self.0[idx] = action;
                assert forall|other: Signal| other != sig implies #[trigger] self.action(other) == old(self).action(other) by {
                    assert(signal_number(other) != signal_number(sig));
                }
                Ok(())
            },
            _ => Err(()),
        }
    }

    /// The action installed for `sig`.
    pub fn get(&self, sig: Signal) -> (r: Action)
        ensures
            r == self.action(sig),
    {
        self.0[sig.number()]
    }
}

} // verus!
