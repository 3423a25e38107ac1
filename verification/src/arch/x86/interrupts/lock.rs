//! Interrupt locks. A lock may not be taken while it is held: that is a bug
//! of the caller. The flags record which locks are held; disabling
//! interrupts or masking the line is done by the caller.
use vstd::prelude::*;

verus! {

/// Number of interrupt lines.
pub const IRQ_LINES: usize = 16;

/// Which locks are held.
pub struct LockFlags {
    pub global: bool,
    pub irq: Vec<bool>,
}

impl LockFlags {
    /// No lock taken yet.
    pub fn new() -> (r: Self)
        ensures
            !r.global,
            r.irq@ == Seq::new(16, |i: int| false),
    {
        let mut irq: Vec<bool> = Vec::new();
        while irq.len() < IRQ_LINES
            invariant
                irq@.len() <= 16,
                forall|i: int| 0 <= i < irq@.len() ==> !#[trigger] irq@[i],
            decreases 16 - irq@.len(),
        {
            irq.push(false);
        }
        assert(irq@ =~= Seq::new(16, |i: int| false));
        Self { global: false, irq }
    }
}

/// The lock on all interrupts (taken: interrupts disabled).
pub struct GlobalInterruptLock;

impl GlobalInterruptLock {
    /// Takes the global lock; it must not be held.
    pub fn lock(flags: &mut LockFlags) -> (r: Self)
        requires
            !old(flags).global,
        ensures
            final(flags).global,
            final(flags).irq@ == old(flags).irq@,
    {
        flags.global = true;
        GlobalInterruptLock
    }

    /// Gives the lock up (interrupts are enabled again by the caller): the
    /// global lock is no longer held.
    pub fn unlock(self, flags: &mut LockFlags)
        ensures
            !final(flags).global,
            final(flags).irq@ == old(flags).irq@,
    {
        flags.global = false;
    }
}

/// The lock on one interrupt line (taken: the line masked).
#[derive(Debug)]
pub struct IRQLock {
    pub irq: u8,
}

impl IRQLock {
    /// Takes the lock on line `irq`; the line must exist and its lock must
    /// not be held.
    pub fn lock(flags: &mut LockFlags, irq: u8) -> (r: Self)
        requires
            old(flags).irq@.len() == 16,
            irq < 16,
            !old(flags).irq@[irq as int],
        ensures
            r.irq == irq,
            final(flags).global == old(flags).global,
            final(flags).irq@ == old(flags).irq@.update(irq as int, true),
    {
        flags.irq.set(irq as usize, true);
        IRQLock { irq }
    }

    /// Gives the lock up: the line's lock is no longer held. Returns the line
    /// to unmask.
    pub fn unlock(self, flags: &mut LockFlags) -> (r: u8)
        requires
            old(flags).irq@.len() == 16,
            self.irq < 16,
        ensures
            r == self.irq,
            final(flags).global == old(flags).global,
            final(flags).irq@ == old(flags).irq@.update(self.irq as int, false),
    {
        flags.irq.set(self.irq as usize, false);
        self.irq
    }
}

} // verus!
