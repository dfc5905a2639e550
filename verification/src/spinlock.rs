//! The spinlock: a flag that is tested and set in one step.

use vstd::prelude::*;

verus! {

/// The flag of a spinlock. Whoever finds it clear and sets it holds the
/// lock until they clear it.
pub struct RawSpinlock {
    locked: bool,
}

impl RawSpinlock {
    /// Whether the lock is held.
    pub closed spec fn is_locked(&self) -> bool {
        self.locked
    }

    /// A lock that nobody holds.
    pub fn new() -> (r: RawSpinlock)
        ensures
            !r.is_locked(),
    {
        RawSpinlock { locked: false }
    }

    /// Tests and sets the flag. The lock is taken if nobody held it, and
    /// held afterwards in any case.
    pub fn try_lock(&mut self) -> (acquired: bool)
        ensures
            acquired == !old(self).is_locked(),
            final(self).is_locked(),
    {
        let acquired = !self.locked;
        self.locked = true;
        acquired
    }

    /// Takes the lock. Whoever holds a lock must not ask for it again:
    /// asking would never end.
    pub fn lock(&mut self)
        requires
            !old(self).is_locked(),
        ensures
            final(self).is_locked(),
    {
        let acquired = self.try_lock();
        assert(acquired);
    }

    /// Gives the lock back.
    pub fn unlock(&mut self)
        requires
            old(self).is_locked(),
        ensures
            !final(self).is_locked(),
    {
        self.locked = false;
    }
}

} // verus!
