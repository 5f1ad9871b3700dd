//! The task-manager slot, from which the system asks where a minimize animates to.

use vstd::prelude::*;

verus! {

/// Who held the slot before it was claimed, or 0.
pub struct Taskman {
    pub previous: u64,
}

impl Taskman {
    pub fn new() -> (r: Taskman)
        ensures
            r.previous == 0,
    {
        Taskman { previous: 0 }
    }

    /// Claim the slot, remembering the current holder.
    pub fn claim(&mut self, holder: u64)
        ensures
            final(self).previous == holder,
    {
        self.previous = holder;
    }

    /// Give the slot back: to whom, if they are still alive. A second release gives
    /// nothing back.
    pub fn release(&mut self, alive: bool) -> (r: Option<u64>)
        ensures
            final(self).previous == 0,
            r == if old(self).previous != 0 && alive {
                Some(old(self).previous)
            } else {
                None
            },
    {
        let previous = self.previous;
        self.previous = 0;
        if previous != 0 && alive {
            Some(previous)
        } else {
            None
        }
    }
}

} // verus!
