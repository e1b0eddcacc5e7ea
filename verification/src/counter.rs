//! A saturating token counter.

use vstd::prelude::*;

verus! {

/// Counter that accumulates amounts and pins at the 64-bit maximum instead
/// of wrapping.
pub struct AseCounter {
    count: u64,
}

impl AseCounter {
    /// The current count.
    pub closed spec fn value(self) -> u64 {
        self.count
    }

    /// A counter at zero.
    pub fn new() -> (c: AseCounter)
        ensures
            c.value() == 0,
    {
        AseCounter { count: 0 }
    }

    /// Adds an amount, saturating at the 64-bit maximum, and returns the new
    /// count.
    pub fn increment(&mut self, amount: u64) -> (r: u64)
        ensures
            final(self).value() == if old(self).value() + amount <= u64::MAX {
                (old(self).value() + amount) as u64
            } else {
                u64::MAX
            },
            r == final(self).value(),
    {
        self.count = self.count.saturating_add(amount);
        self.count
    }

    /// The current count.
    pub fn get(&self) -> (r: u64)
        ensures
            r == self.value(),
    {
        self.count
    }
}

} // verus!
