//! A frame timer that accumulates elapsed time until a configured length
//! has passed. Time is carried as whole nanoseconds.
use vstd::prelude::*;

verus! {

/// Accumulates elapsed nanoseconds; `done` latches once the accumulated
/// time reaches `length` and stays set until `restart`.
pub struct Timer {
    pub acc: u64,
    pub length: u64,
    pub done: bool,
}

impl Timer {
    pub fn new(length: u64, done: bool) -> (t: Self)
        ensures
            t.acc == 0,
            t.length == length,
            t.done == done,
    {
        Self { acc: 0, length, done }
    }

    /// Adds `duration` nanoseconds of elapsed time; marks the timer done
    /// once the total reaches its length.
    pub fn update(&mut self, duration: u64)
        requires
            old(self).acc + duration <= u64::MAX,
        ensures
            final(self).acc == old(self).acc + duration,
            final(self).length == old(self).length,
            final(self).done == (old(self).done || final(self).acc >= final(self).length),
    {
        self.acc = self.acc + duration;
        if self.acc >= self.length {
            self.done = true;
        }
    }

    /// Clears the accumulated time and the done flag.
    pub fn restart(&mut self)
        ensures
            final(self).acc == 0,
            final(self).length == old(self).length,
            !final(self).done,
    {
        self.acc = 0;
        self.done = false;
    }
}

} // verus!
