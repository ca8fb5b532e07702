//! A capacity-limited painting.
//!
//! A painting counts the guests watching it. The count only ever changes
//! through `try_watch` (a conditional increment that fails, with no effect,
//! when the painting is full) and `stop_watching` (a decrement), so it can
//! never exceed the capacity.

use vstd::prelude::*;

verus! {

/// How many guests may watch one painting at once, by default.
pub const MAX_GUESTS_PER_PAINTING: usize = 10;

#[derive(Clone, Copy, Debug)]
pub struct Painting {
    pub watching: usize,
    pub capacity: usize,
    pub name: &'static str,
}

impl Painting {
    /// The capacity bound: the occupancy never exceeds the capacity.
    pub open spec fn wf(self) -> bool {
        self.watching <= self.capacity
    }

    pub fn new(name: &'static str) -> (p: Self)
        ensures
            p.watching == 0,
            p.capacity == MAX_GUESTS_PER_PAINTING,
            p.name == name,
            p.wf(),
    {
        Painting { watching: 0, capacity: MAX_GUESTS_PER_PAINTING, name }
    }

    pub fn with_capacity(name: &'static str, capacity: usize) -> (p: Self)
        ensures
            p.watching == 0,
            p.capacity == capacity,
            p.name == name,
            p.wf(),
    {
        Painting { watching: 0, capacity, name }
    }

    /// One conditional increment: succeed only while strictly below the
    /// capacity, otherwise change nothing.
    pub fn try_watch(&mut self) -> (r: bool)
        requires
            old(self).wf(),
        ensures
            final(self).wf(),
            final(self).capacity == old(self).capacity,
            final(self).name == old(self).name,
            r == (old(self).watching < old(self).capacity),
            r ==> final(self).watching == old(self).watching + 1,
            !r ==> final(self).watching == old(self).watching,
    {
        if self.watching < self.capacity {
            self.watching = self.watching + 1;
            true
        } else {
            false
        }
    }

    /// One guest walks away from the painting.
    pub fn stop_watching(&mut self)
        requires
            old(self).wf(),
            old(self).watching >= 1,
        ensures
            final(self).watching == old(self).watching - 1,
            final(self).capacity == old(self).capacity,
            final(self).name == old(self).name,
            final(self).wf(),
    {
        self.watching = self.watching - 1;
    }
}

} // verus!
