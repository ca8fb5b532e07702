//! An optional-reference slot.
//!
//! The running system keeps, per guest, a lock-free cell that publishes
//! which painting the guest currently occupies. Here the cell holds the
//! occupied painting's index as a plain optional value; each operation is
//! one atomic step of the model, mirroring the single machine operation of
//! the slot.

use vstd::prelude::*;

verus! {

/// A slot holding an optional value, with load/store/swap steps.
#[derive(Clone, Copy, Debug)]
pub struct AtomicRef<T> {
    pub value: Option<T>,
}

impl<T: Copy> AtomicRef<T> {
    pub fn new(value: Option<T>) -> (s: Self)
        ensures
            s.value == value,
    {
        AtomicRef { value }
    }

    pub fn load(&self) -> (r: Option<T>)
        ensures
            r == self.value,
    {
        self.value
    }

    pub fn store(&mut self, value: Option<T>)
        ensures
            final(self).value == value,
    {
        self.value = value;
    }

    /// Replaces the contents and returns the prior contents.
    pub fn swap(&mut self, value: Option<T>) -> (r: Option<T>)
        ensures
            final(self).value == value,
            r == old(self).value,
    {
        let prev = self.value;
        self.value = value;
        prev
    }
}

} // verus!
