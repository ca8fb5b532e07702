//! A model of a gallery in which a bounded population of guests moves
//! between capacity-limited paintings while a watchman enforces a
//! population cap by cooperatively cancelling guests.
//!
//! The library verifies the coordination protocol itself: occupancy
//! accounting through conditional increments, the move protocol that keeps
//! every guest at no more than one painting, cooperative cancellation
//! through a polled stop flag, and the watchman's pruning and eviction.
//! Interleaved executions of the concurrent system are modelled as
//! sequences of the atomic steps defined here; every step preserves the
//! gallery's invariants.

pub mod atomic_ref;
pub mod gallery;
pub mod guest;
pub mod painting;
pub mod tools;
pub mod watchman;
