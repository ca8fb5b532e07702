//! The gallery: the process-wide registry of paintings and guest handles.
//!
//! The gallery owns the fixed set of paintings, an arena of guest storage
//! (a guest's backing storage outlives the registry's interest in it, so
//! handles are arena indices that may point at storage already given back),
//! and the roster of handles the registry currently tracks. The central
//! invariant ties the two sides of the occupancy accounting together: each
//! painting's occupancy counter equals the number of guests whose published
//! slot names that painting, and never exceeds the capacity.

use vstd::prelude::*;

use crate::atomic_ref::AtomicRef;
use crate::guest::slot_at;
use crate::guest::Guest;
use crate::guest::GuestSlot;
use crate::painting::Painting;
use crate::tools::random_below;

verus! {

/// Chance per tick, in parts per million, that the admission task lets a
/// new guest in.
pub const ADMIT_PPM: usize = 150_000;

/// How many units of occupancy the arena accounts to painting `p`.
pub open spec fn counts(arena: Seq<GuestSlot>, p: int) -> int
    decreases arena.len(),
{
    if arena.len() == 0 {
        0
    } else {
        counts(arena.drop_last(), p) + slot_at(arena.last(), p)
    }
}

/// A count of slots is never negative.
pub proof fn lemma_counts_nonneg(arena: Seq<GuestSlot>, p: int)
    ensures
        counts(arena, p) >= 0,
    decreases arena.len(),
{
    if arena.len() > 0 {
        lemma_counts_nonneg(arena.drop_last(), p);
    }
}

/// Replacing one slot moves the count by the difference of the two slots'
/// contributions.
pub proof fn lemma_counts_update(arena: Seq<GuestSlot>, i: int, s: GuestSlot, p: int)
    requires
        0 <= i < arena.len(),
    ensures
        counts(arena.update(i, s), p) == counts(arena, p) - slot_at(arena[i], p) + slot_at(s, p),
    decreases arena.len(),
{
    let u = arena.update(i, s);
    if i == arena.len() - 1 {
        assert(u.drop_last() =~= arena.drop_last());
    } else {
        assert(u.drop_last() =~= arena.drop_last().update(i, s));
        lemma_counts_update(arena.drop_last(), i, s, p);
    }
}

/// A painting someone occupies has a strictly positive count.
pub proof fn lemma_counts_at_least(arena: Seq<GuestSlot>, i: int, p: int)
    requires
        0 <= i < arena.len(),
        slot_at(arena[i], p) == 1,
    ensures
        counts(arena, p) >= 1,
    decreases arena.len(),
{
    if i == arena.len() - 1 {
        lemma_counts_nonneg(arena.drop_last(), p);
    } else {
        lemma_counts_at_least(arena.drop_last(), i, p);
    }
}

/// Appending a slot adds exactly that slot's contribution.
pub proof fn lemma_counts_push(arena: Seq<GuestSlot>, s: GuestSlot, p: int)
    ensures
        counts(arena.push(s), p) == counts(arena, p) + slot_at(s, p),
{
    assert(arena.push(s).drop_last() =~= arena);
}

/// Every published painting index points at an existing painting.
pub open spec fn slots_ok(arena: Seq<GuestSlot>, n_paintings: int) -> bool {
    forall|i: int|
        0 <= i < arena.len() ==> match #[trigger] arena[i] {
            GuestSlot::Here(g) => match g.painting.value {
                Some(p) => p < n_paintings,
                None => true,
            },
            GuestSlot::Gone => true,
        }
}

/// The occupancy accounting invariant over paintings and guest storage:
/// counters stay within capacity and agree exactly with the guests'
/// published slots.
pub open spec fn wf_core(paintings: Seq<Painting>, arena: Seq<GuestSlot>) -> bool {
    &&& forall|p: int| 0 <= p < paintings.len() ==> (#[trigger] paintings[p]).wf()
    &&& forall|p: int|
        0 <= p < paintings.len() ==> (#[trigger] paintings[p]).watching == counts(arena, p)
    &&& slots_ok(arena, paintings.len() as int)
}

/// Every roster handle points into the arena.
pub open spec fn roster_ok(roster: Seq<usize>, n_slots: int) -> bool {
    forall|i: int| 0 <= i < roster.len() ==> (#[trigger] roster[i]) < n_slots
}

/// Guest ids are unique and stay below the id counter.
pub open spec fn ids_ok(arena: Seq<GuestSlot>, next_id: usize) -> bool {
    &&& forall|i: int|
        0 <= i < arena.len() && arena[i] is Here ==> (#[trigger] arena[i])->Here_0.guest_id
            < next_id
    &&& forall|i: int, j: int|
        0 <= i < arena.len() && 0 <= j < arena.len() && i != j && arena[i] is Here
            && arena[j] is Here ==> (#[trigger] arena[i])->Here_0.guest_id
            != (#[trigger] arena[j])->Here_0.guest_id
}

/// The full effect of one admission step, given the tick's draw: with the
/// admission chance a fresh guest — running, occupying nothing, carrying
/// the next id — comes into being and its handle goes onto the roster;
/// otherwise nothing changes.
pub open spec fn admission_rel(pre: Gallery, post: Gallery, sample: usize) -> bool {
    &&& post.paintings@ == pre.paintings@
    &&& post.thread_started == pre.thread_started
    &&& if sample >= ADMIT_PPM {
        &&& post.arena@ == pre.arena@
        &&& post.guests@ == pre.guests@
        &&& post.next_guest_id == pre.next_guest_id
    } else {
        &&& post.arena@ == pre.arena@.push(
            GuestSlot::Here(
                Guest {
                    guest_id: pre.next_guest_id,
                    running: true,
                    painting: (AtomicRef { value: None }),
                },
            ),
        )
        &&& post.guests@ == pre.guests@.push(pre.arena@.len() as usize)
        &&& post.next_guest_id == pre.next_guest_id + 1
    }
}

/// The capacity invariant: at every instant, every painting's occupancy
/// lies between zero and its capacity.
pub proof fn lemma_capacity_invariant(g: Gallery, p: int)
    requires
        g.wf(),
        0 <= p < g.paintings@.len(),
    ensures
        0 <= g.paintings@[p].watching <= g.paintings@[p].capacity,
{
}

pub struct Gallery {
    /// The fixed set of paintings; created once, never destroyed.
    pub paintings: Vec<Painting>,
    /// Backing storage of every guest ever started; a handle is an index
    /// here, and a `Gone` slot is a handle that no longer resolves.
    pub arena: Vec<GuestSlot>,
    /// The registry's roster of guest handles; membership tracks "should
    /// still be counted", not "is still allocated".
    pub guests: Vec<usize>,
    /// Whether the admission task was already started.
    pub thread_started: bool,
    /// The id counter: monotonically increasing, so ids are unique but not
    /// contiguous.
    pub next_guest_id: usize,
}

/// The once-only guard transition: the flag is set either way, and the
/// caller learns whether it was this call that set it.
pub open spec fn adder_t(started: bool) -> (bool, bool) {
    (true, !started)
}

/// The admission task is started exactly once however calls to the guard
/// interleave: only a call that finds the guard clear reports having
/// started the task, the guard is set after any call, and every call after
/// any other call reports false.
pub proof fn lemma_adder_started_once(started: bool)
    ensures
        adder_t(false).1,
        adder_t(started).0,
        adder_t(started).1 ==> !started,
        !adder_t(adder_t(started).0).1,
{
}

impl Gallery {
    pub open spec fn wf(self) -> bool {
        &&& wf_core(self.paintings@, self.arena@)
        &&& roster_ok(self.guests@, self.arena@.len() as int)
        &&& ids_ok(self.arena@, self.next_guest_id)
    }

    /// The gallery as first built: five empty paintings, nobody inside.
    pub fn new() -> (g: Self)
        ensures
            g.wf(),
            g.paintings@.len() == 5,
            forall|p: int| 0 <= p < 5 ==> (#[trigger] g.paintings@[p]).watching == 0,
            forall|p: int|
                0 <= p < 5 ==> (#[trigger] g.paintings@[p]).capacity
                    == crate::painting::MAX_GUESTS_PER_PAINTING,
            g.paintings@[0].name == "Mona Lisa",
            g.paintings@[1].name == "Girl with a Pearl",
            g.paintings@[2].name == "The Starry Night",
            g.paintings@[3].name == "The Arnolfini Portrait",
            g.paintings@[4].name == "Sandro Botticelli",
            g.arena@.len() == 0,
            g.guests@.len() == 0,
            !g.thread_started,
            g.next_guest_id == 1,
    {
        let paintings = vec![
            Painting::new("Mona Lisa"),
            Painting::new("Girl with a Pearl"),
            Painting::new("The Starry Night"),
            Painting::new("The Arnolfini Portrait"),
            Painting::new("Sandro Botticelli"),
        ];
        let g = Gallery {
            paintings,
            arena: Vec::new(),
            guests: Vec::new(),
            thread_started: false,
            next_guest_id: 1,
        };
        g
    }

    /// A gallery over a chosen set of paintings, still empty of guests.
    pub fn with_paintings(paintings: Vec<Painting>) -> (g: Self)
        requires
            forall|p: int|
                0 <= p < paintings@.len() ==> (#[trigger] paintings@[p]).wf()
                    && paintings@[p].watching == 0,
        ensures
            g.wf(),
            g.paintings@ == paintings@,
            g.arena@.len() == 0,
            g.guests@.len() == 0,
            !g.thread_started,
            g.next_guest_id == 1,
    {
        Gallery {
            paintings,
            arena: Vec::new(),
            guests: Vec::new(),
            thread_started: false,
            next_guest_id: 1,
        }
    }

    /// The once-only admission-task guard: an atomic read-modify-write that
    /// sets the flag and returns whether this call was the one that set it,
    /// so the task behind it is started exactly once however many callers
    /// race here.
    pub fn start_adder(&mut self) -> (started_now: bool)
        ensures
            (final(self).thread_started, started_now) == adder_t(old(self).thread_started),
            final(self).paintings@ == old(self).paintings@,
            final(self).arena@ == old(self).arena@,
            final(self).guests@ == old(self).guests@,
            final(self).next_guest_id == old(self).next_guest_id,
            old(self).wf() ==> final(self).wf(),
    {
        let was = self.thread_started;
        self.thread_started = true;
        !was
    }

    /// One step of the admission task: with the admission chance, start a
    /// new guest and put its handle on the roster.
    pub fn apply_admission(&mut self, sample: usize)
        requires
            old(self).wf(),
            old(self).next_guest_id < usize::MAX,
        ensures
            final(self).wf(),
            admission_rel(*old(self), *final(self), sample),
    {
        if sample < ADMIT_PPM {
            let h = Guest::start(self);
            self.guests.push(h);
        }
    }

    /// One tick of the admission task, drawing its own sample.
    pub fn admission_tick(&mut self)
        requires
            old(self).wf(),
            old(self).next_guest_id < usize::MAX,
        ensures
            final(self).wf(),
            exists|sample: usize|
                sample < crate::guest::PPM_SCALE && #[trigger] admission_rel(
                    *old(self),
                    *final(self),
                    sample,
                ),
    {
        let sample = random_below(crate::guest::PPM_SCALE);
        self.apply_admission(sample);
        proof {
            assert(admission_rel(*old(self), *self, sample));
        }
    }
}

} // verus!
