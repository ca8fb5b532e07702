//! Guests and their lifecycle protocol.
//!
//! A guest is an independent unit of execution with a unique id, a
//! cooperative stop flag (`running`, false once stopped, terminal) and a
//! slot publishing the painting it currently occupies. Its run loop draws a
//! sample each tick and either moves to a painting, leaves voluntarily, or
//! does nothing; on exit it vacates its painting, so no painting ever
//! counts a stopped guest. The steps of that protocol are methods on
//! [`Gallery`], each an atomic transition of the model; the driving loop,
//! with its sleeps, lives outside the library.

use vstd::prelude::*;

use crate::atomic_ref::AtomicRef;
use crate::gallery::counts;
use crate::gallery::lemma_counts_at_least;
use crate::gallery::lemma_counts_push;
use crate::gallery::lemma_counts_update;
use crate::gallery::wf_core;
use crate::gallery::Gallery;
use crate::painting::Painting;
use crate::tools::random_below;

verus! {

/// Chance per tick, in parts per million, that a guest moves to a painting.
pub const GUEST_MOVE_PPM: usize = 100_000;

/// Chance per tick, in parts per million, that a guest leaves voluntarily.
pub const GUEST_LEAVE_PPM: usize = 900;

/// The whole sample space of one tick's draw: one million parts.
pub const PPM_SCALE: usize = 1_000_000;

#[derive(Clone, Copy, Debug)]
pub struct Guest {
    /// Unique over the whole gallery; ids are never reused.
    pub guest_id: usize,
    /// The cooperative stop flag: false means stopped, terminal.
    pub running: bool,
    /// The painting this guest occupies, as an index into the gallery's
    /// paintings, published only after a successful conditional increment.
    pub painting: AtomicRef<usize>,
}

/// A weak view of a guest: the guest's backing storage may already be gone
/// while the registry still holds a handle to it.
#[derive(Clone, Copy, Debug)]
pub enum GuestSlot {
    /// The guest was deallocated; handles to it no longer resolve.
    Gone,
    /// The guest still exists.
    Here(Guest),
}

/// What one tick's random draw tells a guest to do.
#[derive(Clone, Copy, Debug, PartialEq, Eq, Structural)]
pub enum Action {
    /// Move to a (separately drawn) painting.
    GoTo,
    /// Set the own stop flag: voluntary departure.
    Leave,
    /// Do nothing this tick.
    Stay,
}

/// The tick decision: a small sample moves, a sliver leaves, the rest stay.
pub open spec fn decide_spec(sample: usize) -> Action {
    if sample < GUEST_MOVE_PPM {
        Action::GoTo
    } else if sample < GUEST_MOVE_PPM + GUEST_LEAVE_PPM {
        Action::Leave
    } else {
        Action::Stay
    }
}

pub fn decide(sample: usize) -> (a: Action)
    ensures
        a == decide_spec(sample),
{
    if sample < GUEST_MOVE_PPM {
        Action::GoTo
    } else if sample < GUEST_MOVE_PPM + GUEST_LEAVE_PPM {
        Action::Leave
    } else {
        Action::Stay
    }
}

/// How many units of painting `p`'s occupancy slot `s` accounts for.
pub open spec fn slot_at(s: GuestSlot, p: int) -> int {
    match s {
        GuestSlot::Here(g) => match g.painting.value {
            Some(q) => if q == p { 1 } else { 0 },
            None => 0,
        },
        GuestSlot::Gone => 0,
    }
}

/// A slot that still resolves to a running guest.
pub open spec fn slot_live(s: GuestSlot) -> bool {
    match s {
        GuestSlot::Here(g) => g.running,
        GuestSlot::Gone => false,
    }
}

/// Delivery of a stop request: flips the target's stop flag. A request to a
/// guest that is already gone is silently absorbed.
pub open spec fn stop_t(arena: Seq<GuestSlot>, h: int) -> Seq<GuestSlot> {
    if 0 <= h < arena.len() && arena[h] is Here {
        arena.update(h, GuestSlot::Here(Guest { running: false, ..arena[h]->Here_0 }))
    } else {
        arena
    }
}

/// The guest side of vacating: the occupied-painting slot is swapped to
/// empty.
pub open spec fn vacate_arena_t(arena: Seq<GuestSlot>, h: int) -> Seq<GuestSlot> {
    arena.update(
        h,
        GuestSlot::Here(Guest { painting: (AtomicRef { value: None }), ..arena[h]->Here_0 }),
    )
}

/// The painting side of vacating: the vacated painting's occupancy drops by
/// one; a guest that occupied nothing changes nothing.
pub open spec fn vacate_paintings_t(
    paintings: Seq<Painting>,
    arena: Seq<GuestSlot>,
    h: int,
) -> Seq<Painting> {
    match arena[h]->Here_0.painting.value {
        Some(p) => paintings.update(
            p as int,
            Painting { watching: (paintings[p as int].watching - 1) as usize, ..paintings[p as int] },
        ),
        None => paintings,
    }
}

/// Whether one attempt of the move protocol's conditional increment on
/// painting `t` succeeds: the guest still runs and the painting has room.
pub open spec fn can_enter(
    paintings: Seq<Painting>,
    arena: Seq<GuestSlot>,
    h: int,
    t: int,
) -> bool {
    arena[h]->Here_0.running && paintings[t].watching < paintings[t].capacity
}

/// The guest side of a successful entry: the slot publishes painting `t`.
pub open spec fn enter_arena_t(
    paintings: Seq<Painting>,
    arena: Seq<GuestSlot>,
    h: int,
    t: int,
) -> Seq<GuestSlot> {
    if can_enter(paintings, arena, h, t) {
        arena.update(
            h,
            GuestSlot::Here(Guest { painting: (AtomicRef { value: Some(t as usize) }), ..arena[h]->Here_0 }),
        )
    } else {
        arena
    }
}

/// The painting side of a successful entry: occupancy grows by one, only
/// ever from strictly below the capacity.
pub open spec fn enter_paintings_t(
    paintings: Seq<Painting>,
    arena: Seq<GuestSlot>,
    h: int,
    t: int,
) -> Seq<Painting> {
    if can_enter(paintings, arena, h, t) {
        paintings.update(
            t,
            Painting { watching: (paintings[t].watching + 1) as usize, ..paintings[t] },
        )
    } else {
        paintings
    }
}

/// The full effect of one run-loop tick, given the tick's draw: a guest
/// that observes its stop flag exits and vacates; a running guest stays,
/// leaves (sets its own flag), or runs the move protocol towards `pick`.
pub open spec fn tick_rel(
    pre: Gallery,
    post: Gallery,
    h: int,
    sample: usize,
    pick: int,
    continuing: bool,
) -> bool {
    &&& post.guests@ == pre.guests@
    &&& post.thread_started == pre.thread_started
    &&& post.next_guest_id == pre.next_guest_id
    &&& continuing == pre.arena@[h]->Here_0.running
    &&& if !pre.arena@[h]->Here_0.running {
        &&& post.arena@ == vacate_arena_t(pre.arena@, h)
        &&& post.paintings@ == vacate_paintings_t(pre.paintings@, pre.arena@, h)
    } else {
        match decide_spec(sample) {
            Action::Stay => post.arena@ == pre.arena@ && post.paintings@ == pre.paintings@,
            Action::Leave => post.arena@ == stop_t(pre.arena@, h) && post.paintings@
                == pre.paintings@,
            Action::GoTo => {
                let a1 = vacate_arena_t(pre.arena@, h);
                let ps1 = vacate_paintings_t(pre.paintings@, pre.arena@, h);
                post.arena@ == enter_arena_t(ps1, a1, h, pick) && post.paintings@
                    == enter_paintings_t(ps1, a1, h, pick)
            },
        }
    }
}

/// Exclusivity: at any instant, at most one painting's occupancy counts any
/// one guest — a guest publishes at most one painting, and the accounting
/// invariant attributes exactly one unit to it there.
pub proof fn lemma_exclusivity(g: Gallery, h: int, p1: int, p2: int)
    requires
        g.wf(),
        0 <= h < g.arena@.len(),
        slot_at(g.arena@[h], p1) == 1,
        slot_at(g.arena@[h], p2) == 1,
    ensures
        p1 == p2,
{
}

/// Cancellation is eventually honored: once a stop request is delivered to
/// a guest, the guest's stop flag is set; at the guest's next poll its run
/// loop exits and vacates, after which the guest occupies nothing, no
/// painting counts it, and the accounting invariant still holds.
pub proof fn lemma_cancellation_honored(paintings: Seq<Painting>, arena: Seq<GuestSlot>, h: int)
    requires
        wf_core(paintings, arena),
        0 <= h < arena.len(),
        arena[h] is Here,
    ensures
        ({
            let delivered = stop_t(arena, h);
            let exited = vacate_arena_t(delivered, h);
            let vacated = vacate_paintings_t(paintings, delivered, h);
            &&& !slot_live(delivered[h])
            &&& !slot_live(exited[h])
            &&& exited[h]->Here_0.painting.value is None
            &&& forall|p: int| #[trigger] slot_at(exited[h], p) == 0
            &&& wf_core(vacated, exited)
        }),
{
    let delivered = stop_t(arena, h);
    let exited = vacate_arena_t(delivered, h);
    let vacated = vacate_paintings_t(paintings, delivered, h);
    assert forall|p: int| 0 <= p < paintings.len() implies (#[trigger] paintings[p]).watching
        == counts(delivered, p) by {
        lemma_counts_update(arena, h, delivered[h], p);
    };
    match delivered[h]->Here_0.painting.value {
        Some(p0) => {
            lemma_counts_at_least(delivered, h, p0 as int);
        },
        None => {},
    }
    assert forall|p: int| 0 <= p < vacated.len() implies (#[trigger] vacated[p]).watching
        == counts(exited, p) by {
        lemma_counts_update(delivered, h, exited[h], p);
    };
}

/// One successful conditional increment preserves the accounting invariant
/// and attributes exactly one unit of the target's occupancy to the guest.
proof fn lemma_enter_preserves(paintings: Seq<Painting>, arena: Seq<GuestSlot>, h: int, t: usize)
    requires
        wf_core(paintings, arena),
        0 <= h < arena.len(),
        arena[h] is Here,
        arena[h]->Here_0.painting.value is None,
        t < paintings.len(),
    ensures
        ({
            let ps2 = enter_paintings_t(paintings, arena, h, t as int);
            let a2 = enter_arena_t(paintings, arena, h, t as int);
            &&& wf_core(ps2, a2)
            &&& can_enter(paintings, arena, h, t as int) ==> {
                &&& slot_live(a2[h])
                &&& a2[h]->Here_0.painting.value == Some(t)
                &&& slot_at(a2[h], t as int) == 1
                &&& ps2[t as int].watching == paintings[t as int].watching + 1
                &&& forall|q: int| 0 <= q < ps2.len() && q != t ==> ps2[q] == paintings[q]
            }
        }),
{
    if can_enter(paintings, arena, h, t as int) {
        let ps2 = enter_paintings_t(paintings, arena, h, t as int);
        let a2 = enter_arena_t(paintings, arena, h, t as int);
        assert forall|q: int| 0 <= q < ps2.len() implies (#[trigger] ps2[q]).watching == counts(
            a2,
            q,
        ) by {
            lemma_counts_update(arena, h, a2[h], q);
        };
    }
}

/// A state in which the move protocol's retry loop makes one more attempt
/// towards painting `t`: however the rest of the system has moved on, the
/// accounting invariant holds, the guest still exists, and it occupies
/// nothing (its old spot was released before the loop began).
pub open spec fn retry_state_ok(
    paintings: Seq<Painting>,
    arena: Seq<GuestSlot>,
    h: int,
    t: usize,
) -> bool {
    &&& wf_core(paintings, arena)
    &&& 0 <= h < arena.len()
    &&& arena[h] is Here
    &&& arena[h]->Here_0.painting.value is None
    &&& t < paintings.len()
}

/// The outcome of a run of the move protocol's retry loop towards painting
/// `t`. Each round the guest attempts one conditional increment (the
/// transition `try_enter`'s contract gives) in whatever state the rest of
/// the system left, `states` holding one such state per round. The loop
/// exits once the stop flag is observed set or once an attempt succeeds;
/// `None` means the run is still retrying after all the given rounds — a
/// failed attempt has no effect whatsoever.
pub open spec fn move_retry_outcome(
    states: Seq<(Seq<Painting>, Seq<GuestSlot>)>,
    h: int,
    t: usize,
) -> Option<(Seq<Painting>, Seq<GuestSlot>, bool)>
    decreases states.len(),
{
    if states.len() == 0 {
        None
    } else {
        let ps = states.first().0;
        let a = states.first().1;
        if !slot_live(a[h]) {
            Some((ps, a, false))
        } else if can_enter(ps, a, h, t as int) {
            Some((enter_paintings_t(ps, a, h, t as int), enter_arena_t(ps, a, h, t as int), true))
        } else {
            move_retry_outcome(states.drop_first(), h, t)
        }
    }
}

/// The move protocol returns only in one of two states, never a third.
/// A run of retry rounds that ends, ends either entered — the guest is
/// running at painting `t` and exactly one unit of `t`'s occupancy is
/// attributed to it — or cancelled — the stop flag was observed set, the
/// guest occupies nothing and no painting counts it. Contention is no
/// error and surfaces none: while neither state is reached, an attempt
/// changes nothing and the run goes on, bounded only by the stop flag. The
/// accounting invariant holds at the exit either way.
pub proof fn lemma_move_protocol_dichotomy(
    states: Seq<(Seq<Painting>, Seq<GuestSlot>)>,
    h: int,
    t: usize,
)
    requires
        forall|k: int|
            0 <= k < states.len() ==> #[trigger] retry_state_ok(states[k].0, states[k].1, h, t),
    ensures
        match move_retry_outcome(states, h, t) {
            Some((ps2, a2, entered)) => {
                &&& wf_core(ps2, a2)
                &&& a2[h] is Here
                &&& entered ==> slot_live(a2[h]) && a2[h]->Here_0.painting.value == Some(t)
                    && slot_at(a2[h], t as int) == 1 && ps2[t as int].watching == counts(
                    a2,
                    t as int,
                )
                &&& !entered ==> !slot_live(a2[h]) && a2[h]->Here_0.painting.value is None && (
                forall|q: int| #[trigger] slot_at(a2[h], q) == 0)
            },
            None => true,
        },
    decreases states.len(),
{
    if states.len() > 0 {
        assert(retry_state_ok(states[0].0, states[0].1, h, t));
        let ps = states.first().0;
        let a = states.first().1;
        if !slot_live(a[h]) {
        } else if can_enter(ps, a, h, t as int) {
            lemma_enter_preserves(ps, a, h, t);
        } else {
            assert forall|k: int| 0 <= k < states.drop_first().len() implies #[trigger] retry_state_ok(
                states.drop_first()[k].0,
                states.drop_first()[k].1,
                h,
                t,
            ) by {
                assert(states.drop_first()[k] == states[k + 1]);
            };
            lemma_move_protocol_dichotomy(states.drop_first(), h, t);
        }
    }
}

impl Guest {
    /// Starting a guest: allocate a fresh id and the guest's backing
    /// storage — stop flag clear, occupying nothing — and hand back the
    /// (weak, non-owning) handle to it.
    pub fn start(gallery: &mut Gallery) -> (h: usize)
        requires
            old(gallery).wf(),
            old(gallery).next_guest_id < usize::MAX,
        ensures
            final(gallery).wf(),
            h == old(gallery).arena@.len(),
            final(gallery).arena@ == old(gallery).arena@.push(
                GuestSlot::Here(
                    Guest {
                        guest_id: old(gallery).next_guest_id,
                        running: true,
                        painting: (AtomicRef { value: None }),
                    },
                ),
            ),
            final(gallery).next_guest_id == old(gallery).next_guest_id + 1,
            final(gallery).paintings@ == old(gallery).paintings@,
            final(gallery).guests@ == old(gallery).guests@,
            final(gallery).thread_started == old(gallery).thread_started,
    {
        let guest_id = gallery.next_guest_id;
        gallery.next_guest_id = guest_id + 1;
        let h = gallery.arena.len();
        let g = Guest { guest_id, running: true, painting: AtomicRef::new(None) };
        gallery.arena.push(GuestSlot::Here(g));
        proof {
            let s = GuestSlot::Here(g);
            assert forall|p: int| 0 <= p < gallery.paintings@.len() implies (
            #[trigger] gallery.paintings@[p]).watching == counts(gallery.arena@, p) by {
                lemma_counts_push(old(gallery).arena@, s, p);
            };
        }
        h
    }
}

impl Gallery {
    /// The guest walks away from whatever painting it occupies: swap the
    /// published slot to empty and give the vacated spot back. Used both by
    /// the move protocol (release before contending anew) and on run-loop
    /// exit (no painting ever counts a stopped guest).
    pub fn vacate(&mut self, h: usize)
        requires
            old(self).wf(),
            h < old(self).arena@.len(),
            old(self).arena@[h as int] is Here,
        ensures
            final(self).wf(),
            final(self).arena@ == vacate_arena_t(old(self).arena@, h as int),
            final(self).paintings@ == vacate_paintings_t(
                old(self).paintings@,
                old(self).arena@,
                h as int,
            ),
            final(self).guests@ == old(self).guests@,
            final(self).thread_started == old(self).thread_started,
            final(self).next_guest_id == old(self).next_guest_id,
    {
        let ghost a0 = self.arena@;
        let slot = self.arena[h];
        match slot {
            GuestSlot::Here(mut g) => {
                let prev = g.painting.swap(None);
                self.arena[h] = GuestSlot::Here(g);
                proof {
                    assert(self.arena@ =~= vacate_arena_t(a0, h as int));
                }
                if let Some(p) = prev {
                    proof {
                        lemma_counts_at_least(a0, h as int, p as int);
                    }
                    let mut pt = self.paintings[p];
                    pt.stop_watching();
                    self.paintings[p] = pt;
                    proof {
                        assert(self.paintings@ =~= vacate_paintings_t(
                            old(self).paintings@,
                            a0,
                            h as int,
                        ));
                    }
                }
                proof {
                    assert forall|q: int| 0 <= q < self.paintings@.len() implies (
                    #[trigger] self.paintings@[q]).watching == counts(self.arena@, q) by {
                        lemma_counts_update(a0, h as int, GuestSlot::Here(g), q);
                    };
                }
            },
            GuestSlot::Gone => {
                proof {
                    assert(false);
                }
            },
        }
    }

    /// One attempt of the move protocol's retry loop: a conditional
    /// increment on the target painting — succeed only while strictly below
    /// capacity — and, on success, publish the new slot. The attempt is
    /// abandoned without effect once the stop flag is set, so cancellation
    /// is honored even while retrying for a full painting.
    pub fn try_enter(&mut self, h: usize, target: usize) -> (entered: bool)
        requires
            old(self).wf(),
            h < old(self).arena@.len(),
            old(self).arena@[h as int] is Here,
            old(self).arena@[h as int]->Here_0.painting.value is None,
            target < old(self).paintings@.len(),
        ensures
            final(self).wf(),
            entered == can_enter(old(self).paintings@, old(self).arena@, h as int, target as int),
            final(self).arena@ == enter_arena_t(
                old(self).paintings@,
                old(self).arena@,
                h as int,
                target as int,
            ),
            final(self).paintings@ == enter_paintings_t(
                old(self).paintings@,
                old(self).arena@,
                h as int,
                target as int,
            ),
            final(self).guests@ == old(self).guests@,
            final(self).thread_started == old(self).thread_started,
            final(self).next_guest_id == old(self).next_guest_id,
    {
        let ghost a0 = self.arena@;
        let ghost ps0 = self.paintings@;
        let slot = self.arena[h];
        match slot {
            GuestSlot::Here(mut g) => {
                if !g.running {
                    return false;
                }
                let mut pt = self.paintings[target];
                let got_spot = pt.try_watch();
                if !got_spot {
                    return false;
                }
                self.paintings[target] = pt;
                g.painting.store(Some(target));
                self.arena[h] = GuestSlot::Here(g);
                proof {
                    assert(self.arena@ =~= enter_arena_t(ps0, a0, h as int, target as int));
                    assert(self.paintings@ =~= enter_paintings_t(ps0, a0, h as int, target as int));
                    assert forall|q: int| 0 <= q < self.paintings@.len() implies (
                    #[trigger] self.paintings@[q]).watching == counts(self.arena@, q) by {
                        lemma_counts_update(a0, h as int, GuestSlot::Here(g), q);
                    };
                }
                true
            },
            GuestSlot::Gone => {
                proof {
                    assert(false);
                }
                false
            },
        }
    }

    /// The move protocol towards painting `target`: first release whatever
    /// painting the guest holds (a guest never holds two spots and never
    /// waits while holding one), then make the first conditional-increment
    /// attempt. While that attempt failed and the guest keeps running, the
    /// driving loop retries with further `try_enter` calls after a short
    /// sleep; `lemma_move_protocol_dichotomy` states the whole run's
    /// outcome: it ends only entered or cancelled.
    pub fn go_to_painting(&mut self, h: usize, target: usize) -> (entered: bool)
        requires
            old(self).wf(),
            h < old(self).arena@.len(),
            old(self).arena@[h as int] is Here,
            target < old(self).paintings@.len(),
        ensures
            final(self).wf(),
            ({
                let a1 = vacate_arena_t(old(self).arena@, h as int);
                let ps1 = vacate_paintings_t(old(self).paintings@, old(self).arena@, h as int);
                &&& entered == can_enter(ps1, a1, h as int, target as int)
                &&& final(self).arena@ == enter_arena_t(ps1, a1, h as int, target as int)
                &&& final(self).paintings@ == enter_paintings_t(ps1, a1, h as int, target as int)
            }),
            final(self).guests@ == old(self).guests@,
            final(self).thread_started == old(self).thread_started,
            final(self).next_guest_id == old(self).next_guest_id,
    {
        self.vacate(h);
        self.try_enter(h, target)
    }

    /// Delivery of a cancellation request: set the target's stop flag. The
    /// flag is polled by the guest's own loop, so the request takes effect
    /// at the guest's next tick; a request to a handle that no longer
    /// resolves is silently absorbed.
    pub fn request_stop(&mut self, h: usize)
        requires
            old(self).wf(),
        ensures
            final(self).wf(),
            final(self).arena@ == stop_t(old(self).arena@, h as int),
            final(self).paintings@ == old(self).paintings@,
            final(self).guests@ == old(self).guests@,
            final(self).thread_started == old(self).thread_started,
            final(self).next_guest_id == old(self).next_guest_id,
    {
        let ghost a0 = self.arena@;
        if h < self.arena.len() {
            let slot = self.arena[h];
            match slot {
                GuestSlot::Here(g) => {
                    let stopped = Guest { running: false, ..g };
                    self.arena[h] = GuestSlot::Here(stopped);
                    proof {
                        assert(self.arena@ =~= stop_t(a0, h as int));
                        assert forall|q: int| 0 <= q < self.paintings@.len() implies (
                        #[trigger] self.paintings@[q]).watching == counts(self.arena@, q) by {
                            lemma_counts_update(a0, h as int, GuestSlot::Here(stopped), q);
                        };
                    }
                },
                GuestSlot::Gone => {},
            }
        }
    }

    /// One iteration of the guest's run loop, with the draw given: a guest
    /// that observes its stop flag exits and vacates its painting;
    /// otherwise it acts on the decision the sample yields, with `pick` the
    /// painting a move would head for. A move makes its first attempt here;
    /// the driving loop carries the retry on with `try_enter` while the
    /// attempt failed and the guest keeps running.
    pub fn apply_tick(&mut self, h: usize, sample: usize, pick: usize) -> (continuing: bool)
        requires
            old(self).wf(),
            h < old(self).arena@.len(),
            old(self).arena@[h as int] is Here,
            pick < old(self).paintings@.len(),
        ensures
            final(self).wf(),
            tick_rel(*old(self), *final(self), h as int, sample, pick as int, continuing),
    {
        let slot = self.arena[h];
        let running = match slot {
            GuestSlot::Here(g) => g.running,
            GuestSlot::Gone => {
                proof {
                    assert(false);
                }
                false
            },
        };
        if !running {
            self.vacate(h);
            return false;
        }
        match decide(sample) {
            Action::Stay => {},
            Action::Leave => {
                self.request_stop(h);
            },
            Action::GoTo => {
                self.go_to_painting(h, pick);
            },
        }
        true
    }

    /// One iteration of the guest's run loop, drawing its own sample and,
    /// for a move, its own target painting.
    pub fn guest_tick(&mut self, h: usize) -> (continuing: bool)
        requires
            old(self).wf(),
            h < old(self).arena@.len(),
            old(self).arena@[h as int] is Here,
            old(self).paintings@.len() > 0,
        ensures
            final(self).wf(),
            exists|sample: usize, pick: int|
                sample < PPM_SCALE && 0 <= pick < old(self).paintings@.len() && #[trigger] tick_rel(
                    *old(self),
                    *final(self),
                    h as int,
                    sample,
                    pick,
                    continuing,
                ),
    {
        let sample = random_below(PPM_SCALE);
        let pick = random_below(self.paintings.len());
        let continuing = self.apply_tick(h, sample, pick);
        proof {
            assert(tick_rel(*old(self), *self, h as int, sample, pick as int, continuing));
        }
        continuing
    }

    /// The guest's backing storage is given back once its run has ended and
    /// nobody owns it any more; handles to it stop resolving. Only a guest
    /// that has stopped and vacated can be released, which is exactly the
    /// state its run loop leaves behind.
    pub fn release(&mut self, h: usize)
        requires
            old(self).wf(),
            h < old(self).arena@.len(),
            old(self).arena@[h as int] is Here,
            !old(self).arena@[h as int]->Here_0.running,
            old(self).arena@[h as int]->Here_0.painting.value is None,
        ensures
            final(self).wf(),
            final(self).arena@ == old(self).arena@.update(h as int, GuestSlot::Gone),
            final(self).paintings@ == old(self).paintings@,
            final(self).guests@ == old(self).guests@,
            final(self).thread_started == old(self).thread_started,
            final(self).next_guest_id == old(self).next_guest_id,
    {
        let ghost a0 = self.arena@;
        self.arena[h] = GuestSlot::Gone;
        proof {
            assert forall|q: int| 0 <= q < self.paintings@.len() implies (
            #[trigger] self.paintings@[q]).watching == counts(self.arena@, q) by {
                lemma_counts_update(a0, h as int, GuestSlot::Gone, q);
            };
        }
    }
}

} // verus!
