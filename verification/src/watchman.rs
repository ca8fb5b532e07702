//! The watchman: the population controller.
//!
//! Every tick the watchman reads the roster; while the population stays at
//! or below the cap it does nothing (the cheap common case). Over the cap
//! it prunes every handle that no longer resolves or whose guest has
//! already stopped, and, if still over the cap, removes one remaining
//! handle at random and delivers a cancellation request to it. The cap is
//! best-effort and eventually consistent: each over-cap tick strictly
//! shrinks the roster, so repeated ticks converge to the cap.

use vstd::prelude::*;

use crate::gallery::roster_ok;
use crate::gallery::Gallery;
use crate::guest::slot_live;
use crate::guest::stop_t;
use crate::guest::GuestSlot;
use crate::tools::random_below;

verus! {

/// The population cap the watchman enforces.
pub const MAX_GUESTS_RUNNING: usize = 20;

/// Whether roster handle `h` still resolves to a running guest.
pub open spec fn roster_live(arena: Seq<GuestSlot>, h: usize) -> bool {
    h < arena.len() && slot_live(arena[h as int])
}

/// Pruning: of the roster, exactly the handles that still resolve to a
/// running guest remain, in their original order.
pub open spec fn prune_t(roster: Seq<usize>, arena: Seq<GuestSlot>) -> Seq<usize>
    decreases roster.len(),
{
    if roster.len() == 0 {
        Seq::empty()
    } else {
        let front = prune_t(roster.drop_last(), arena);
        if roster_live(arena, roster.last()) {
            front.push(roster.last())
        } else {
            front
        }
    }
}

/// The roster after one watchman tick: at or below the cap nothing happens;
/// above it the roster is pruned, and if still above the cap one surviving
/// handle (chosen by `pick`) is removed.
pub open spec fn watchman_roster_t(roster: Seq<usize>, arena: Seq<GuestSlot>, pick: usize) -> Seq<
    usize,
> {
    if roster.len() <= MAX_GUESTS_RUNNING {
        roster
    } else {
        let pruned = prune_t(roster, arena);
        if pruned.len() <= MAX_GUESTS_RUNNING {
            pruned
        } else {
            pruned.remove(pick as int % pruned.len() as int)
        }
    }
}

/// The guest storage after one watchman tick: only the evicted guest, if
/// one was chosen, has its stop flag set.
pub open spec fn watchman_arena_t(roster: Seq<usize>, arena: Seq<GuestSlot>, pick: usize) -> Seq<
    GuestSlot,
> {
    if roster.len() <= MAX_GUESTS_RUNNING {
        arena
    } else {
        let pruned = prune_t(roster, arena);
        if pruned.len() <= MAX_GUESTS_RUNNING {
            arena
        } else {
            stop_t(arena, pruned[pick as int % pruned.len() as int] as int)
        }
    }
}

/// Pruning never grows the roster.
pub proof fn lemma_prune_len(roster: Seq<usize>, arena: Seq<GuestSlot>)
    ensures
        prune_t(roster, arena).len() <= roster.len(),
    decreases roster.len(),
{
    if roster.len() > 0 {
        lemma_prune_len(roster.drop_last(), arena);
    }
}

/// Pruning correctness: after one pass, the roster holds exactly the
/// handles that still resolve to a running guest — every survivor is live,
/// and every live handle survives.
pub proof fn lemma_prune_live(roster: Seq<usize>, arena: Seq<GuestSlot>)
    ensures
        forall|j: int|
            0 <= j < prune_t(roster, arena).len() ==> roster_live(
                arena,
                #[trigger] prune_t(roster, arena)[j],
            ),
        forall|i: int|
            0 <= i < roster.len() && roster_live(arena, roster[i]) ==> prune_t(
                roster,
                arena,
            ).contains(#[trigger] roster[i]),
    decreases roster.len(),
{
    if roster.len() > 0 {
        lemma_prune_live(roster.drop_last(), arena);
        let front = prune_t(roster.drop_last(), arena);
        if roster_live(arena, roster.last()) {
            assert(prune_t(roster, arena) == front.push(roster.last()));
            assert forall|i: int|
                0 <= i < roster.len() && roster_live(arena, roster[i]) implies prune_t(
                roster,
                arena,
            ).contains(#[trigger] roster[i]) by {
                if i < roster.len() - 1 {
                    assert(roster.drop_last()[i] == roster[i]);
                    let k = choose|k: int| 0 <= k < front.len() && front[k] == roster[i];
                    assert(front.push(roster.last())[k] == roster[i]);
                } else {
                    assert(front.push(roster.last())[front.len() as int] == roster[i]);
                }
            };
        } else {
            assert forall|i: int|
                0 <= i < roster.len() && roster_live(arena, roster[i]) implies prune_t(
                roster,
                arena,
            ).contains(#[trigger] roster[i]) by {
                assert(i < roster.len() - 1);
                assert(roster.drop_last()[i] == roster[i]);
            };
        }
    }
}

/// A roster of handles that all resolve to running guests survives pruning
/// unchanged.
proof fn lemma_prune_all_live(roster: Seq<usize>, arena: Seq<GuestSlot>)
    requires
        forall|i: int| 0 <= i < roster.len() ==> roster_live(arena, #[trigger] roster[i]),
    ensures
        prune_t(roster, arena) == roster,
    decreases roster.len(),
{
    if roster.len() > 0 {
        assert forall|i: int| 0 <= i < roster.drop_last().len() implies roster_live(
            arena,
            #[trigger] roster.drop_last()[i],
        ) by {
            assert(roster.drop_last()[i] == roster[i]);
        };
        lemma_prune_all_live(roster.drop_last(), arena);
        assert(prune_t(roster, arena) =~= roster);
    }
}

/// Pruning twice is pruning once: everything a pass keeps is live.
pub proof fn lemma_prune_idempotent(roster: Seq<usize>, arena: Seq<GuestSlot>)
    ensures
        prune_t(prune_t(roster, arena), arena) == prune_t(roster, arena),
{
    lemma_prune_live(roster, arena);
    lemma_prune_all_live(prune_t(roster, arena), arena);
}

/// One watchman tick never grows the roster, and while the roster is over
/// the cap the tick strictly shrinks it.
pub proof fn lemma_cap_step(roster: Seq<usize>, arena: Seq<GuestSlot>, pick: usize)
    ensures
        watchman_roster_t(roster, arena, pick).len() <= roster.len(),
        watchman_roster_t(roster, arena, pick).len() <= MAX_GUESTS_RUNNING
            || watchman_roster_t(roster, arena, pick).len() < roster.len(),
{
    lemma_prune_len(roster, arena);
}

/// The roster and guest storage reached by a run of watchman ticks, with
/// `picks` the run's victim draws, one per tick.
pub open spec fn watchman_iter(
    roster: Seq<usize>,
    arena: Seq<GuestSlot>,
    picks: Seq<usize>,
) -> (Seq<usize>, Seq<GuestSlot>)
    decreases picks.len(),
{
    if picks.len() == 0 {
        (roster, arena)
    } else {
        let prev = watchman_iter(roster, arena, picks.drop_last());
        (
            watchman_roster_t(prev.0, prev.1, picks.last()),
            watchman_arena_t(prev.0, prev.1, picks.last()),
        )
    }
}

proof fn lemma_iter_bound(roster: Seq<usize>, arena: Seq<GuestSlot>, picks: Seq<usize>)
    ensures
        watchman_iter(roster, arena, picks).0.len() <= MAX_GUESTS_RUNNING || watchman_iter(
            roster,
            arena,
            picks,
        ).0.len() + picks.len() <= roster.len(),
    decreases picks.len(),
{
    if picks.len() > 0 {
        lemma_iter_bound(roster, arena, picks.drop_last());
        let prev = watchman_iter(roster, arena, picks.drop_last());
        lemma_cap_step(prev.0, prev.1, picks.last());
    }
}

/// Cap convergence: however the victim draws fall, a population of any size
/// is driven to at or below the cap within as many watchman ticks as the
/// starting roster exceeds the cap by — and never increased along the way
/// (`lemma_cap_step`).
pub proof fn lemma_cap_convergence(roster: Seq<usize>, arena: Seq<GuestSlot>, picks: Seq<usize>)
    requires
        roster.len() <= MAX_GUESTS_RUNNING + picks.len(),
    ensures
        watchman_iter(roster, arena, picks).0.len() <= MAX_GUESTS_RUNNING,
{
    lemma_iter_bound(roster, arena, picks);
}

impl Gallery {
    /// Remove from the roster every handle that no longer resolves or whose
    /// guest has already stopped.
    pub fn prune(&mut self)
        requires
            old(self).wf(),
        ensures
            final(self).wf(),
            final(self).guests@ == prune_t(old(self).guests@, old(self).arena@),
            final(self).arena@ == old(self).arena@,
            final(self).paintings@ == old(self).paintings@,
            final(self).thread_started == old(self).thread_started,
            final(self).next_guest_id == old(self).next_guest_id,
    {
        let mut kept: Vec<usize> = Vec::new();
        let mut i: usize = 0;
        while i < self.guests.len()
            invariant
                old(self).wf(),
                *self == *old(self),
                i <= self.guests@.len(),
                kept@ == prune_t(self.guests@.take(i as int), self.arena@),
                roster_ok(kept@, self.arena@.len() as int),
            decreases self.guests@.len() - i,
        {
            let h = self.guests[i];
            let live = match self.arena[h] {
                GuestSlot::Here(g) => g.running,
                GuestSlot::Gone => false,
            };
            proof {
                assert(self.guests@.take(i + 1 as int).drop_last() =~= self.guests@.take(i as int));
                assert(self.guests@.take(i + 1 as int).last() == self.guests@[i as int]);
            }
            if live {
                kept.push(h);
            }
            i = i + 1;
        }
        proof {
            assert(self.guests@.take(self.guests@.len() as int) =~= self.guests@);
        }
        self.guests = kept;
    }

    /// One watchman tick, with the victim draw given: nothing while the
    /// roster is at or below the cap; otherwise prune, and if still over
    /// the cap take one surviving handle off the roster and deliver a
    /// cancellation request to it.
    pub fn apply_watchman(&mut self, pick: usize)
        requires
            old(self).wf(),
        ensures
            final(self).wf(),
            final(self).guests@ == watchman_roster_t(old(self).guests@, old(self).arena@, pick),
            final(self).arena@ == watchman_arena_t(old(self).guests@, old(self).arena@, pick),
            final(self).paintings@ == old(self).paintings@,
            final(self).thread_started == old(self).thread_started,
            final(self).next_guest_id == old(self).next_guest_id,
    {
        if self.guests.len() <= MAX_GUESTS_RUNNING {
            return;
        }
        self.prune();
        if self.guests.len() <= MAX_GUESTS_RUNNING {
            return;
        }
        let ghost pruned = self.guests@;
        let idx = pick % self.guests.len();
        let victim = self.guests.remove(idx);
        proof {
            assert forall|i: int| 0 <= i < self.guests@.len() implies (#[trigger] self.guests@[i])
                < self.arena@.len() by {
                if i < idx {
                    assert(self.guests@[i] == pruned[i]);
                } else {
                    assert(self.guests@[i] == pruned[i + 1]);
                }
            };
        }
        self.request_stop(victim);
    }

    /// One watchman tick, drawing the victim itself: the draw happens after
    /// the pruning pass, uniformly over the handles that survived it.
    pub fn watchman_tick(&mut self)
        requires
            old(self).wf(),
        ensures
            final(self).wf(),
            exists|pick: usize|
                final(self).guests@ == #[trigger] watchman_roster_t(
                    old(self).guests@,
                    old(self).arena@,
                    pick,
                ) && final(self).arena@ == watchman_arena_t(
                    old(self).guests@,
                    old(self).arena@,
                    pick,
                ),
            final(self).paintings@ == old(self).paintings@,
            final(self).thread_started == old(self).thread_started,
            final(self).next_guest_id == old(self).next_guest_id,
    {
        if self.guests.len() <= MAX_GUESTS_RUNNING {
            proof {
                assert(self.guests@ == watchman_roster_t(old(self).guests@, old(self).arena@, 0));
            }
            return;
        }
        self.prune();
        if self.guests.len() <= MAX_GUESTS_RUNNING {
            proof {
                assert(self.guests@ == watchman_roster_t(old(self).guests@, old(self).arena@, 0));
            }
            return;
        }
        let pick = random_below(self.guests.len());
        let ghost pruned = self.guests@;
        self.apply_watchman(pick);
        proof {
            lemma_prune_idempotent(old(self).guests@, old(self).arena@);
            vstd::arithmetic::div_mod::lemma_small_mod(pick as nat, pruned.len() as nat);
            assert(pick as int % pruned.len() as int == pick as int);
            assert(self.guests@ == watchman_roster_t(old(self).guests@, old(self).arena@, pick));
        }
    }
}

} // verus!
