use gallery::atomic_ref::AtomicRef;
use gallery::gallery::Gallery;
use gallery::gallery::ADMIT_PPM;
use gallery::guest::decide;
use gallery::guest::Action;
use gallery::guest::Guest;
use gallery::guest::GuestSlot;
use gallery::guest::GUEST_LEAVE_PPM;
use gallery::guest::GUEST_MOVE_PPM;
use gallery::guest::PPM_SCALE;
use gallery::painting::Painting;
use gallery::painting::MAX_GUESTS_PER_PAINTING;
use gallery::watchman::MAX_GUESTS_RUNNING;

fn slot_guest(s: GuestSlot) -> Guest {
    match s {
        GuestSlot::Here(g) => g,
        GuestSlot::Gone => panic!("slot should still resolve"),
    }
}

fn one_painting(capacity: usize) -> Gallery {
    Gallery::with_paintings(vec![Painting::with_capacity("The Night Watch", capacity)])
}

#[test]
fn atomic_ref_holds_what_was_stored() {
    let mut slot: AtomicRef<usize> = AtomicRef::new(None);
    assert_eq!(slot.load(), None);
    slot.store(Some(3));
    assert_eq!(slot.load(), Some(3));
    let prev = slot.swap(Some(7));
    assert_eq!(prev, Some(3));
    assert_eq!(slot.load(), Some(7));
    let prev = slot.swap(None);
    assert_eq!(prev, Some(7));
    assert_eq!(slot.load(), None);
}

#[test]
fn painting_starts_empty() {
    let p = Painting::new("Mona Lisa");
    assert_eq!(p.watching, 0);
    assert_eq!(p.capacity, MAX_GUESTS_PER_PAINTING);
    assert_eq!(p.name, "Mona Lisa");
}

#[test]
fn try_watch_stops_at_capacity() {
    let mut p = Painting::with_capacity("Guernica", 2);
    assert!(p.try_watch());
    assert!(p.try_watch());
    assert!(!p.try_watch());
    assert_eq!(p.watching, 2);
    p.stop_watching();
    assert_eq!(p.watching, 1);
    assert!(p.try_watch());
    assert!(!p.try_watch());
}

#[test]
fn decide_matches_the_thresholds() {
    assert_eq!(decide(0), Action::GoTo);
    assert_eq!(decide(GUEST_MOVE_PPM - 1), Action::GoTo);
    assert_eq!(decide(GUEST_MOVE_PPM), Action::Leave);
    assert_eq!(decide(GUEST_MOVE_PPM + GUEST_LEAVE_PPM - 1), Action::Leave);
    assert_eq!(decide(GUEST_MOVE_PPM + GUEST_LEAVE_PPM), Action::Stay);
    assert_eq!(decide(PPM_SCALE - 1), Action::Stay);
}

#[test]
fn gallery_new_has_five_empty_paintings() {
    let g = Gallery::new();
    assert_eq!(g.paintings.len(), 5);
    assert_eq!(g.paintings[0].name, "Mona Lisa");
    assert_eq!(g.paintings[2].name, "The Starry Night");
    for p in &g.paintings {
        assert_eq!(p.watching, 0);
        assert_eq!(p.capacity, MAX_GUESTS_PER_PAINTING);
    }
    assert!(g.arena.is_empty());
    assert!(g.guests.is_empty());
    assert!(!g.thread_started);
}

#[test]
fn guest_ids_are_unique_and_monotonic() {
    let mut g = Gallery::new();
    let h1 = Guest::start(&mut g);
    let h2 = Guest::start(&mut g);
    let h3 = Guest::start(&mut g);
    let ids = [
        slot_guest(g.arena[h1]).guest_id,
        slot_guest(g.arena[h2]).guest_id,
        slot_guest(g.arena[h3]).guest_id,
    ];
    assert_eq!(ids, [1, 2, 3]);
    assert!(slot_guest(g.arena[h1]).running);
    assert_eq!(slot_guest(g.arena[h1]).painting.load(), None);
}

#[test]
fn adder_guard_fires_exactly_once() {
    let mut g = Gallery::new();
    assert!(g.start_adder());
    assert!(g.thread_started);
    assert!(!g.start_adder());
    assert!(!g.start_adder());
    assert!(g.thread_started);
}

#[test]
fn admission_follows_the_sample() {
    let mut g = Gallery::new();
    g.apply_admission(ADMIT_PPM);
    assert!(g.arena.is_empty());
    assert!(g.guests.is_empty());
    g.apply_admission(ADMIT_PPM - 1);
    assert_eq!(g.arena.len(), 1);
    assert_eq!(g.guests, vec![0]);
    g.apply_admission(0);
    assert_eq!(g.guests, vec![0, 1]);
}

#[test]
fn five_guests_contend_for_two_spots() {
    let mut g = one_painting(2);
    let handles: Vec<usize> = (0..5).map(|_| Guest::start(&mut g)).collect();
    let entered: Vec<bool> = handles.iter().map(|&h| g.try_enter(h, 0)).collect();
    assert_eq!(entered, vec![true, true, false, false, false]);
    assert_eq!(g.paintings[0].watching, 2);

    // the three losers retry and keep failing while the painting is full
    for &h in &handles[2..] {
        assert!(!g.try_enter(h, 0));
    }
    assert_eq!(g.paintings[0].watching, 2);

    // one occupant vacates; exactly one retrying guest takes the spot
    g.vacate(handles[0]);
    assert_eq!(g.paintings[0].watching, 1);
    assert!(g.try_enter(handles[2], 0));
    assert!(!g.try_enter(handles[3], 0));
    assert!(!g.try_enter(handles[4], 0));
    assert_eq!(g.paintings[0].watching, 2);
}

#[test]
fn retry_ends_cancelled_when_stopped_mid_contention() {
    let mut g = one_painting(1);
    let a = Guest::start(&mut g);
    let b = Guest::start(&mut g);
    assert!(g.try_enter(a, 0));
    // b contends for the full painting: failed attempts have no effect
    assert!(!g.go_to_painting(b, 0));
    assert!(!g.try_enter(b, 0));
    assert_eq!(g.paintings[0].watching, 1);
    // cancellation arrives while b retries: the next attempt gives up
    g.request_stop(b);
    assert!(!g.try_enter(b, 0));
    assert!(!slot_guest(g.arena[b]).running);
    assert!(slot_guest(g.arena[b]).painting.load().is_none());
    assert_eq!(g.paintings[0].watching, 1);
}

#[test]
fn move_releases_the_old_spot_first() {
    let mut g = Gallery::with_paintings(vec![
        Painting::with_capacity("Water Lilies", 1),
        Painting::with_capacity("Irises", 1),
    ]);
    let h = Guest::start(&mut g);
    assert!(g.try_enter(h, 0));
    assert_eq!(g.paintings[0].watching, 1);
    assert!(g.go_to_painting(h, 1));
    assert_eq!(g.paintings[0].watching, 0);
    assert_eq!(g.paintings[1].watching, 1);
    assert_eq!(slot_guest(g.arena[h]).painting.load(), Some(1));
}

#[test]
fn cancellation_is_honored_at_the_next_poll() {
    let mut g = one_painting(2);
    let h = Guest::start(&mut g);
    assert!(g.try_enter(h, 0));
    assert_eq!(g.paintings[0].watching, 1);

    g.request_stop(h);
    assert!(!slot_guest(g.arena[h]).running);

    // next poll of the run loop: it exits and vacates
    let continuing = g.apply_tick(h, 0, 0);
    assert!(!continuing);
    assert_eq!(g.paintings[0].watching, 0);
    assert_eq!(slot_guest(g.arena[h]).painting.load(), None);

    g.release(h);
    assert!(matches!(g.arena[h], GuestSlot::Gone));
}

#[test]
fn stop_request_to_a_gone_guest_is_absorbed() {
    let mut g = one_painting(2);
    let h = Guest::start(&mut g);
    g.request_stop(h);
    let _ = g.apply_tick(h, 0, 0);
    g.release(h);
    g.request_stop(h);
    g.request_stop(12345);
    assert!(matches!(g.arena[h], GuestSlot::Gone));
}

#[test]
fn voluntary_leave_stops_on_the_following_tick() {
    let mut g = one_painting(2);
    let h = Guest::start(&mut g);
    // this tick's sample falls in the leave band: the guest flips its own flag
    let continuing = g.apply_tick(h, GUEST_MOVE_PPM, 0);
    assert!(continuing);
    assert!(!slot_guest(g.arena[h]).running);
    // the next tick observes the flag and exits
    assert!(!g.apply_tick(h, 0, 0));
}

#[test]
fn a_stay_tick_changes_nothing() {
    let mut g = one_painting(2);
    let h = Guest::start(&mut g);
    assert!(g.try_enter(h, 0));
    let continuing = g.apply_tick(h, PPM_SCALE - 1, 0);
    assert!(continuing);
    assert_eq!(g.paintings[0].watching, 1);
    assert_eq!(slot_guest(g.arena[h]).painting.load(), Some(0));
}

#[test]
fn prune_keeps_only_live_running_guests() {
    let mut g = one_painting(5);
    let live = Guest::start(&mut g);
    let stopped = Guest::start(&mut g);
    let gone = Guest::start(&mut g);
    g.guests.push(live);
    g.guests.push(stopped);
    g.guests.push(gone);

    g.request_stop(stopped);
    g.request_stop(gone);
    let _ = g.apply_tick(gone, 0, 0);
    g.release(gone);

    g.prune();
    assert_eq!(g.guests, vec![live]);
}

#[test]
fn watchman_does_nothing_at_or_below_the_cap() {
    let mut g = one_painting(5);
    for _ in 0..MAX_GUESTS_RUNNING {
        let h = Guest::start(&mut g);
        g.guests.push(h);
    }
    g.apply_watchman(7);
    assert_eq!(g.guests.len(), MAX_GUESTS_RUNNING);
    for &h in &g.guests {
        assert!(slot_guest(g.arena[h]).running);
    }
}

#[test]
fn watchman_prunes_before_it_evicts() {
    let mut g = one_painting(5);
    for i in 0..MAX_GUESTS_RUNNING + 5 {
        let h = Guest::start(&mut g);
        g.guests.push(h);
        if i < 10 {
            g.request_stop(h);
        }
    }
    // over the cap, but pruning alone brings the roster under it
    g.apply_watchman(2);
    assert_eq!(g.guests.len(), MAX_GUESTS_RUNNING + 5 - 10);
    for &h in &g.guests {
        assert!(slot_guest(g.arena[h]).running);
    }
}

#[test]
fn watchman_converges_to_the_cap_without_overshoot() {
    let mut g = one_painting(5);
    for _ in 0..MAX_GUESTS_RUNNING + 5 {
        let h = Guest::start(&mut g);
        g.guests.push(h);
    }
    let mut ticks: usize = 0;
    while g.guests.len() > MAX_GUESTS_RUNNING {
        let before = g.guests.len();
        g.apply_watchman(ticks * 13 + 1);
        assert!(g.guests.len() < before); // never increased, strictly shrunk
        ticks += 1;
    }
    assert_eq!(ticks, 5);
    assert_eq!(g.guests.len(), MAX_GUESTS_RUNNING);
    // each evicted guest got a cancellation request
    let stopped = g
        .arena
        .iter()
        .filter(|s| matches!(s, GuestSlot::Here(gu) if !gu.running))
        .count();
    assert_eq!(stopped, 5);
}

#[test]
fn random_ticks_never_break_the_accounting() {
    let mut g = Gallery::new();
    assert!(g.start_adder());
    for _ in 0..400 {
        g.admission_tick();
        g.watchman_tick();
        for h in 0..g.arena.len() {
            if matches!(g.arena[h], GuestSlot::Here(_)) {
                let _ = g.guest_tick(h);
            }
        }
        for p in &g.paintings {
            assert!(p.watching <= p.capacity);
        }
        // every painting's counter agrees with the published slots
        for (i, p) in g.paintings.iter().enumerate() {
            let occupants = g
                .arena
                .iter()
                .filter(|s| matches!(s, GuestSlot::Here(gu) if gu.painting.load() == Some(i)))
                .count();
            assert_eq!(p.watching, occupants);
        }
    }
}
