use watch_engine::action::{Action, EventError};
use watch_engine::handler::{Probe, WatchHandler};
use watch_engine::mutation::{Emission, Mutation};
use watch_engine::timing::Timing;

const MS: u64 = 1_000_000;

fn path(text: &str) -> String {
    String::from(text)
}

fn handler_with_cadence(cadence: u64) -> WatchHandler {
    WatchHandler::new(Timing::from_cadence(cadence).unwrap(), 0)
}

fn nothing() -> Emission {
    Emission { mutations: vec![], notify_changed: false }
}

/// Ticks every `every` from `from` to `until` and collects what comes out.
fn tick_through(handler: &mut WatchHandler, from: u64, until: u64, every: u64) -> Vec<(u64, Emission)> {
    let mut seen: Vec<(u64, Emission)> = Vec::new();
    let mut now: u64 = from;
    while now <= until {
        let out = handler.tick(now);
        if out != nothing() {
            seen.push((now, out));
        }
        now += every;
    }
    seen
}

#[test]
fn burst_of_saves_gives_one_update_and_one_signal() {
    let mut handler = handler_with_cadence(100 * MS);
    let f = path("f");
    assert_eq!(handler.handle_event(Action::CreateFile(f.clone()), Probe::Found, 1 * MS), Ok(nothing()));
    assert_eq!(handler.handle_event(Action::DataChanged(f.clone()), Probe::Found, 5 * MS), Ok(nothing()));
    assert_eq!(handler.handle_event(Action::DataChanged(f.clone()), Probe::Found, 9 * MS), Ok(nothing()));
    assert_eq!(handler.pending_update(&f), Some(9 * MS));

    let seen = tick_through(&mut handler, 90 * MS, 1200 * MS, 90 * MS);
    assert_eq!(seen.len(), 1);
    let (at, out) = &seen[0];
    assert_eq!(out.mutations, vec![Mutation::UpdateFile(f.clone())]);
    assert!(out.notify_changed);
    assert!(*at >= 509 * MS);
    assert_eq!(*at, 540 * MS);
    assert_eq!(handler.pending_update(&f), None);
}

#[test]
fn both_halves_of_a_rename_give_one_rename_and_no_removal() {
    let mut handler = handler_with_cadence(100 * MS);
    let old = path("a/old.txt");
    let new = path("a/new.txt");
    assert_eq!(handler.handle_event(Action::RenameFrom(old.clone()), Probe::Found, 0), Ok(nothing()));
    assert_eq!(handler.dangling_since(&old), Some(0));
    let out = handler
        .handle_event(
            Action::RenameBoth { new_path: new.clone(), old_path: old.clone() },
            Probe::Found,
            20 * MS,
        )
        .unwrap();
    assert_eq!(
        out,
        Emission {
            mutations: vec![Mutation::Rename { new_path: new.clone(), old_path: old.clone() }],
            notify_changed: true,
        }
    );
    assert_eq!(handler.dangling_since(&old), None);
    assert_eq!(handler.resolved_at(&old), Some(20 * MS));

    let seen = tick_through(&mut handler, 50 * MS, 1000 * MS, 50 * MS);
    assert_eq!(seen, vec![]);
    assert_eq!(handler.dangling_since(&old), None);
    assert_eq!(handler.resolved_at(&old), None);
}

#[test]
fn a_burst_is_flushed_only_after_its_last_event_has_aged() {
    let mut handler = handler_with_cadence(10);
    let f = path("notes.md");
    let mut updates: u64 = 0;
    let mut now: u64 = 0;
    // Twelve events, four apart, all within 49 of the first: less than the
    // flush delay of 50. A tick follows each of them.
    while now < 48 {
        handler.handle_event(Action::DataChanged(f.clone()), Probe::Found, now).unwrap();
        let out = handler.tick(now + 1);
        assert_eq!(out, nothing());
        now += 4;
    }
    let last: u64 = 44;
    assert_eq!(handler.pending_update(&f), Some(last));
    let mut t: u64 = 45;
    while t < 200 {
        let out = handler.tick(t);
        for m in &out.mutations {
            assert_eq!(*m, Mutation::UpdateFile(f.clone()));
            assert!(t - last >= 50);
            updates += 1;
        }
        t += 3;
    }
    assert_eq!(updates, 1);
}

#[test]
fn a_late_rename_from_is_ignored() {
    let mut handler = handler_with_cadence(100);
    let old = path("docs/a");
    let new = path("docs/b");
    let out = handler
        .handle_event(Action::RenameBoth { new_path: new.clone(), old_path: old.clone() }, Probe::Found, 10)
        .unwrap();
    assert_eq!(out.mutations.len(), 1);
    assert_eq!(handler.resolved_at(&old), Some(10));
    assert_eq!(handler.tick(105), nothing());
    assert_eq!(handler.resolved_at(&old), Some(10));
    assert_eq!(handler.handle_event(Action::RenameFrom(old.clone()), Probe::Found, 109), Ok(nothing()));
    assert_eq!(handler.dangling_since(&old), None);
    assert_eq!(handler.resolved_at(&old), None);
    let seen = tick_through(&mut handler, 110, 2000, 70);
    assert_eq!(seen, vec![]);
}

#[test]
fn a_rename_from_after_the_window_dangles_again() {
    let mut handler = handler_with_cadence(100);
    let old = path("docs/a");
    let new = path("docs/b");
    handler
        .handle_event(Action::RenameBoth { new_path: new, old_path: old.clone() }, Probe::Found, 10)
        .unwrap();
    // The marker is exactly one window old at 110 and is dropped by the sweep.
    assert_eq!(handler.tick(110), nothing());
    assert_eq!(handler.resolved_at(&old), None);
    handler.handle_event(Action::RenameFrom(old.clone()), Probe::Found, 111).unwrap();
    assert_eq!(handler.dangling_since(&old), Some(111));
}

#[test]
fn a_lone_rename_from_becomes_one_removal() {
    let mut handler = handler_with_cadence(100);
    let gone = path("tree/moved-out");
    handler.handle_event(Action::RenameFrom(gone.clone()), Probe::Found, 30).unwrap();
    // 130 is exactly the timeout: the path still dangles.
    assert_eq!(handler.tick(130), nothing());
    assert_eq!(handler.last_check(), 130);
    assert_eq!(handler.dangling_since(&gone), Some(30));
    // 231 is the first instant at which a tick is due again.
    assert_eq!(handler.tick(230), nothing());
    assert_eq!(handler.last_check(), 130);
    let out = handler.tick(231);
    assert_eq!(
        out,
        Emission { mutations: vec![Mutation::Remove(gone.clone())], notify_changed: true }
    );
    assert_eq!(handler.dangling_since(&gone), None);
    let seen = tick_through(&mut handler, 231, 3000, 101);
    assert_eq!(seen, vec![]);
}

#[test]
fn a_dangling_path_is_given_up_right_after_the_timeout() {
    let timing = Timing::new(10, 100, 100, 500).unwrap();
    let mut handler = WatchHandler::new(timing, 0);
    let gone = path("x");
    handler.handle_event(Action::RenameFrom(gone.clone()), Probe::Found, 0).unwrap();
    assert_eq!(handler.tick(100), nothing());
    assert_eq!(handler.dangling_since(&gone), Some(0));
    let out = handler.sweep(101);
    assert_eq!(out.mutations, vec![Mutation::Remove(gone.clone())]);
    assert!(out.notify_changed);
}

#[test]
fn updates_and_renames_on_one_path_do_not_touch_each_other() {
    let mut handler = handler_with_cadence(100);
    let a = path("shared");
    handler.handle_event(Action::DataChanged(a.clone()), Probe::Found, 0).unwrap();
    handler.handle_event(Action::RenameFrom(a.clone()), Probe::Found, 450).unwrap();
    assert_eq!(handler.pending_update(&a), Some(0));
    assert_eq!(handler.dangling_since(&a), Some(450));
    // The update is due at 500, the rename-from only after 550.
    let out = handler.tick(500);
    assert_eq!(out.mutations, vec![Mutation::UpdateFile(a.clone())]);
    assert_eq!(handler.pending_update(&a), None);
    assert_eq!(handler.dangling_since(&a), Some(450));
    handler.handle_event(Action::DataChanged(a.clone()), Probe::Found, 540).unwrap();
    let out = handler.tick(601);
    assert_eq!(out.mutations, vec![Mutation::Remove(a.clone())]);
    assert_eq!(handler.pending_update(&a), Some(540));
    assert_eq!(handler.dangling_since(&a), None);
}

#[test]
fn events_in_either_order_leave_the_same_state() {
    let a = path("shared");
    let mut one = handler_with_cadence(100);
    one.handle_event(Action::DataChanged(a.clone()), Probe::Found, 5).unwrap();
    one.handle_event(Action::RenameFrom(a.clone()), Probe::Found, 7).unwrap();
    let mut two = handler_with_cadence(100);
    two.handle_event(Action::RenameFrom(a.clone()), Probe::Found, 7).unwrap();
    two.handle_event(Action::DataChanged(a.clone()), Probe::Found, 5).unwrap();
    assert_eq!(one.pending_update(&a), two.pending_update(&a));
    assert_eq!(one.dangling_since(&a), two.dangling_since(&a));
    assert_eq!(one.sweep(1000), two.sweep(1000));
}

#[test]
fn a_second_tick_at_once_does_nothing() {
    let mut handler = handler_with_cadence(100);
    handler.handle_event(Action::DataChanged(path("p")), Probe::Found, 0).unwrap();
    handler.handle_event(Action::RenameFrom(path("q")), Probe::Found, 0).unwrap();
    let first = handler.tick(700);
    assert_eq!(
        first,
        Emission {
            mutations: vec![Mutation::UpdateFile(path("p")), Mutation::Remove(path("q"))],
            notify_changed: true,
        }
    );
    assert_eq!(handler.tick(700), nothing());
    assert_eq!(handler.tick(800), nothing());
    assert_eq!(handler.last_check(), 700);
}

#[test]
fn a_second_sweep_at_once_does_nothing() {
    let mut handler = handler_with_cadence(100);
    handler.handle_event(Action::DataChanged(path("p")), Probe::Found, 0).unwrap();
    handler.handle_event(Action::DataChanged(path("young")), Probe::Found, 400).unwrap();
    let first = handler.sweep(500);
    assert_eq!(first.mutations, vec![Mutation::UpdateFile(path("p"))]);
    assert_eq!(handler.sweep(500), nothing());
    assert_eq!(handler.pending_update(&path("young")), Some(400));
}

#[test]
fn a_tick_is_due_only_after_more_than_a_cadence() {
    let mut handler = handler_with_cadence(100);
    assert!(!handler.tick_due(0));
    assert!(!handler.tick_due(100));
    assert!(handler.tick_due(101));
    assert_eq!(handler.tick(100), nothing());
    assert_eq!(handler.last_check(), 0);
    assert_eq!(handler.tick(101), nothing());
    assert_eq!(handler.last_check(), 101);
}

#[test]
fn an_update_is_flushed_at_exactly_the_flush_delay() {
    let mut handler = handler_with_cadence(100);
    handler.handle_event(Action::CreateFile(path("f")), Probe::Found, 1000).unwrap();
    assert_eq!(handler.sweep(1499), nothing());
    let out = handler.sweep(1500);
    assert_eq!(out.mutations, vec![Mutation::UpdateFile(path("f"))]);
}

#[test]
fn a_clock_that_runs_backwards_makes_nothing_older() {
    let mut handler = handler_with_cadence(100);
    handler.handle_event(Action::DataChanged(path("f")), Probe::Found, 1000).unwrap();
    handler.handle_event(Action::RenameFrom(path("g")), Probe::Found, 1000).unwrap();
    assert_eq!(handler.sweep(3), nothing());
    assert_eq!(handler.pending_update(&path("f")), Some(1000));
    assert_eq!(handler.dangling_since(&path("g")), Some(1000));
}

#[test]
fn sweeps_hand_out_updates_first_and_in_the_order_of_the_events() {
    let mut handler = handler_with_cadence(10);
    handler.handle_event(Action::RenameFrom(path("r1")), Probe::Found, 0).unwrap();
    handler.handle_event(Action::DataChanged(path("u1")), Probe::Found, 1).unwrap();
    handler.handle_event(Action::DataChanged(path("u2")), Probe::Found, 2).unwrap();
    handler.handle_event(Action::RenameFrom(path("r2")), Probe::Found, 3).unwrap();
    handler.handle_event(Action::DataChanged(path("u1")), Probe::Found, 4).unwrap();
    let out = handler.tick(100);
    assert_eq!(
        out.mutations,
        vec![
            Mutation::UpdateFile(path("u2")),
            Mutation::UpdateFile(path("u1")),
            Mutation::Remove(path("r1")),
            Mutation::Remove(path("r2")),
        ]
    );
    assert!(out.notify_changed);
}

#[test]
fn immediate_actions_are_handed_out_at_once() {
    let mut handler = handler_with_cadence(100);
    assert_eq!(
        handler.handle_event(Action::CreateDir(path("d")), Probe::Found, 1),
        Ok(Emission { mutations: vec![Mutation::CreateDir(path("d"))], notify_changed: false })
    );
    assert_eq!(
        handler.handle_event(Action::Remove(path("d")), Probe::Failed, 2),
        Ok(Emission { mutations: vec![Mutation::Remove(path("d"))], notify_changed: true })
    );
    assert_eq!(handler.handle_event(Action::Ignored, Probe::Failed, 3), Ok(nothing()));
    assert_eq!(handler.sweep(10_000), nothing());
}

#[test]
fn missing_metadata_fails_the_event_and_changes_nothing() {
    let mut handler = handler_with_cadence(100);
    let old = path("from");
    handler.handle_event(Action::RenameFrom(old.clone()), Probe::Found, 0).unwrap();
    assert_eq!(
        handler.handle_event(
            Action::RenameBoth { new_path: path("to"), old_path: old.clone() },
            Probe::Failed,
            10,
        ),
        Err(EventError::MetadataUnavailable)
    );
    assert_eq!(handler.dangling_since(&old), Some(0));
    assert_eq!(handler.resolved_at(&old), None);
    assert_eq!(
        handler.handle_event(Action::CreateDir(path("dir")), Probe::Failed, 11),
        Err(EventError::MetadataUnavailable)
    );
    // The handler goes on: the rename-from still times out.
    let out = handler.tick(101);
    assert_eq!(out.mutations, vec![Mutation::Remove(old)]);
}
