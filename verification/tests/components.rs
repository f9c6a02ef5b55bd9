use watch_engine::action::{
    classify, Action, CreateKind, DataChange, EventError, ModifyKind, RawEvent, RawKind,
    RenameMode,
};
use watch_engine::clock::{saturate, Clock};
use watch_engine::debounce::UpdateDebouncer;
use watch_engine::handler::{Probe, WatchHandler};
use watch_engine::mutation::{push_removals, push_updates, Emission, Mutation};
use watch_engine::rename::RenameCorrelator;
use watch_engine::table::PathTable;
use watch_engine::timing::{age_of, Timing, TimingError};

fn text(s: &str) -> String {
    String::from(s)
}

fn raw(kind: RawKind, paths: &[&str]) -> RawEvent {
    RawEvent { kind, paths: paths.iter().map(|p| text(p)).collect() }
}

#[test]
fn age_is_the_difference_and_never_negative() {
    assert_eq!(age_of(10, 3), 7);
    assert_eq!(age_of(3, 3), 0);
    assert_eq!(age_of(3, 10), 0);
    assert_eq!(age_of(u64::MAX, 0), u64::MAX);
}

#[test]
fn windows_follow_from_the_cadence() {
    let timing = Timing::from_cadence(100).unwrap();
    assert_eq!(timing.cadence(), 100);
    assert_eq!(timing.dangling_timeout(), 100);
    assert_eq!(timing.suppression_window(), 100);
    assert_eq!(timing.flush_delay(), 500);
}

#[test]
fn a_cadence_of_zero_is_refused() {
    assert_eq!(Timing::from_cadence(0), Err(TimingError::FlushNotAfterCadence));
}

#[test]
fn a_cadence_whose_flush_delay_does_not_fit_is_refused() {
    let largest: u64 = u64::MAX / 5;
    assert_eq!(Timing::from_cadence(largest).unwrap().flush_delay(), largest * 5);
    assert_eq!(Timing::from_cadence(largest + 1), Err(TimingError::OutOfRange));
    assert_eq!(Timing::from_cadence(u64::MAX), Err(TimingError::OutOfRange));
}

#[test]
fn windows_chosen_one_by_one_need_a_flush_delay_beyond_the_cadence() {
    let timing = Timing::new(10, 20, 30, 11).unwrap();
    assert_eq!(timing.cadence(), 10);
    assert_eq!(timing.dangling_timeout(), 20);
    assert_eq!(timing.suppression_window(), 30);
    assert_eq!(timing.flush_delay(), 11);
    assert_eq!(Timing::new(10, 20, 30, 10), Err(TimingError::FlushNotAfterCadence));
    assert_eq!(Timing::new(10, 20, 30, 0), Err(TimingError::FlushNotAfterCadence));
}

#[test]
fn a_created_file_and_changed_data_are_content_changes() {
    assert_eq!(
        classify(raw(RawKind::Create(CreateKind::File), &["f"])),
        Ok(Action::CreateFile(text("f")))
    );
    assert_eq!(
        classify(raw(RawKind::Modify(ModifyKind::Data(DataChange::Any)), &["f"])),
        Ok(Action::DataChanged(text("f")))
    );
}

#[test]
fn a_created_folder_is_a_new_directory() {
    assert_eq!(
        classify(raw(RawKind::Create(CreateKind::Folder), &["d"])),
        Ok(Action::CreateDir(text("d")))
    );
}

#[test]
fn a_whole_rename_names_the_old_path_first() {
    assert_eq!(
        classify(raw(RawKind::Modify(ModifyKind::Name(RenameMode::Both)), &["a/old.txt", "a/new.txt"])),
        Ok(Action::RenameBoth { new_path: text("a/new.txt"), old_path: text("a/old.txt") })
    );
    assert_eq!(
        classify(raw(
            RawKind::Modify(ModifyKind::Name(RenameMode::Both)),
            &["a/old.txt", "a/new.txt", "a/extra"],
        )),
        Ok(Action::RenameBoth { new_path: text("a/new.txt"), old_path: text("a/old.txt") })
    );
}

#[test]
fn the_first_half_of_a_rename_and_a_removal_name_one_path() {
    assert_eq!(
        classify(raw(RawKind::Modify(ModifyKind::Name(RenameMode::From)), &["g", "h"])),
        Ok(Action::RenameFrom(text("g")))
    );
    assert_eq!(classify(raw(RawKind::Remove, &["g"])), Ok(Action::Remove(text("g"))));
}

#[test]
fn other_kinds_are_ignored_with_or_without_paths() {
    let kinds = vec![
        RawKind::Any,
        RawKind::Access,
        RawKind::Other,
        RawKind::Create(CreateKind::Any),
        RawKind::Create(CreateKind::Other),
        RawKind::Modify(ModifyKind::Any),
        RawKind::Modify(ModifyKind::Other),
        RawKind::Modify(ModifyKind::Metadata),
        RawKind::Modify(ModifyKind::Data(DataChange::Size)),
        RawKind::Modify(ModifyKind::Data(DataChange::Content)),
        RawKind::Modify(ModifyKind::Data(DataChange::Other)),
        RawKind::Modify(ModifyKind::Name(RenameMode::Any)),
        RawKind::Modify(ModifyKind::Name(RenameMode::To)),
        RawKind::Modify(ModifyKind::Name(RenameMode::Other)),
    ];
    for kind in kinds {
        assert_eq!(classify(raw(kind, &[])), Ok(Action::Ignored));
        assert_eq!(classify(raw(kind, &["p", "q"])), Ok(Action::Ignored));
    }
}

#[test]
fn an_event_with_too_few_paths_is_refused() {
    let one_path = vec![
        RawKind::Create(CreateKind::File),
        RawKind::Create(CreateKind::Folder),
        RawKind::Modify(ModifyKind::Data(DataChange::Any)),
        RawKind::Modify(ModifyKind::Name(RenameMode::From)),
        RawKind::Remove,
    ];
    for kind in one_path {
        assert_eq!(classify(raw(kind, &[])), Err(EventError::MissingPath));
    }
    let both = RawKind::Modify(ModifyKind::Name(RenameMode::Both));
    assert_eq!(classify(raw(both, &[])), Err(EventError::MissingPath));
    assert_eq!(classify(raw(both, &["only-old"])), Err(EventError::MissingPath));
}

#[test]
fn metadata_is_asked_for_new_directories_and_new_names() {
    assert_eq!(Action::CreateDir(text("d")).metadata_path(), Some(&text("d")));
    assert_eq!(
        Action::RenameBoth { new_path: text("n"), old_path: text("o") }.metadata_path(),
        Some(&text("n"))
    );
    assert_eq!(Action::CreateFile(text("f")).metadata_path(), None);
    assert_eq!(Action::DataChanged(text("f")).metadata_path(), None);
    assert_eq!(Action::RenameFrom(text("f")).metadata_path(), None);
    assert_eq!(Action::Remove(text("f")).metadata_path(), None);
    assert_eq!(Action::Ignored.metadata_path(), None);
}

#[test]
fn a_table_keeps_one_entry_per_path_with_the_latest_instant() {
    let mut table = PathTable::new();
    assert_eq!(table.len(), 0);
    table.record(text("a"), 1);
    table.record(text("b"), 2);
    table.record(text("a"), 3);
    assert_eq!(table.len(), 2);
    assert!(table.contains(&text("a")));
    assert!(!table.contains(&text("c")));
    assert_eq!(table.stamp(&text("a")), Some(3));
    assert_eq!(table.stamp(&text("b")), Some(2));
    assert_eq!(table.stamp(&text("c")), None);
}

#[test]
fn forgetting_a_path_returns_its_instant_once() {
    let mut table = PathTable::new();
    table.record(text("a"), 1);
    table.record(text("b"), 2);
    assert_eq!(table.forget(&text("a")), Some(1));
    assert_eq!(table.forget(&text("a")), None);
    assert_eq!(table.len(), 1);
    assert_eq!(table.stamp(&text("b")), Some(2));
}

#[test]
fn draining_takes_the_aged_entries_in_the_order_of_their_records() {
    let mut table = PathTable::new();
    table.record(text("a"), 10);
    table.record(text("b"), 20);
    table.record(text("c"), 30);
    table.record(text("a"), 40);
    table.record(text("d"), 15);
    // Ages at 60: b 40, c 30, a 20, d 45.
    assert_eq!(table.drain_aged(60, 30), vec![text("b"), text("c"), text("d")]);
    assert_eq!(table.len(), 1);
    assert_eq!(table.stamp(&text("a")), Some(40));
    assert_eq!(table.drain_aged(60, 30), Vec::<String>::new());
    assert_eq!(table.drain_aged(60, 0), vec![text("a")]);
    assert_eq!(table.len(), 0);
}

#[test]
fn a_debouncer_restarts_the_wait_with_every_event() {
    let mut debouncer = UpdateDebouncer::new();
    debouncer.on_data_event(text("f"), 0);
    debouncer.on_data_event(text("f"), 40);
    assert_eq!(debouncer.len(), 1);
    assert_eq!(debouncer.pending_since(&text("f")), Some(40));
    assert_eq!(debouncer.sweep(89, 50), Vec::<String>::new());
    assert_eq!(debouncer.sweep(90, 50), vec![text("f")]);
    assert_eq!(debouncer.pending_since(&text("f")), None);
    assert_eq!(debouncer.sweep(1000, 50), Vec::<String>::new());
}

#[test]
fn a_correlator_tells_a_late_half_from_a_new_one() {
    let mut correlator = RenameCorrelator::new();
    assert!(!correlator.on_rename_from(text("a"), 5));
    assert_eq!(correlator.dangling_since(&text("a")), Some(5));
    let rename = correlator.on_rename_both(text("b"), text("a"), 9);
    assert_eq!(rename, Mutation::Rename { new_path: text("b"), old_path: text("a") });
    assert_eq!(correlator.dangling_since(&text("a")), None);
    assert_eq!(correlator.resolved_at(&text("a")), Some(9));
    assert!(correlator.on_rename_from(text("a"), 12));
    assert_eq!(correlator.dangling_since(&text("a")), None);
    assert_eq!(correlator.resolved_at(&text("a")), None);
    assert!(!correlator.on_rename_from(text("a"), 13));
    assert_eq!(correlator.dangling_since(&text("a")), Some(13));
}

#[test]
fn a_whole_rename_needs_no_first_half() {
    let mut correlator = RenameCorrelator::new();
    let rename = correlator.on_rename_both(text("new"), text("old"), 1);
    assert_eq!(rename, Mutation::Rename { new_path: text("new"), old_path: text("old") });
    assert_eq!(correlator.resolved_at(&text("old")), Some(1));
    assert_eq!(correlator.dangling_since(&text("new")), None);
}

#[test]
fn dangling_paths_are_given_up_after_more_than_the_age() {
    let mut correlator = RenameCorrelator::new();
    correlator.on_rename_from(text("a"), 0);
    correlator.on_rename_from(text("b"), 5);
    assert_eq!(correlator.sweep_dangling_renames(10, 10), Vec::<String>::new());
    assert_eq!(correlator.sweep_dangling_renames(11, 10), vec![text("a")]);
    assert_eq!(correlator.dangling_since(&text("a")), None);
    assert_eq!(correlator.dangling_since(&text("b")), Some(5));
    assert_eq!(correlator.sweep_dangling_renames(11, 10), Vec::<String>::new());
}

#[test]
fn nothing_is_older_than_the_longest_age() {
    let mut correlator = RenameCorrelator::new();
    correlator.on_rename_from(text("a"), 0);
    assert_eq!(correlator.sweep_dangling_renames(u64::MAX, u64::MAX), Vec::<String>::new());
    assert_eq!(correlator.dangling_since(&text("a")), Some(0));
    assert_eq!(correlator.sweep_dangling_renames(u64::MAX, u64::MAX - 1), vec![text("a")]);
}

#[test]
fn markers_are_dropped_at_the_age() {
    let mut correlator = RenameCorrelator::new();
    correlator.on_rename_both(text("n1"), text("o1"), 0);
    correlator.on_rename_both(text("n2"), text("o2"), 5);
    correlator.sweep_resolved_markers(9, 10);
    assert_eq!(correlator.resolved_at(&text("o1")), Some(0));
    correlator.sweep_resolved_markers(10, 10);
    assert_eq!(correlator.resolved_at(&text("o1")), None);
    assert_eq!(correlator.resolved_at(&text("o2")), Some(5));
}

#[test]
fn mutations_are_appended_in_the_order_of_the_paths() {
    let mut mutations = vec![Mutation::CreateDir(text("d"))];
    push_updates(&mut mutations, vec![text("a"), text("b")]);
    push_removals(&mut mutations, vec![text("c")]);
    push_updates(&mut mutations, vec![]);
    assert_eq!(
        mutations,
        vec![
            Mutation::CreateDir(text("d")),
            Mutation::UpdateFile(text("a")),
            Mutation::UpdateFile(text("b")),
            Mutation::Remove(text("c")),
        ]
    );
}

#[test]
fn emissions_are_built_as_asked() {
    assert_eq!(Emission::nothing(), Emission { mutations: vec![], notify_changed: false });
    assert_eq!(
        Emission::single(Mutation::Remove(text("x")), true),
        Emission { mutations: vec![Mutation::Remove(text("x"))], notify_changed: true }
    );
}

#[test]
fn counts_of_nanoseconds_are_cut_at_the_last_instant() {
    assert_eq!(saturate(0), 0);
    assert_eq!(saturate(12_345), 12_345);
    assert_eq!(saturate(u64::MAX as u128), u64::MAX);
    assert_eq!(saturate(u64::MAX as u128 + 1), u64::MAX);
    assert_eq!(saturate(u128::MAX), u64::MAX);
}

#[test]
fn a_clock_does_not_run_backwards() {
    let clock = Clock::start();
    let mut before: u64 = clock.now();
    let mut round: u32 = 0;
    while round < 1000 {
        let now: u64 = clock.now();
        assert!(now >= before);
        before = now;
        round += 1;
    }
}

#[test]
fn a_handler_on_a_clock_flushes_once_the_delay_has_passed() {
    let clock = Clock::start();
    // One microsecond of cadence, five of flush delay.
    let timing = Timing::from_cadence(1_000).unwrap();
    let (started, mut handler) = WatchHandler::start(timing, &clock);
    assert_eq!(handler.last_check(), started);
    let f = text("f");
    let (at, out) = handler.handle_event_now(&clock, Action::DataChanged(f.clone()), Probe::Found);
    assert_eq!(out, Ok(Emission::nothing()));
    assert!(at >= started);
    assert_eq!(handler.pending_update(&f), Some(at));
    let mut updates: u32 = 0;
    let mut flushed_at: u64 = 0;
    let mut rounds: u64 = 0;
    while updates == 0 && rounds < 2_000_000_000 {
        let (now, out) = handler.tick_now(&clock);
        assert!(now >= at);
        for m in &out.mutations {
            assert_eq!(*m, Mutation::UpdateFile(f.clone()));
            assert!(out.notify_changed);
            updates += 1;
            flushed_at = now;
        }
        rounds += 1;
    }
    assert_eq!(updates, 1);
    assert!(flushed_at - at >= 5_000);
    assert_eq!(handler.pending_update(&f), None);
    assert_eq!(handler.timing(), timing);
}
