use mediaqa::watch::{
    check_watch_path, export_ready_message, files_ready_after_debounce, is_media_watch_target,
    is_relevant_event, note_watch_path, take_ready, watch_started_message, PendingWatch,
    PendingWatches, WatchEventKind, WatchOptions, WatchSetupError,
};

#[test]
fn is_media_watch_target_requires_media_extension() {
    assert!(is_media_watch_target("clip.mp4", true));
    assert!(!is_media_watch_target("notes.txt", true));
}

#[test]
fn files_ready_after_debounce_waits_for_stable_window() {
    let started = 1_000_000u64;
    let mut pending = PendingWatches::new();
    pending.insert("clip.mp4", PendingWatch { last_size: 1024, stable_since: Some(started) });

    assert!(files_ready_after_debounce(&pending, started + 4_000, 5_000).is_empty());

    let ready = files_ready_after_debounce(&pending, started + 6_000, 5_000);
    assert_eq!(ready, vec!["clip.mp4".to_string()]);
}

#[test]
fn zero_byte_files_are_not_ready() {
    let now = 1_000_000u64;
    let mut pending = PendingWatches::new();
    pending.insert("incomplete.mp4", PendingWatch { last_size: 0, stable_since: Some(now) });

    assert!(files_ready_after_debounce(&pending, now + 10_000, 1_000).is_empty());
}

#[test]
fn directories_are_not_watch_targets() {
    assert!(!is_media_watch_target("clip.mp4", false));
}

#[test]
fn ready_files_come_out_sorted_and_are_taken_off() {
    let mut pending = PendingWatches::new();
    pending.insert("b.mp4", PendingWatch { last_size: 5, stable_since: Some(0) });
    pending.insert("a.mp4", PendingWatch { last_size: 5, stable_since: Some(0) });
    pending.insert("c.mp4", PendingWatch { last_size: 5, stable_since: None });
    let ready = take_ready(&mut pending, 10_000, 5_000);
    assert_eq!(ready, vec!["a.mp4".to_string(), "b.mp4".to_string()]);
    assert!(pending.get("a.mp4").is_none());
    assert!(pending.get("c.mp4").is_some());
}

#[test]
fn events_settle_a_growing_file() {
    let mut pending = PendingWatches::new();
    note_watch_path(&mut pending, "drop/clip.mov", true, Some(100), 0);
    assert_eq!(pending.get("drop/clip.mov"), Some(PendingWatch { last_size: 100, stable_since: Some(0) }));
    note_watch_path(&mut pending, "drop/clip.mov", true, Some(200), 1_000);
    assert_eq!(pending.get("drop/clip.mov"), Some(PendingWatch { last_size: 200, stable_since: None }));
    note_watch_path(&mut pending, "drop/clip.mov", true, Some(200), 2_000);
    assert_eq!(pending.get("drop/clip.mov"), Some(PendingWatch { last_size: 200, stable_since: Some(2_000) }));
    note_watch_path(&mut pending, "drop/clip.mov", true, Some(200), 3_000);
    assert_eq!(pending.get("drop/clip.mov"), Some(PendingWatch { last_size: 200, stable_since: Some(2_000) }));
    note_watch_path(&mut pending, "drop/notes.txt", true, Some(200), 3_000);
    assert!(pending.get("drop/notes.txt").is_none());
    assert!(files_ready_after_debounce(&pending, 6_999, 5_000).is_empty());
    assert_eq!(files_ready_after_debounce(&pending, 7_000, 5_000), vec!["drop/clip.mov".to_string()]);
}

#[test]
fn only_create_modify_and_any_events_count() {
    assert!(is_relevant_event(WatchEventKind::Create));
    assert!(is_relevant_event(WatchEventKind::Modify));
    assert!(is_relevant_event(WatchEventKind::Any));
    assert!(!is_relevant_event(WatchEventKind::Remove));
    assert!(!is_relevant_event(WatchEventKind::Access));
}

#[test]
fn watch_messages() {
    assert_eq!(
        watch_started_message("/in", "youtube", 5_000),
        "Watching /in for media drops (profile: youtube, debounce: 5s)"
    );
    assert_eq!(
        watch_started_message("/in", "youtube", 2_500),
        "Watching /in for media drops (profile: youtube, debounce: 2s)"
    );
    assert_eq!(export_ready_message("/in/a.mp4"), "New export ready: /in/a.mp4");
    assert_eq!(WatchOptions::default().debounce_ms, 5_000);
}

#[test]
fn watch_path_checks() {
    assert!(check_watch_path("/in", true, true).is_ok());
    match check_watch_path("/in", false, false) {
        Err(e) => assert_eq!(e.message(), "watch path does not exist: /in"),
        Ok(()) => panic!("expected an error"),
    }
    match check_watch_path("/in", true, false) {
        Err(e) => assert_eq!(e.message(), "watch path must be a directory: /in"),
        Ok(()) => panic!("expected an error"),
    }
    assert_eq!(WatchSetupError::NoProfiles.message(), "at least one profile is required");
}
