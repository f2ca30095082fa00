use media_catalog::watcher::{is_content_change, ChangeKind, ChangedPath, Debouncer, FileWatcher, SyncGuard, WatchError, WatcherState, DEFAULT_DEBOUNCE_MS};

#[test]
fn burst_triggers_at_most_one_pass() {
    let mut d = Debouncer::new(DEFAULT_DEBOUNCE_MS, 0);
    let mut fired = 0;
    for k in 0..50u64 {
        if d.on_event(10_000 + k * 2) {
            fired += 1;
        }
        if d.on_tick(10_000 + k * 2) {
            fired += 1;
        }
    }
    assert_eq!(fired, 1);
    assert!(!d.on_tick(14_000));
    assert!(!d.on_event(14_500));
    assert!(d.on_tick(15_000));
}

#[test]
fn events_right_after_start_wait_for_the_window() {
    let mut d = Debouncer::new(5000, 1000);
    assert!(!d.on_event(1200));
    assert!(!d.on_tick(5999));
    assert!(d.on_tick(6000));
    assert!(!d.on_tick(20000));
}

#[test]
fn watcher_life_cycle() {
    let mut w = FileWatcher::new();
    assert_eq!(w.start(&vec![true, false, false]), Err(WatchError::MissingPath(1)));
    assert_eq!(w.state, WatcherState::Stopped);
    assert_eq!(w.start(&vec![true, true]), Ok(()));
    assert!(!w.is_watching());
    w.confirm_running();
    assert!(w.is_watching());
    assert!(w.status().is_watching);
    assert_eq!(w.start(&vec![true]), Err(WatchError::AlreadyRunning));
    assert!(w.stop());
    assert!(!w.stop());
    assert!(!w.is_watching());
}

#[test]
fn content_changes() {
    let p = |is_dir: bool, name: &str| ChangedPath { is_dir, name: name.to_string() };
    assert!(is_content_change(ChangeKind::Create, &vec![p(false, "a.txt"), p(false, "b.mp4")]));
    assert!(is_content_change(ChangeKind::Remove, &vec![p(true, "dir")]));
    assert!(!is_content_change(ChangeKind::Modify, &vec![p(false, "a.txt")]));
    assert!(!is_content_change(ChangeKind::Other, &vec![p(false, "a.mp4")]));
}

#[test]
fn single_flight_guard() {
    let mut g = SyncGuard::new();
    assert!(g.try_begin());
    assert!(!g.try_begin());
    g.finish();
    assert!(g.try_begin());
}
