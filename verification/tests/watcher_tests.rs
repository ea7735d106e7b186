use repo_graph::watcher::{
    default_ignore_patterns, should_ignore, FileWatcherSystem, FsEvent, FsEventKind, PendingChanges,
    WatchAction, DEBOUNCE_MILLIS,
};

#[test]
fn ignore_rules_cover_denylist_and_hidden_segments() {
    let patterns = default_ignore_patterns();
    assert!(should_ignore(
        &"repo/node_modules/x/y.ts".to_string(),
        &patterns
    ));
    assert!(should_ignore(&"repo/.hidden/file.ts".to_string(), &patterns));
    assert!(should_ignore(&".env".to_string(), &patterns));
    assert!(!should_ignore(&"repo/src/index.ts".to_string(), &patterns));
}

#[test]
fn debounce_coalesces_bursts_to_one_call() {
    let mut w = FileWatcherSystem::new("repo".to_string());
    w.start();
    let path = "repo/a.ts".to_string();
    for t in [1000u64, 1100, 1200] {
        let actions = w.handle_event(
            &FsEvent {
                kind: FsEventKind::Modify,
                paths: vec![path.clone()],
            },
            t,
        );
        assert!(actions.is_empty());
    }
    // Still inside the window after the last raw event: nothing stable.
    assert!(w.take_stabilized(1200 + DEBOUNCE_MILLIS - 1).is_empty());
    // One window after the last sighting: exactly one stabilized path.
    let stable = w.take_stabilized(1200 + DEBOUNCE_MILLIS);
    assert_eq!(stable, vec![path.clone()]);
    // And it was consumed: the next sweep finds nothing.
    assert!(w.take_stabilized(5000).is_empty());
}

#[test]
fn remove_bypasses_debouncing() {
    let mut w = FileWatcherSystem::new("repo".to_string());
    w.start();
    let actions = w.handle_event(
        &FsEvent {
            kind: FsEventKind::Remove,
            paths: vec!["repo/a.ts".to_string()],
        },
        1000,
    );
    assert_eq!(actions.len(), 1);
    match &actions[0] {
        WatchAction::RemoveFile(p) => assert_eq!(p, "repo/a.ts"),
        _ => panic!("expected a removal action"),
    }
    assert!(w.take_stabilized(u64::MAX).is_empty());
}

#[test]
fn rename_pairs_bypass_debouncing() {
    let mut w = FileWatcherSystem::new("repo".to_string());
    let actions = w.handle_event(
        &FsEvent {
            kind: FsEventKind::ModifyName,
            paths: vec!["repo/a.ts".to_string(), "repo/b.ts".to_string()],
        },
        1000,
    );
    assert_eq!(actions.len(), 1);
    match &actions[0] {
        WatchAction::RenameFile(from, to) => {
            assert_eq!(from, "repo/a.ts");
            assert_eq!(to, "repo/b.ts");
        }
        _ => panic!("expected a rename action"),
    }
}

#[test]
fn rename_to_ignored_target_is_dropped() {
    let mut w = FileWatcherSystem::new("repo".to_string());
    let actions = w.handle_event(
        &FsEvent {
            kind: FsEventKind::ModifyName,
            paths: vec![
                "repo/a.ts".to_string(),
                "repo/node_modules/a.ts".to_string(),
            ],
        },
        1000,
    );
    assert!(actions.is_empty());
}

#[test]
fn events_for_ignored_paths_are_inert() {
    let mut w = FileWatcherSystem::new("repo".to_string());
    w.start();
    let actions = w.handle_event(
        &FsEvent {
            kind: FsEventKind::Modify,
            paths: vec!["repo/node_modules/dep/x.ts".to_string()],
        },
        1000,
    );
    assert!(actions.is_empty());
    assert!(w.take_stabilized(u64::MAX).is_empty());
    let actions = w.handle_event(
        &FsEvent {
            kind: FsEventKind::Remove,
            paths: vec!["repo/.git/config".to_string()],
        },
        1000,
    );
    assert!(actions.is_empty());
}

#[test]
fn start_and_stop_are_idempotent() {
    let mut w = FileWatcherSystem::new("repo".to_string());
    w.stop();
    w.start();
    w.start();
    w.stop();
    w.stop();
}

#[test]
fn pending_table_keeps_unstable_entries() {
    let mut p = PendingChanges::new();
    p.record_change(&"a".to_string(), 100);
    p.record_change(&"b".to_string(), 400);
    let stable = p.take_stable(450, 300);
    assert_eq!(stable, vec!["a".to_string()]);
    let stable = p.take_stable(700, 300);
    assert_eq!(stable, vec!["b".to_string()]);
}
