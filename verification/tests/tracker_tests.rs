use repo_graph::tracker::{FileTracker, ObservedFile};
use repo_graph::watcher::default_ignore_patterns;

fn tracker() -> FileTracker {
    FileTracker::new(
        "repo".to_string(),
        "repo-id".to_string(),
        "owner-id".to_string(),
    )
}

#[test]
fn update_records_new_file() {
    let mut t = tracker();
    let changed = t.update_file(&"repo/a.ts".to_string(), 10, 1000, b"hello");
    assert!(changed);
    assert!(t.get_file_hash(&"repo/a.ts".to_string()).is_some());
}

#[test]
fn touch_without_edit_is_not_a_change() {
    let mut t = tracker();
    let path = "repo/a.ts".to_string();
    t.update_file(&path, 5, 1000, b"hello");
    // Same content, newer timestamp: metadata drifts, hash agrees.
    assert!(!t.has_file_changed(&path, 5, 2000, b"hello"));
    // Identical metadata takes the fast path.
    assert!(!t.has_file_changed(&path, 5, 1000, b"hello"));
}

#[test]
fn single_byte_edit_is_a_change() {
    let mut t = tracker();
    let path = "repo/a.ts".to_string();
    t.update_file(&path, 5, 1000, b"hello");
    assert!(t.has_file_changed(&path, 5, 2000, b"hellp"));
    assert!(t.has_file_changed(&path, 6, 2000, b"hello!"));
}

#[test]
fn untracked_path_counts_as_changed() {
    let t = tracker();
    assert!(t.has_file_changed(&"repo/new.ts".to_string(), 1, 1, b"x"));
}

#[test]
fn hash_is_stable_across_trackers() {
    let mut t1 = tracker();
    let mut t2 = tracker();
    let path = "repo/a.ts".to_string();
    t1.update_file(&path, 5, 1000, b"hello");
    t2.update_file(&path, 5, 9999, b"hello");
    let h1 = t1.get_file_hash(&path).unwrap();
    let h2 = t2.get_file_hash(&path).unwrap();
    assert_eq!(h1, h2);
    assert_eq!(h1.len(), 64);
}

#[test]
fn different_content_gives_different_hash() {
    let mut t = tracker();
    let a = "repo/a.ts".to_string();
    let b = "repo/b.ts".to_string();
    t.update_file(&a, 5, 1000, b"hello");
    t.update_file(&b, 5, 1000, b"world");
    assert_ne!(t.get_file_hash(&a).unwrap(), t.get_file_hash(&b).unwrap());
}

#[test]
fn empty_content_hash_is_the_known_digest() {
    let mut t = tracker();
    let path = "repo/empty.ts".to_string();
    t.update_file(&path, 0, 1, b"");
    assert_eq!(
        t.get_file_hash(&path).unwrap(),
        "af1349b9f5f9a1a6a0404dea36dcc9499bcb25c9adc112b7cc9a93cae41f3262"
    );
}

#[test]
fn remove_evicts_fingerprint() {
    let mut t = tracker();
    let path = "repo/a.ts".to_string();
    t.update_file(&path, 5, 1000, b"hello");
    t.remove_file(&path);
    assert!(t.get_file_hash(&path).is_none());
    assert!(t.get_tracked_files().is_empty());
}

#[test]
fn rename_moves_fingerprint_without_recomputation() {
    let mut t = tracker();
    let from = "repo/a.ts".to_string();
    let to = "repo/b.ts".to_string();
    t.update_file(&from, 5, 1000, b"hello");
    let h = t.get_file_hash(&from).unwrap();
    t.rename_file(&from, &to);
    assert!(t.get_file_hash(&from).is_none());
    assert_eq!(t.get_file_hash(&to).unwrap(), h);
}

#[test]
fn rename_of_untracked_path_is_inert() {
    let mut t = tracker();
    t.rename_file(&"repo/a.ts".to_string(), &"repo/b.ts".to_string());
    assert!(t.get_tracked_files().is_empty());
}

#[test]
fn scan_reports_changed_paths_and_skips_ignored() {
    let mut t = tracker();
    let files = vec![
        ObservedFile {
            path: "repo/a.ts".to_string(),
            size: 5,
            modified: 1000,
            content: b"hello".to_vec(),
        },
        ObservedFile {
            path: "repo/node_modules/dep/x.ts".to_string(),
            size: 3,
            modified: 1000,
            content: b"dep".to_vec(),
        },
    ];
    let patterns = default_ignore_patterns();
    let changed = t.scan_repository(&files, &patterns);
    assert_eq!(changed, vec!["repo/a.ts".to_string()]);
    // The ignored path was never fingerprinted.
    assert!(t
        .get_file_hash(&"repo/node_modules/dep/x.ts".to_string())
        .is_none());
    assert_eq!(t.get_tracked_files(), vec!["repo/a.ts".to_string()]);
    // Re-scanning the unchanged listing confirms nothing.
    let changed_again = t.scan_repository(&files, &patterns);
    assert!(changed_again.is_empty());
}
