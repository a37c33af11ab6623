//! The bounded breadth-first scanner on synthetic directory listings.

use grab::scan::{should_ignore, DirScanner, ScanEntry, MAX_SCANNED_PATHS};

fn file_entry(dir: &str, name: &str) -> ScanEntry {
    ScanEntry {
        name: name.to_string(),
        path: format!("{}/{}", dir, name),
        is_file: true,
        is_dir: false,
    }
}

fn dir_entry(dir: &str, name: &str) -> ScanEntry {
    ScanEntry {
        name: name.to_string(),
        path: format!("{}/{}", dir, name),
        is_file: false,
        is_dir: true,
    }
}

#[test]
fn ignored_names_are_recognised() {
    assert!(should_ignore("node_modules"));
    assert!(should_ignore("target"));
    assert!(should_ignore(".git"));
    assert!(should_ignore("__pycache__"));
    assert!(should_ignore("vendor"));
    assert!(!should_ignore("src"));
    assert!(!should_ignore("targets"));
    assert!(!should_ignore("git"));
}

#[test]
fn ignored_directories_contribute_nothing() {
    let mut s = DirScanner::new("/host".to_string());
    let root = s.next_dir().unwrap();
    assert_eq!(root, "/host");
    s.record_entries(
        &root,
        &vec![
            dir_entry("/host", "src"),
            dir_entry("/host", "target"),
            dir_entry("/host", ".git"),
            file_entry("/host", "Cargo.toml"),
        ],
    );
    // only the clean subdirectory is ever visited
    let next = s.next_dir().unwrap();
    assert_eq!(next, "/host/src");
    s.record_entries(&next, &vec![file_entry("/host/src", "main.rs")]);
    assert!(s.next_dir().is_none());
    assert_eq!(s.files, vec!["Cargo.toml".to_string(), "src/main.rs".to_string()]);
}

#[test]
fn ignored_file_names_are_not_recorded() {
    let mut s = DirScanner::new("/host".to_string());
    let root = s.next_dir().unwrap();
    s.record_entries(
        &root,
        &vec![file_entry("/host", "vendor"), file_entry("/host", "notes.txt")],
    );
    assert_eq!(s.files, vec!["notes.txt".to_string()]);
}

#[test]
fn scan_never_exceeds_the_path_cap() {
    let mut s = DirScanner::new("/host".to_string());
    let root = s.next_dir().unwrap();
    let mut entries = Vec::new();
    for i in 0..1500 {
        entries.push(file_entry("/host", &format!("f{}.txt", i)));
    }
    s.record_entries(&root, &entries);
    assert_eq!(s.files.len(), MAX_SCANNED_PATHS);
    // once the cap is reached the queue is no longer served
    assert!(s.next_dir().is_none());
}

#[test]
fn mount_prefix_is_stripped_from_recorded_paths() {
    let mut s = DirScanner::new("/host".to_string());
    let root = s.next_dir().unwrap();
    s.record_entries(&root, &vec![file_entry("/host", "README.md")]);
    assert_eq!(s.files, vec!["README.md".to_string()]);
}

#[test]
fn traversal_is_breadth_first() {
    let mut s = DirScanner::new("/host".to_string());
    let root = s.next_dir().unwrap();
    s.record_entries(&root, &vec![dir_entry("/host", "a"), dir_entry("/host", "b")]);
    let a = s.next_dir().unwrap();
    assert_eq!(a, "/host/a");
    s.record_entries(&a, &vec![dir_entry("/host/a", "deep")]);
    // the sibling comes before the grandchild
    assert_eq!(s.next_dir().unwrap(), "/host/b");
}
