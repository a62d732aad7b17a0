use image_drift_tracker::path::FsPath;
use image_drift_tracker::scanner::{FileEntry, FileType};
use image_drift_tracker::snapshot::Snapshot;

fn p(s: &str) -> FsPath {
    FsPath::parse(s)
}

fn file(mode: u32, hash: &str) -> FileEntry {
    FileEntry {
        file_type: FileType::File,
        mode,
        uid: 0,
        gid: 0,
        size: 1,
        hash: Some(hash.to_string()),
        symlink_target: None,
    }
}

#[test]
fn insert_then_get_gives_back_the_entry() {
    let mut s = Snapshot::new();
    assert!(s.get(&p("/a")).is_none());
    s.insert(p("/b"), file(1, "x"));
    s.insert(p("/a"), file(2, "y"));
    assert_eq!(s.get(&p("/a")).unwrap().mode, 2);
    assert_eq!(s.get(&p("/b")).unwrap().mode, 1);
    assert!(s.get(&p("/c")).is_none());
}

#[test]
fn insert_replaces_an_existing_path() {
    let mut s = Snapshot::new();
    s.insert(p("/a"), file(1, "x"));
    s.insert(p("/a/"), file(5, "z"));
    assert_eq!(s.entry_count(), 1);
    assert_eq!(s.get(&p("/a")).unwrap().mode, 5);
    assert_eq!(s.get(&p("/a")).unwrap().hash.as_deref(), Some("z"));
}

#[test]
fn entries_come_in_path_order() {
    let mut s = Snapshot::new();
    for name in ["/z", "/a/b", "/a", "/m", "/a-b"] {
        s.insert(p(name), file(0, name));
    }
    let n = s.entry_count();
    let order: Vec<String> = (0..n).map(|i| s.entry_at(i).0.to_string()).collect();
    assert_eq!(order, vec!["/a", "/a/b", "/a-b", "/m", "/z"]);
}

#[test]
fn from_entries_keeps_the_later_of_two_pairs() {
    let s = Snapshot::from_entries(vec![(p("/a"), file(1, "x")), (p("/b"), file(2, "y")), (p("/a"), file(3, "z"))]);
    assert_eq!(s.entry_count(), 2);
    assert_eq!(s.get(&p("/a")).unwrap().mode, 3);
    assert_eq!(s.get(&p("/b")).unwrap().mode, 2);
}
