use image_drift_tracker::diff::{classify_change, compute_diff, metadata_equal, DriftKind};
use image_drift_tracker::path::FsPath;
use image_drift_tracker::scanner::{FileEntry, FileType};
use image_drift_tracker::snapshot::Snapshot;

fn p(s: &str) -> FsPath {
    FsPath::parse(s)
}

fn file(mode: u32, uid: u32, hash: &str) -> FileEntry {
    FileEntry { file_type: FileType::File, mode, uid, gid: 0, size: 10, hash: Some(hash.to_string()), symlink_target: None }
}

fn link(target: &str) -> FileEntry {
    FileEntry { file_type: FileType::Symlink, mode: 0o777, uid: 0, gid: 0, size: 4, hash: None, symlink_target: Some(target.to_string()) }
}

fn snap(items: Vec<(&str, FileEntry)>) -> Snapshot {
    Snapshot::from_entries(items.into_iter().map(|(k, v)| (p(k), v)).collect())
}

#[test]
fn diff_reports_each_kind_in_path_order() {
    let baseline = snap(vec![
        ("/etc/removed", file(1, 0, "r")),
        ("/etc/content", file(1, 0, "old")),
        ("/etc/meta", file(1, 0, "same")),
        ("/etc/link", link("a")),
        ("/etc/type", file(1, 0, "t")),
        ("/etc/same", file(1, 0, "s")),
        ("/etc/sizeonly", file(1, 0, "z")),
    ]);
    let mut sized = file(1, 0, "z");
    sized.size = 999;
    let live = snap(vec![
        ("/etc/added", file(1, 0, "n")),
        ("/etc/content", file(1, 0, "new")),
        ("/etc/meta", file(2, 0, "same")),
        ("/etc/link", link("b")),
        ("/etc/type", link("t")),
        ("/etc/same", file(1, 0, "s")),
        ("/etc/sizeonly", sized),
    ]);
    let d = compute_diff(&baseline, &live);
    let got: Vec<(String, DriftKind)> = d.iter().map(|e| (e.path.to_string(), e.kind)).collect();
    assert_eq!(
        got,
        vec![
            ("/etc/added".to_string(), DriftKind::Added),
            ("/etc/content".to_string(), DriftKind::ContentChanged),
            ("/etc/link".to_string(), DriftKind::SymlinkTargetChanged),
            ("/etc/meta".to_string(), DriftKind::MetadataChanged),
            ("/etc/removed".to_string(), DriftKind::Removed),
            ("/etc/type".to_string(), DriftKind::TypeChanged),
        ]
    );
    assert!(d[0].before.is_none());
    assert_eq!(d[0].after.as_ref().unwrap().hash.as_deref(), Some("n"));
    assert_eq!(d[4].before.as_ref().unwrap().hash.as_deref(), Some("r"));
    assert!(d[4].after.is_none());
    assert_eq!(d[3].before.as_ref().unwrap().mode, 1);
    assert_eq!(d[3].after.as_ref().unwrap().mode, 2);
}

#[test]
fn snapshot_against_itself_has_no_drift() {
    let s = snap(vec![("/a", file(1, 0, "x")), ("/b", link("c"))]);
    assert!(compute_diff(&s, &s).is_empty());
    assert!(compute_diff(&Snapshot::new(), &Snapshot::new()).is_empty());
}

#[test]
fn swapping_sides_swaps_added_and_removed() {
    let a = snap(vec![("/only-a", file(1, 0, "x")), ("/both", file(1, 0, "1"))]);
    let b = snap(vec![("/only-b", file(1, 0, "y")), ("/both", file(1, 0, "2"))]);
    let ab: Vec<(String, DriftKind)> = compute_diff(&a, &b).iter().map(|e| (e.path.to_string(), e.kind)).collect();
    let ba: Vec<(String, DriftKind)> = compute_diff(&b, &a).iter().map(|e| (e.path.to_string(), e.kind)).collect();
    assert_eq!(ab, vec![
        ("/both".to_string(), DriftKind::ContentChanged),
        ("/only-a".to_string(), DriftKind::Removed),
        ("/only-b".to_string(), DriftKind::Added),
    ]);
    assert_eq!(ba, vec![
        ("/both".to_string(), DriftKind::ContentChanged),
        ("/only-a".to_string(), DriftKind::Added),
        ("/only-b".to_string(), DriftKind::Removed),
    ]);
}

#[test]
fn classification_order() {
    assert_eq!(classify_change(&file(1, 0, "a"), &link("a")), DriftKind::TypeChanged);
    assert_eq!(classify_change(&file(1, 0, "a"), &file(2, 0, "b")), DriftKind::ContentChanged);
    assert_eq!(classify_change(&file(1, 0, "a"), &file(2, 0, "a")), DriftKind::MetadataChanged);
    assert_eq!(classify_change(&file(1, 0, "a"), &file(1, 0, "a")), DriftKind::MetadataChanged);
    assert_eq!(classify_change(&link("a"), &link("b")), DriftKind::SymlinkTargetChanged);
    assert!(metadata_equal(&file(1, 0, "a"), &file(1, 0, "b")));
    assert!(!metadata_equal(&file(1, 0, "a"), &file(1, 7, "a")));
}

#[test]
fn owner_change_is_metadata_drift() {
    let a = snap(vec![("/x", file(1, 0, "h"))]);
    let b = snap(vec![("/x", file(1, 1000, "h"))]);
    let d = compute_diff(&a, &b);
    assert_eq!(d.len(), 1);
    assert_eq!(d[0].kind, DriftKind::MetadataChanged);
}
