use image_drift_tracker::baseline::{Baseline, BaselineKind};
use image_drift_tracker::diff::{DiffEntry, DriftKind};
use image_drift_tracker::path::FsPath;
use image_drift_tracker::report::{build_report, default_report_path, ReportItem, Summary};
use image_drift_tracker::scanner::{FileEntry, FileType};

fn entry(path: &str, kind: DriftKind) -> DiffEntry {
    let f = FileEntry { file_type: FileType::File, mode: 0o644, uid: 0, gid: 0, size: 1, hash: Some("h".to_string()), symlink_target: None };
    let (before, after) = match kind {
        DriftKind::Added => (None, Some(f)),
        DriftKind::Removed => (Some(f), None),
        _ => (Some(f.clone()), Some(f)),
    };
    DiffEntry { path: FsPath::parse(path), kind, before, after }
}

fn item(kind: DriftKind) -> ReportItem {
    ReportItem { path: "/x".to_string(), kind, before: None, after: None }
}

#[test]
fn summary_counts_each_kind() {
    let items = vec![
        item(DriftKind::Added),
        item(DriftKind::Added),
        item(DriftKind::Removed),
        item(DriftKind::TypeChanged),
        item(DriftKind::MetadataChanged),
        item(DriftKind::Added),
    ];
    let s = Summary::from_items(&items);
    assert_eq!((s.added, s.removed, s.content_changed, s.metadata_changed, s.symlink_target_changed, s.type_changed), (3, 1, 0, 1, 0, 1));
    assert_eq!(s.added + s.removed + s.content_changed + s.metadata_changed + s.symlink_target_changed + s.type_changed, items.len());
    let empty = Summary::from_items(&[]);
    assert_eq!(empty.added + empty.removed + empty.type_changed, 0);
}

#[test]
fn report_lists_items_with_string_paths() {
    let baseline = Baseline { kind: BaselineKind::Dir, root: FsPath::parse("/srv/base/"), root_text: "/srv/base/".to_string() };
    let entries = vec![entry("/etc/a", DriftKind::Added), entry("/etc/b", DriftKind::ContentChanged), entry("/usr/c", DriftKind::Removed)];
    let r = build_report(&baseline, &entries, 1700000000);
    assert_eq!(r.generated_at, 1700000000);
    assert_eq!(r.baseline.kind, "dir");
    assert_eq!(r.baseline.root, "/srv/base/");
    assert_eq!(r.items.len(), 3);
    assert_eq!(r.items[0].path, "/etc/a");
    assert_eq!(r.items[1].kind, DriftKind::ContentChanged);
    assert!(r.items[0].before.is_none());
    assert!(r.items[2].after.is_none());
    assert_eq!(r.summary.added, 1);
    assert_eq!(r.summary.content_changed, 1);
    assert_eq!(r.summary.removed, 1);
}

#[test]
fn report_path_prefers_state_home() {
    let s = |v: &str| Some(v.to_string());
    assert_eq!(default_report_path(&s("/var/state"), &s("/home/u")).to_string(), "/var/state/image-drift-tracker/drift.json");
    assert_eq!(default_report_path(&None, &s("/home/u")).to_string(), "/home/u/.local/state/image-drift-tracker/drift.json");
    assert_eq!(default_report_path(&None, &None).to_string(), "drift.json");
}
