use image_drift_tracker::diff::{DiffEntry, DriftKind};
use image_drift_tracker::output::{
    diff_headers, format_item, render_unified_diff, summary_lines, unified_diff_targets, use_color, DiffWriteError,
};
use image_drift_tracker::path::FsPath;
use image_drift_tracker::report::{BaselineInfo, Report, ReportItem, Summary};
use image_drift_tracker::scanner::{FileEntry, FileType};
use image_drift_tracker::text::decimal_string;

fn item(path: &str, kind: DriftKind) -> ReportItem {
    ReportItem { path: path.to_string(), kind, before: None, after: None }
}

fn report(items: Vec<ReportItem>) -> Report {
    let summary = Summary::from_items(&items);
    Report { generated_at: 0, baseline: BaselineInfo { kind: "dir".to_string(), root: "/b".to_string() }, summary, items }
}

#[test]
fn color_follows_flag_and_environment() {
    assert!(use_color(false, false));
    assert!(!use_color(true, false));
    assert!(!use_color(false, true));
    assert!(!use_color(true, true));
}

#[test]
fn item_lines_plain_and_colored() {
    assert_eq!(format_item(&item("/etc/a", DriftKind::Added), false), "+ /etc/a");
    assert_eq!(format_item(&item("/etc/a", DriftKind::Removed), false), "- /etc/a");
    assert_eq!(format_item(&item("/etc/a", DriftKind::ContentChanged), false), "~ /etc/a");
    assert_eq!(format_item(&item("/etc/a", DriftKind::MetadataChanged), false), "! /etc/a");
    assert_eq!(format_item(&item("/etc/a", DriftKind::SymlinkTargetChanged), false), "@ /etc/a");
    assert_eq!(format_item(&item("/etc/a", DriftKind::TypeChanged), false), "# /etc/a");
    assert_eq!(format_item(&item("/x", DriftKind::Added), true), "\u{1b}[32m+\u{1b}[39m /x");
    assert_eq!(format_item(&item("/x", DriftKind::Removed), true), "\u{1b}[31m-\u{1b}[39m /x");
    assert_eq!(format_item(&item("/x", DriftKind::ContentChanged), true), "\u{1b}[33m~\u{1b}[39m /x");
    assert_eq!(format_item(&item("/x", DriftKind::MetadataChanged), true), "\u{1b}[34m!\u{1b}[39m /x");
    assert_eq!(format_item(&item("/x", DriftKind::SymlinkTargetChanged), true), "\u{1b}[35m@\u{1b}[39m /x");
    assert_eq!(format_item(&item("/x", DriftKind::TypeChanged), true), "\u{1b}[36m#\u{1b}[39m /x");
}

#[test]
fn summary_without_drift() {
    let lines = summary_lines(&report(Vec::new()), false, 50);
    assert_eq!(lines, vec![
        "Drift summary: 0 added, 0 removed, 0 content-changed, 0 metadata-changed, 0 symlink-target-changed, 0 type-changed".to_string(),
        "No drift detected.".to_string(),
    ]);
}

#[test]
fn summary_shows_at_most_max_items() {
    let r = report(vec![item("/a", DriftKind::Added), item("/b", DriftKind::Removed), item("/c", DriftKind::TypeChanged)]);
    let lines = summary_lines(&r, false, 2);
    assert_eq!(lines, vec![
        "Drift summary: 1 added, 1 removed, 0 content-changed, 0 metadata-changed, 0 symlink-target-changed, 1 type-changed".to_string(),
        "Top items:".to_string(),
        "+ /a".to_string(),
        "- /b".to_string(),
    ]);
    assert_eq!(summary_lines(&r, false, 0).len(), 2);
    assert_eq!(summary_lines(&r, false, 10).len(), 5);
}

#[test]
fn decimal_strings() {
    assert_eq!(decimal_string(0), "0");
    assert_eq!(decimal_string(7), "7");
    assert_eq!(decimal_string(10), "10");
    assert_eq!(decimal_string(1234567890), "1234567890");
    assert_eq!(decimal_string(usize::MAX), usize::MAX.to_string());
}

fn file(ft: FileType) -> FileEntry {
    FileEntry { file_type: ft, mode: 0, uid: 0, gid: 0, size: 0, hash: None, symlink_target: None }
}

#[test]
fn text_diffs_only_for_changed_regular_files() {
    let entries = vec![
        DiffEntry { path: FsPath::parse("/etc/a"), kind: DriftKind::ContentChanged, before: Some(file(FileType::File)), after: Some(file(FileType::File)) },
        DiffEntry { path: FsPath::parse("/etc/b"), kind: DriftKind::Added, before: None, after: Some(file(FileType::File)) },
        DiffEntry { path: FsPath::parse("/etc/c"), kind: DriftKind::MetadataChanged, before: Some(file(FileType::File)), after: Some(file(FileType::File)) },
        DiffEntry { path: FsPath::parse("/etc/d"), kind: DriftKind::ContentChanged, before: Some(file(FileType::Symlink)), after: Some(file(FileType::File)) },
        DiffEntry { path: FsPath::parse("/etc/e"), kind: DriftKind::ContentChanged, before: Some(file(FileType::File)), after: Some(file(FileType::File)) },
    ];
    let t = unified_diff_targets(&FsPath::parse("/sysroot/d"), &FsPath::root(), &entries);
    assert_eq!(t.len(), 2);
    assert_eq!(t[0].path.to_string(), "/etc/a");
    assert_eq!(t[0].baseline_path.to_string(), "/sysroot/d/etc/a");
    assert_eq!(t[0].live_path.to_string(), "/etc/a");
    assert_eq!(t[1].path.to_string(), "/etc/e");
}

#[test]
fn unified_diff_of_text_files() {
    let r = render_unified_diff(b"a\nb\n", b"a\nc\n", &FsPath::parse("/etc/x")).ok().unwrap();
    assert_eq!(r.unwrap(), "--- baseline/etc/x\n+++ live/etc/x\n@@ -1,2 +1,2 @@\n a\n-b\n+c\n");
}

#[test]
fn identical_text_gives_empty_diff() {
    let r = render_unified_diff(b"same\n", b"same\n", &FsPath::parse("/etc/x")).ok().unwrap();
    assert_eq!(r.unwrap(), "");
}

#[test]
fn binary_files_are_skipped() {
    let r = render_unified_diff(b"a\0b", b"text\n", &FsPath::parse("/bin/x")).ok().unwrap();
    assert!(r.is_none());
    let r = render_unified_diff(b"text\n", b"\x89PNG....", &FsPath::parse("/bin/x")).ok().unwrap();
    assert!(r.is_none());
    let r = render_unified_diff(b"", b"", &FsPath::parse("/e")).ok().unwrap();
    assert_eq!(r.unwrap(), "");
}

#[test]
fn binary_detection_follows_marks_and_signatures() {
    // A byte order mark makes the content text, zero bytes and all.
    let r = render_unified_diff(b"\xff\xfea\0b\0\n\0", b"\xff\xfea\0b\0\n\0", &FsPath::parse("/t")).ok().unwrap();
    assert_eq!(r.unwrap(), "");
    let r = render_unified_diff(b"%PDF-1.4\n", b"x\n", &FsPath::parse("/t")).ok().unwrap();
    assert!(r.is_none());
    // A zero byte past the first 1024 bytes goes unnoticed.
    let mut late_zero = vec![b'a'; 1100];
    late_zero.push(0);
    let r = render_unified_diff(&late_zero, b"a\n", &FsPath::parse("/t")).ok().unwrap();
    assert!(r.is_some());
    let mut early_zero = vec![b'a'; 1023];
    early_zero.push(0);
    let r = render_unified_diff(&early_zero, b"a\n", &FsPath::parse("/t")).ok().unwrap();
    assert!(r.is_none());
}

#[test]
fn invalid_utf8_is_decoded_lossily() {
    let r = render_unified_diff(b"\xff\n", b"ok\n", &FsPath::parse("/t")).ok().unwrap();
    assert_eq!(r.unwrap(), "--- baseline/t\n+++ live/t\n@@ -1 +1 @@\n-\u{fffd}\n+ok\n");
    assert_ne!(DiffWriteError::Write, DiffWriteError::NotUtf8);
}

#[test]
fn diff_headers_name_both_sides() {
    let (a, b) = diff_headers(&FsPath::parse("/etc/hosts"));
    assert_eq!(a, "baseline/etc/hosts");
    assert_eq!(b, "live/etc/hosts");
}
