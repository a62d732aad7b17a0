use image_drift_tracker::path::FsPath;
use image_drift_tracker::scanner::{
    build_exclude_roots, include_step, is_excluded, join_root, remap_map_prefix, remap_prefix,
    sorted_unique_paths, to_root_relative, walk_entry_step, EntryKind, FileEntry, FileType,
    HashPolicy, ProbeDetail, ProbeStep, ProbedMetadata, WalkStep,
};
use image_drift_tracker::snapshot::Snapshot;

fn p(s: &str) -> FsPath {
    FsPath::parse(s)
}

fn meta(kind: EntryKind) -> ProbedMetadata {
    ProbedMetadata { kind, mode: 0o100644, uid: 1, gid: 2, size: 3 }
}

#[test]
fn join_root_places_paths_under_root() {
    assert_eq!(join_root(&p("/sysroot/d"), &p("/etc/ssh")).to_string(), "/sysroot/d/etc/ssh");
    assert_eq!(join_root(&p("/sysroot/d"), &p("etc")).to_string(), "/sysroot/d/etc");
    assert_eq!(join_root(&p("/"), &p("/etc")).to_string(), "/etc");
    assert_eq!(join_root(&p("/r"), &p("/")).to_string(), "/r");
}

#[test]
fn to_root_relative_strips_root() {
    assert_eq!(to_root_relative(&p("/r"), &p("/r/etc/a")).unwrap().to_string(), "/etc/a");
    assert_eq!(to_root_relative(&p("/r"), &p("/r")).unwrap().to_string(), "/");
    assert!(to_root_relative(&p("/r"), &p("/other/a")).is_none());
    assert_eq!(to_root_relative(&p("/"), &p("/etc/x")).unwrap().to_string(), "/etc/x");
}

#[test]
fn relative_of_joined_is_absolutized() {
    let root = p("/sysroot/ostree/deploy/os/deploy/abc.0");
    for s in ["/etc/hosts", "etc/hosts", "/"] {
        let joined = join_root(&root, &p(s));
        let back = to_root_relative(&root, &joined).unwrap();
        let expected = image_drift_tracker::config::absolutize(p(s));
        assert!(back.same_as(&expected));
    }
}

#[test]
fn remap_prefix_moves_paths_under_from() {
    assert_eq!(remap_prefix(&p("/usr/etc/x"), &p("/usr/etc"), &p("/etc")).to_string(), "/etc/x");
    assert_eq!(remap_prefix(&p("/usr/etc"), &p("/usr/etc"), &p("/etc")).to_string(), "/etc");
    assert_eq!(remap_prefix(&p("/var/x"), &p("/usr/etc"), &p("/etc")).to_string(), "/var/x");
    let there = remap_prefix(&p("/usr/etc/a/b"), &p("/usr/etc"), &p("/etc"));
    assert_eq!(remap_prefix(&there, &p("/etc"), &p("/usr/etc")).to_string(), "/usr/etc/a/b");
    assert_eq!(remap_prefix(&p("/a/b"), &p("/a"), &p("/a")).to_string(), "/a/b");
}

#[test]
fn exclusions_cover_descendants() {
    let ex = build_exclude_roots(&p("/root"), &vec![p("/proc"), p("var/log")]);
    assert_eq!(ex[0].to_string(), "/root/proc");
    assert_eq!(ex[1].to_string(), "/root/var/log");
    assert!(is_excluded(&p("/root/proc"), &ex));
    assert!(is_excluded(&p("/root/proc/1/status"), &ex));
    assert!(is_excluded(&p("/root/var/log/messages"), &ex));
    assert!(!is_excluded(&p("/root/procfs"), &ex));
    assert!(!is_excluded(&p("/root/var"), &ex));
    assert!(!is_excluded(&p("/proc"), &ex));
}

#[test]
fn walk_steps() {
    let ex = vec![p("/tmp")];
    assert_eq!(walk_entry_step(&p("/tmp/x"), false, 1, 1, false, &ex), WalkStep::Skip);
    assert_eq!(walk_entry_step(&p("/etc"), true, 1, 1, false, &ex), WalkStep::Descend);
    assert_eq!(walk_entry_step(&p("/etc/a"), false, 1, 1, false, &ex), WalkStep::Record);
    assert_eq!(walk_entry_step(&p("/mnt"), true, 2, 1, true, &ex), WalkStep::Skip);
    assert_eq!(walk_entry_step(&p("/mnt"), true, 2, 1, false, &ex), WalkStep::Descend);
    assert_eq!(include_step(&p("/tmp"), true, &ex), WalkStep::Skip);
    assert_eq!(include_step(&p("/etc"), true, &ex), WalkStep::Descend);
    assert_eq!(include_step(&p("/etc/hosts"), false, &ex), WalkStep::Record);
}

#[test]
fn sorted_unique_paths_sorts_and_dedups() {
    let v = vec![p("/usr/b"), p("/etc/a"), p("/usr/b"), p("/usr"), p("/etc/a"), p("/a-b"), p("/a/b")];
    let r = sorted_unique_paths(v);
    let shown: Vec<String> = r.iter().map(|x| x.to_string()).collect();
    assert_eq!(shown, vec!["/a/b", "/a-b", "/etc/a", "/usr", "/usr/b"]);
    assert!(sorted_unique_paths(Vec::new()).is_empty());
}

#[test]
fn probe_steps_follow_kind_and_policy() {
    assert_eq!(FileEntry::probe_step(EntryKind::Directory, HashPolicy::Full), ProbeStep::Skip);
    assert_eq!(FileEntry::probe_step(EntryKind::Other, HashPolicy::Full), ProbeStep::Skip);
    assert_eq!(FileEntry::probe_step(EntryKind::Symlink, HashPolicy::Full), ProbeStep::ReadLink);
    assert_eq!(FileEntry::probe_step(EntryKind::File, HashPolicy::Full), ProbeStep::ReadContent);
    assert_eq!(FileEntry::probe_step(EntryKind::File, HashPolicy::MetadataOnly), ProbeStep::RecordMetadata);
    assert!(HashPolicy::Full.should_hash());
    assert!(!HashPolicy::MetadataOnly.should_hash());
}

#[test]
fn file_entries_hash_content_with_blake3() {
    let e = FileEntry::from_probe(&meta(EntryKind::File), ProbeDetail::Content(b"abc".to_vec()), HashPolicy::Full).unwrap();
    assert_eq!(e.file_type, FileType::File);
    assert_eq!(e.hash.as_deref(), Some("6437b3ac38465133ffb63b75273a8db548c558465d79db03fd359c6cd5bd9d85"));
    assert_eq!((e.mode, e.uid, e.gid, e.size), (0o100644, 1, 2, 3));
    assert!(e.symlink_target.is_none());
    let empty = FileEntry::from_probe(&meta(EntryKind::File), ProbeDetail::Content(Vec::new()), HashPolicy::Full).unwrap();
    assert_eq!(empty.hash.as_deref(), Some("af1349b9f5f9a1a6a0404dea36dcc9499bcb25c9adc112b7cc9a93cae41f3262"));
}

#[test]
fn symlink_entries_keep_target() {
    let e = FileEntry::from_probe(&meta(EntryKind::Symlink), ProbeDetail::LinkTarget("../x".to_string()), HashPolicy::Full).unwrap();
    assert_eq!(e.file_type, FileType::Symlink);
    assert_eq!(e.symlink_target.as_deref(), Some("../x"));
    assert!(e.hash.is_none());
}

#[test]
fn directories_and_mismatched_details_record_nothing() {
    assert!(FileEntry::from_probe(&meta(EntryKind::Directory), ProbeDetail::Nothing, HashPolicy::Full).is_none());
    assert!(FileEntry::from_probe(&meta(EntryKind::Other), ProbeDetail::Nothing, HashPolicy::Full).is_none());
    assert!(FileEntry::from_probe(&meta(EntryKind::Symlink), ProbeDetail::Nothing, HashPolicy::Full).is_none());
    let unhashed = FileEntry::from_probe(&meta(EntryKind::File), ProbeDetail::Nothing, HashPolicy::MetadataOnly).unwrap();
    assert!(unhashed.hash.is_none());
}

#[test]
fn remap_map_prefix_moves_keys() {
    let mut s = Snapshot::new();
    let e = FileEntry::from_probe(&meta(EntryKind::Symlink), ProbeDetail::LinkTarget("t".to_string()), HashPolicy::Full).unwrap();
    s.insert(p("/usr/etc/a"), e.clone());
    s.insert(p("/var/b"), e.clone());
    let r = remap_map_prefix(s, &p("/usr/etc"), &p("/etc"));
    assert_eq!(r.entry_count(), 2);
    assert!(r.get(&p("/etc/a")).is_some());
    assert!(r.get(&p("/var/b")).is_some());
    assert!(r.get(&p("/usr/etc/a")).is_none());
}
