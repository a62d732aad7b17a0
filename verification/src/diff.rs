//! Comparing a baseline snapshot with a live one.
use vstd::prelude::*;

use crate::order::{comps_lt, lemma_comps_order_basics, lemma_comps_order_transitive};
use crate::path::FsPath;
use crate::scanner::{opt_string_eq, FileEntry, FileEntryView, FileType};
use crate::snapshot::{
    keys_strictly_sorted, lemma_sorted_pairs_lookup, lookup, map_of_pairs, Snapshot,
};

verus! {

/// How a path differs between the baseline and the live system.
#[derive(Clone, Copy, Debug, PartialEq, Eq, Structural)]
pub enum DriftKind {
    Added,
    Removed,
    ContentChanged,
    MetadataChanged,
    SymlinkTargetChanged,
    TypeChanged,
}

/// One drifted path, with what the baseline and the live system hold there.
#[derive(Debug)]
pub struct DiffEntry {
    pub path: FsPath,
    pub kind: DriftKind,
    pub before: Option<FileEntry>,
    pub after: Option<FileEntry>,
}

/// The mathematical value of a [`DiffEntry`].
pub struct DiffEntryView {
    pub path: Seq<Seq<char>>,
    pub kind: DriftKind,
    pub before: Option<FileEntryView>,
    pub after: Option<FileEntryView>,
}

/// The view of an optional entry.
pub open spec fn opt_entry_view(e: Option<FileEntry>) -> Option<FileEntryView> {
    match e {
        Some(x) => Some(x@),
        None => None,
    }
}

impl View for DiffEntry {
    type V = DiffEntryView;

    open spec fn view(&self) -> DiffEntryView {
        DiffEntryView {
            path: self.path@,
            kind: self.kind,
            before: opt_entry_view(self.before),
            after: opt_entry_view(self.after),
        }
    }
}

/// Mode, owner and group agree (size is not compared).
pub open spec fn metadata_same(before: FileEntryView, after: FileEntryView) -> bool {
    before.mode == after.mode && before.uid == after.uid && before.gid == after.gid
}

/// The kind of change between two entries for the same path: a change of
/// type first, then of content (files) or target (symlinks), else metadata.
pub open spec fn classify(before: FileEntryView, after: FileEntryView) -> DriftKind {
    if before.file_type != after.file_type {
        DriftKind::TypeChanged
    } else {
        match before.file_type {
            FileType::File => if before.hash != after.hash {
                DriftKind::ContentChanged
            } else {
                DriftKind::MetadataChanged
            },
            FileType::Symlink => if before.symlink_target != after.symlink_target {
                DriftKind::SymlinkTargetChanged
            } else {
                DriftKind::MetadataChanged
            },
        }
    }
}

/// The drift between what the baseline and the live system hold at one path,
/// if any: a path only live is added, one only in the baseline removed, and
/// one in both is classified, except that a metadata change with equal mode,
/// owner and group is no drift.
pub open spec fn drift_between(before: Option<FileEntryView>, after: Option<FileEntryView>) -> Option<
    DriftKind,
> {
    match (before, after) {
        (None, Some(_)) => Some(DriftKind::Added),
        (Some(_), None) => Some(DriftKind::Removed),
        (Some(b), Some(a)) => {
            let k = classify(b, a);
            if k == DriftKind::MetadataChanged && metadata_same(b, a) {
                None
            } else {
                Some(k)
            }
        },
        (None, None) => None,
    }
}

/// The drift at a path between two snapshots.
pub open spec fn path_drift(
    baseline: Map<Seq<Seq<char>>, FileEntryView>,
    live: Map<Seq<Seq<char>>, FileEntryView>,
    p: Seq<Seq<char>>,
) -> Option<DriftKind> {
    drift_between(lookup(baseline, p), lookup(live, p))
}

/// A diff item reports the drift at its path, with both sides' entries.
pub open spec fn reports_drift(
    baseline: Map<Seq<Seq<char>>, FileEntryView>,
    live: Map<Seq<Seq<char>>, FileEntryView>,
    item: DiffEntryView,
) -> bool {
    &&& path_drift(baseline, live, item.path) == Some(item.kind)
    &&& item.before == lookup(baseline, item.path)
    &&& item.after == lookup(live, item.path)
}

/// The drift seen from the other side: added and removed swap.
pub open spec fn mirrored(k: Option<DriftKind>) -> Option<DriftKind> {
    match k {
        Some(DriftKind::Added) => Some(DriftKind::Removed),
        Some(DriftKind::Removed) => Some(DriftKind::Added),
        other => other,
    }
}

/// Mode, owner and group agree.
pub fn metadata_equal(before: &FileEntry, after: &FileEntry) -> (r: bool)
    ensures
        r == metadata_same(before@, after@),
        r == (before.mode == after.mode && before.uid == after.uid && before.gid == after.gid),
{
    before.mode == after.mode && before.uid == after.uid && before.gid == after.gid
}

/// Classifies the change between two entries for the same path.
pub fn classify_change(before: &FileEntry, after: &FileEntry) -> (r: DriftKind)
    ensures
        r == classify(before@, after@),
        before.file_type != after.file_type ==> r == DriftKind::TypeChanged,
        before.file_type == FileType::File && after.file_type == FileType::File
            && before@.hash != after@.hash ==> r == DriftKind::ContentChanged,
        before.file_type == FileType::Symlink && after.file_type == FileType::Symlink
            && before@.symlink_target != after@.symlink_target ==> r == DriftKind::SymlinkTargetChanged,
{
    if before.file_type != after.file_type {
        return DriftKind::TypeChanged;
    }
    match before.file_type {
        FileType::File => {
            if !opt_string_eq(&before.hash, &after.hash) {
                DriftKind::ContentChanged
            } else {
                DriftKind::MetadataChanged
            }
        },
        FileType::Symlink => {
            if !opt_string_eq(&before.symlink_target, &after.symlink_target) {
                DriftKind::SymlinkTargetChanged
            } else {
                DriftKind::MetadataChanged
            }
        },
    }
}

/// A copy of an optional entry.
fn copy_opt_entry(e: Option<&FileEntry>) -> (r: Option<FileEntry>)
    ensures
        opt_entry_view(r) == match e {
            Some(x) => Some(x@),
            None => None::<FileEntryView>,
        },
{
    match e {
        Some(x) => Some(x.clone()),
        None => None,
    }
}

/// The drift between a baseline and a live snapshot: one item for every
/// path where they differ, in path order.
pub fn compute_diff(baseline: &Snapshot, live: &Snapshot) -> (r: Vec<DiffEntry>)
    ensures
        forall|k: int| 0 <= k < r@.len() ==> reports_drift(baseline@, live@, #[trigger] r@[k]@),
        forall|a: int, b: int|
            0 <= a < b < r@.len() ==> comps_lt(#[trigger] r@[a]@.path, #[trigger] r@[b]@.path),
        forall|p: Seq<Seq<char>>| #[trigger]
            path_drift(baseline@, live@, p) is Some ==> exists|k: int|
                0 <= k < r@.len() && #[trigger] r@[k]@.path == p,
{
    let nb = baseline.entry_count();
    let nl = live.entry_count();
    let ghost bs = baseline.pairs();
    let ghost ls = live.pairs();
    let ghost bm = baseline@;
    let ghost lm = live@;
    let mut out: Vec<DiffEntry> = Vec::new();
    let mut i: usize = 0;
    let mut j: usize = 0;
    while i < nb || j < nl
        invariant
            nb == bs.len(),
            nl == ls.len(),
            bs == baseline.pairs(),
            ls == live.pairs(),
            bm == baseline@,
            lm == live@,
            bm == map_of_pairs(bs),
            lm == map_of_pairs(ls),
            keys_strictly_sorted(bs),
            keys_strictly_sorted(ls),
            i <= nb,
            j <= nl,
            forall|k: int| 0 <= k < out@.len() ==> reports_drift(bm, lm, #[trigger] out@[k]@),
            forall|a: int, b: int|
                0 <= a < b < out@.len() ==> comps_lt(#[trigger] out@[a]@.path, #[trigger] out@[b]@.path),
            forall|k: int|
                0 <= k < out@.len() ==> (i < nb ==> comps_lt(#[trigger] out@[k]@.path, bs[i as int].0))
                    && (j < nl ==> comps_lt(out@[k]@.path, ls[j as int].0)),
            forall|a: int| 0 <= a < i ==> (j < nl ==> comps_lt(#[trigger] bs[a].0, ls[j as int].0)),
            forall|b: int| 0 <= b < j ==> (i < nb ==> comps_lt(#[trigger] ls[b].0, bs[i as int].0)),
            forall|a: int|
                0 <= a < i ==> (#[trigger] path_drift(bm, lm, bs[a].0) is Some ==> exists|k: int|
                    0 <= k < out@.len() && #[trigger] out@[k]@.path == bs[a].0),
            forall|b: int|
                0 <= b < j ==> (#[trigger] path_drift(bm, lm, ls[b].0) is Some ==> exists|k: int|
                    0 <= k < out@.len() && #[trigger] out@[k]@.path == ls[b].0),
        decreases nb + nl - i - j,
    {
        let ghost old_out = out@;
        let side: i8 = if i == nb {
            1
        } else if j == nl {
            -1
        } else {
            baseline.entry_at(i).0.compare(live.entry_at(j).0)
        };
        if side < 0 {
            // Only the baseline holds this path.
            let (p, e) = baseline.entry_at(i);
            let ghost q = bs[i as int].0;
            proof {
                if j < nl {
                    lemma_comps_order_basics(q, ls[j as int].0);
                }
                lemma_sorted_pairs_lookup(bs, q);
                lemma_sorted_pairs_lookup(ls, q);
                assert forall|b: int| 0 <= b < ls.len() implies #[trigger] ls[b].0 != q by {
                    lemma_comps_order_basics(ls[b].0, q);
                    if b >= j {
                        if b > j {
                            lemma_comps_order_transitive(q, ls[j as int].0, ls[b].0);
                        }
                        lemma_comps_order_basics(q, ls[b].0);
                    }
                }
            }
            out.push(DiffEntry { path: p.clone(), kind: DriftKind::Removed, before: copy_opt_entry(Some(e)), after: None });
            proof {
                assert(out@[old_out.len() as int]@.path == q);
                assert forall|k: int| 0 <= k < out@.len() implies (i + 1 < nb ==> comps_lt(
                    #[trigger] out@[k]@.path,
                    bs[i + 1].0,
                )) && (j < nl ==> comps_lt(out@[k]@.path, ls[j as int].0)) by {
                    if i + 1 < nb {
                        if k < old_out.len() {
                            lemma_comps_order_transitive(out@[k]@.path, q, bs[i + 1].0);
                        }
                    }
                }
                assert forall|b: int| 0 <= b < j && i + 1 < nb implies comps_lt(
                    #[trigger] ls[b].0,
                    bs[i + 1].0,
                ) by {
                    if i + 1 < nb {
                        lemma_comps_order_transitive(ls[b].0, q, bs[i + 1].0);
                    }
                }
                assert forall|a: int|
                    0 <= a < i + 1 && #[trigger] path_drift(bm, lm, bs[a].0) is Some
                    implies exists|k: int| 0 <= k < out@.len() && #[trigger] out@[k]@.path == bs[a].0 by {
                    if a < i && path_drift(bm, lm, bs[a].0) is Some {
                        let k = choose|k: int| 0 <= k < old_out.len() && #[trigger] old_out[k]@.path == bs[a].0;
                        assert(out@[k]@.path == bs[a].0);
                    } else if a == i {
                        assert(out@[old_out.len() as int]@.path == bs[a].0);
                    }
                }
                assert forall|b: int|
                    0 <= b < j && #[trigger] path_drift(bm, lm, ls[b].0) is Some
                    implies exists|k: int| 0 <= k < out@.len() && #[trigger] out@[k]@.path == ls[b].0 by {
                    if path_drift(bm, lm, ls[b].0) is Some {
                        let k = choose|k: int| 0 <= k < old_out.len() && #[trigger] old_out[k]@.path == ls[b].0;
                        assert(out@[k]@.path == ls[b].0);
                    }
                }
            }
            i = i + 1;
        } else if side > 0 {
            // Only the live system holds this path.
            let (p, e) = live.entry_at(j);
            let ghost q = ls[j as int].0;
            proof {
                if i < nb {
                    lemma_comps_order_basics(bs[i as int].0, q);
                }
                lemma_sorted_pairs_lookup(bs, q);
                lemma_sorted_pairs_lookup(ls, q);
                assert forall|a: int| 0 <= a < bs.len() implies #[trigger] bs[a].0 != q by {
                    lemma_comps_order_basics(bs[a].0, q);
                    if a >= i {
                        if a > i {
                            lemma_comps_order_transitive(q, bs[i as int].0, bs[a].0);
                        }
                        lemma_comps_order_basics(q, bs[a].0);
                    }
                }
            }
            out.push(DiffEntry { path: p.clone(), kind: DriftKind::Added, before: None, after: copy_opt_entry(Some(e)) });
            proof {
                assert(out@[old_out.len() as int]@.path == q);
                assert forall|k: int| 0 <= k < out@.len() implies (i < nb ==> comps_lt(
                    #[trigger] out@[k]@.path,
                    bs[i as int].0,
                )) && (j + 1 < nl ==> comps_lt(out@[k]@.path, ls[j + 1].0)) by {
                    if j + 1 < nl {
                        if k < old_out.len() {
                            lemma_comps_order_transitive(out@[k]@.path, q, ls[j + 1].0);
                        }
                    }
                }
                assert forall|a: int| 0 <= a < i && j + 1 < nl implies comps_lt(
                    #[trigger] bs[a].0,
                    ls[j + 1].0,
                ) by {
                    if j + 1 < nl {
                        lemma_comps_order_transitive(bs[a].0, q, ls[j + 1].0);
                    }
                }
                assert forall|a: int|
                    0 <= a < i && #[trigger] path_drift(bm, lm, bs[a].0) is Some
                    implies exists|k: int| 0 <= k < out@.len() && #[trigger] out@[k]@.path == bs[a].0 by {
                    if path_drift(bm, lm, bs[a].0) is Some {
                        let k = choose|k: int| 0 <= k < old_out.len() && #[trigger] old_out[k]@.path == bs[a].0;
                        assert(out@[k]@.path == bs[a].0);
                    }
                }
                assert forall|b: int|
                    0 <= b < j + 1 && #[trigger] path_drift(bm, lm, ls[b].0) is Some
                    implies exists|k: int| 0 <= k < out@.len() && #[trigger] out@[k]@.path == ls[b].0 by {
                    if b < j && path_drift(bm, lm, ls[b].0) is Some {
                        let k = choose|k: int| 0 <= k < old_out.len() && #[trigger] old_out[k]@.path == ls[b].0;
                        assert(out@[k]@.path == ls[b].0);
                    } else if b == j {
                        assert(out@[old_out.len() as int]@.path == ls[b].0);
                    }
                }
            }
            j = j + 1;
        } else {
            // Both hold this path.
            let (p, before) = baseline.entry_at(i);
            let (_, after) = live.entry_at(j);
            let ghost q = bs[i as int].0;
            proof {
                lemma_comps_order_basics(bs[i as int].0, ls[j as int].0);
                lemma_sorted_pairs_lookup(bs, q);
                lemma_sorted_pairs_lookup(ls, q);
            }
            let kind = classify_change(before, after);
            let reported = !(kind == DriftKind::MetadataChanged && metadata_equal(before, after));
            if reported {
                out.push(DiffEntry { path: p.clone(), kind, before: copy_opt_entry(Some(before)), after: copy_opt_entry(Some(after)) });
            }
            proof {
                if reported {
                    assert(out@[old_out.len() as int]@.path == q);
                }
                assert forall|k: int| 0 <= k < out@.len() implies (i + 1 < nb ==> comps_lt(
                    #[trigger] out@[k]@.path,
                    bs[i + 1].0,
                )) && (j + 1 < nl ==> comps_lt(out@[k]@.path, ls[j + 1].0)) by {
                    if k < old_out.len() {
                        if i + 1 < nb {
                            lemma_comps_order_transitive(out@[k]@.path, q, bs[i + 1].0);
                        }
                        if j + 1 < nl {
                            lemma_comps_order_transitive(out@[k]@.path, q, ls[j + 1].0);
                        }
                    }
                }
                assert forall|a: int| 0 <= a < i + 1 && j + 1 < nl implies comps_lt(
                    #[trigger] bs[a].0,
                    ls[j + 1].0,
                ) by {
                    if j + 1 < nl && a < i {
                        lemma_comps_order_transitive(bs[a].0, q, ls[j + 1].0);
                    }
                }
                assert forall|b: int| 0 <= b < j + 1 && i + 1 < nb implies comps_lt(
                    #[trigger] ls[b].0,
                    bs[i + 1].0,
                ) by {
                    if i + 1 < nb && b < j {
                        lemma_comps_order_transitive(ls[b].0, q, bs[i + 1].0);
                    }
                }
                assert forall|a: int|
                    0 <= a < i + 1 && #[trigger] path_drift(bm, lm, bs[a].0) is Some
                    implies exists|k: int| 0 <= k < out@.len() && #[trigger] out@[k]@.path == bs[a].0 by {
                    if a < i && path_drift(bm, lm, bs[a].0) is Some {
                        let k = choose|k: int| 0 <= k < old_out.len() && #[trigger] old_out[k]@.path == bs[a].0;
                        assert(out@[k]@.path == bs[a].0);
                    } else if a == i && path_drift(bm, lm, bs[a].0) is Some {
                        assert(out@[old_out.len() as int]@.path == bs[a].0);
                    }
                }
                assert forall|b: int|
                    0 <= b < j + 1 && #[trigger] path_drift(bm, lm, ls[b].0) is Some
                    implies exists|k: int| 0 <= k < out@.len() && #[trigger] out@[k]@.path == ls[b].0 by {
                    if b < j && path_drift(bm, lm, ls[b].0) is Some {
                        let k = choose|k: int| 0 <= k < old_out.len() && #[trigger] old_out[k]@.path == ls[b].0;
                        assert(out@[k]@.path == ls[b].0);
                    } else if b == j && path_drift(bm, lm, ls[b].0) is Some {
                        assert(out@[old_out.len() as int]@.path == ls[b].0);
                    }
                }
            }
            i = i + 1;
            j = j + 1;
        }
    }
    proof {
        assert forall|p: Seq<Seq<char>>| #[trigger]
            path_drift(bm, lm, p) is Some implies exists|k: int|
                0 <= k < out@.len() && #[trigger] out@[k]@.path == p by {
            lemma_sorted_pairs_lookup(bs, p);
            lemma_sorted_pairs_lookup(ls, p);
            if lookup(bm, p) is Some {
                let a = choose|a: int| 0 <= a < bs.len() && #[trigger] bs[a].0 == p;
                assert(path_drift(bm, lm, bs[a].0) is Some);
            } else {
                let b = choose|b: int| 0 <= b < ls.len() && #[trigger] ls[b].0 == p;
                assert(path_drift(bm, lm, ls[b].0) is Some);
            }
        }
    }
    out
}

/// A snapshot compared with itself shows no drift at any path.
pub proof fn lemma_no_drift_against_itself(m: Map<Seq<Seq<char>>, FileEntryView>, p: Seq<Seq<char>>)
    ensures
        path_drift(m, m, p) is None,
{
}

/// Swapping baseline and live swaps added and removed, and keeps every other kind.
pub proof fn lemma_drift_mirrored(
    baseline: Map<Seq<Seq<char>>, FileEntryView>,
    live: Map<Seq<Seq<char>>, FileEntryView>,
    p: Seq<Seq<char>>,
)
    ensures
        path_drift(live, baseline, p) == mirrored(path_drift(baseline, live, p)),
{
}

/// At a path held on both sides by entries of one type with the same
/// content digest (files) or target (symlinks), the drift is a metadata
/// change exactly when mode, owner or group differ, whatever the sizes; a
/// change of group alone is reported.
pub proof fn lemma_metadata_drift(
    baseline: Map<Seq<Seq<char>>, FileEntryView>,
    live: Map<Seq<Seq<char>>, FileEntryView>,
    p: Seq<Seq<char>>,
)
    requires
        baseline.dom().contains(p),
        live.dom().contains(p),
        baseline[p].file_type == live[p].file_type,
        baseline[p].hash == live[p].hash,
        baseline[p].symlink_target == live[p].symlink_target,
    ensures
        baseline[p].mode == live[p].mode && baseline[p].uid == live[p].uid && baseline[p].gid
            == live[p].gid ==> path_drift(baseline, live, p) is None,
        !(baseline[p].mode == live[p].mode && baseline[p].uid == live[p].uid && baseline[p].gid
            == live[p].gid) ==> path_drift(baseline, live, p) == Some(DriftKind::MetadataChanged),
        baseline[p].gid != live[p].gid ==> path_drift(baseline, live, p) == Some(
            DriftKind::MetadataChanged,
        ),
{
}

/// How a path held on both sides drifts: a change of type is reported as
/// such; between two regular files with different content digests it is a
/// content change, whatever their sizes and metadata; between two symlinks
/// with different targets it is a target change.
pub proof fn lemma_change_kinds(
    baseline: Map<Seq<Seq<char>>, FileEntryView>,
    live: Map<Seq<Seq<char>>, FileEntryView>,
    p: Seq<Seq<char>>,
)
    requires
        baseline.dom().contains(p),
        live.dom().contains(p),
    ensures
        baseline[p].file_type != live[p].file_type ==> path_drift(baseline, live, p) == Some(
            DriftKind::TypeChanged,
        ),
        baseline[p].file_type == FileType::File && live[p].file_type == FileType::File
            && baseline[p].hash != live[p].hash ==> path_drift(baseline, live, p) == Some(
            DriftKind::ContentChanged,
        ),
        baseline[p].file_type == FileType::Symlink && live[p].file_type == FileType::Symlink
            && baseline[p].symlink_target != live[p].symlink_target ==> path_drift(baseline, live, p)
            == Some(DriftKind::SymlinkTargetChanged),
{
}

/// A path only in the live snapshot is added; one only in the baseline is removed.
pub proof fn lemma_one_sided_drift(
    baseline: Map<Seq<Seq<char>>, FileEntryView>,
    live: Map<Seq<Seq<char>>, FileEntryView>,
    p: Seq<Seq<char>>,
)
    ensures
        !baseline.dom().contains(p) && live.dom().contains(p) ==> path_drift(baseline, live, p)
            == Some(DriftKind::Added),
        baseline.dom().contains(p) && !live.dom().contains(p) ==> path_drift(baseline, live, p)
            == Some(DriftKind::Removed),
        !baseline.dom().contains(p) && !live.dom().contains(p) ==> path_drift(baseline, live, p)
            is None,
{
}

} // verus!
