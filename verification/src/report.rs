//! The drift report: what was compared, how much drifted, and each drifted path.
use vstd::prelude::*;

use crate::baseline::{kind_name, Baseline};
use crate::diff::{opt_entry_view, DiffEntry, DriftKind};
use crate::path::{parse_path, path_join, render_path, FsPath};
use crate::scanner::FileEntry;
use crate::text::string_of;

verus! {

/// The drift report.
#[derive(Debug)]
pub struct Report {
    pub generated_at: u64,
    pub baseline: BaselineInfo,
    pub summary: Summary,
    pub items: Vec<ReportItem>,
}

/// The baseline a report compares against.
#[derive(Debug)]
pub struct BaselineInfo {
    pub kind: String,
    pub root: String,
}

/// How many items of each kind a report holds.
#[derive(Debug)]
pub struct Summary {
    pub added: usize,
    pub removed: usize,
    pub content_changed: usize,
    pub metadata_changed: usize,
    pub symlink_target_changed: usize,
    pub type_changed: usize,
}

/// One drifted path in a report.
#[derive(Debug)]
pub struct ReportItem {
    pub path: String,
    pub kind: DriftKind,
    pub before: Option<FileEntry>,
    pub after: Option<FileEntry>,
}

/// The kinds of some report items, in order.
pub open spec fn item_kinds(items: Seq<ReportItem>) -> Seq<DriftKind> {
    items.map_values(|i: ReportItem| i.kind)
}

/// How many times a kind occurs.
pub open spec fn count_kind(kinds: Seq<DriftKind>, k: DriftKind) -> nat
    decreases kinds.len(),
{
    if kinds.len() == 0 {
        0
    } else {
        count_kind(kinds.drop_last(), k) + if kinds.last() == k {
            1nat
        } else {
            0nat
        }
    }
}

/// The counts of a summary add up over all six kinds.
pub open spec fn summary_total(s: Summary) -> int {
    s.added + s.removed + s.content_changed + s.metadata_changed + s.symlink_target_changed
        + s.type_changed
}

/// Each count of a summary is the number of items of its kind.
pub open spec fn summarizes(s: Summary, kinds: Seq<DriftKind>) -> bool {
    &&& s.added == count_kind(kinds, DriftKind::Added)
    &&& s.removed == count_kind(kinds, DriftKind::Removed)
    &&& s.content_changed == count_kind(kinds, DriftKind::ContentChanged)
    &&& s.metadata_changed == count_kind(kinds, DriftKind::MetadataChanged)
    &&& s.symlink_target_changed == count_kind(kinds, DriftKind::SymlinkTargetChanged)
    &&& s.type_changed == count_kind(kinds, DriftKind::TypeChanged)
}

/// The six counts of a sequence of kinds add up to its length.
pub proof fn lemma_counts_add_up(kinds: Seq<DriftKind>)
    ensures
        count_kind(kinds, DriftKind::Added) + count_kind(kinds, DriftKind::Removed) + count_kind(
            kinds,
            DriftKind::ContentChanged,
        ) + count_kind(kinds, DriftKind::MetadataChanged) + count_kind(
            kinds,
            DriftKind::SymlinkTargetChanged,
        ) + count_kind(kinds, DriftKind::TypeChanged) == kinds.len(),
    decreases kinds.len(),
{
    if kinds.len() > 0 {
        lemma_counts_add_up(kinds.drop_last());
    }
}

/// A report's summary counts add up to the number of its items.
pub proof fn lemma_summary_total(s: Summary, kinds: Seq<DriftKind>)
    requires
        summarizes(s, kinds),
    ensures
        summary_total(s) == kinds.len(),
{
    lemma_counts_add_up(kinds);
}

impl Summary {
    /// Counts the items of each kind.
    pub fn from_items(items: &[ReportItem]) -> (r: Summary)
        ensures
            summarizes(r, item_kinds(items@)),
    {
        let ghost kinds = item_kinds(items@);
        let mut summary = Summary {
            added: 0,
            removed: 0,
            content_changed: 0,
            metadata_changed: 0,
            symlink_target_changed: 0,
            type_changed: 0,
        };
        let mut i: usize = 0;
        while i < items.len()
            invariant
                i <= items@.len(),
                kinds == item_kinds(items@),
                summarizes(summary, kinds.take(i as int)),
                summary_total(summary) == i,
            decreases items@.len() - i,
        {
            assert(kinds.take(i + 1).drop_last() =~= kinds.take(i as int));
            assert(kinds.take(i + 1).last() == items@[i as int].kind);
            match items[i].kind {
                DriftKind::Added => summary.added = summary.added + 1,
                DriftKind::Removed => summary.removed = summary.removed + 1,
                DriftKind::ContentChanged => summary.content_changed = summary.content_changed + 1,
                DriftKind::MetadataChanged => summary.metadata_changed = summary.metadata_changed
                    + 1,
                DriftKind::SymlinkTargetChanged => summary.symlink_target_changed =
                summary.symlink_target_changed + 1,
                DriftKind::TypeChanged => summary.type_changed = summary.type_changed + 1,
            }
            i = i + 1;
        }
        assert(kinds.take(items@.len() as int) =~= kinds);
        summary
    }
}

/// A copy of an optional entry.
fn copy_entry(e: &Option<FileEntry>) -> (r: Option<FileEntry>)
    ensures
        opt_entry_view(r) == opt_entry_view(*e),
{
    match e {
        Some(x) => Some(x.clone()),
        None => None,
    }
}

/// Item `i` of a report stands for diff entry `i`: its path in string form,
/// its kind, and both sides' entries.
pub open spec fn item_of(item: ReportItem, entry: DiffEntry) -> bool {
    &&& item.path@ == render_path(entry.path@)
    &&& item.kind == entry.kind
    &&& opt_entry_view(item.before) == opt_entry_view(entry.before)
    &&& opt_entry_view(item.after) == opt_entry_view(entry.after)
}

/// The report for a baseline and the drift found against it, generated at
/// the given time (seconds since the Unix epoch).
pub fn build_report(baseline: &Baseline, diff_entries: &[DiffEntry], generated_at: u64) -> (r:
    Report)
    ensures
        r.generated_at == generated_at,
        r.baseline.kind@ == kind_name(baseline.kind),
        r.baseline.root@ == baseline.root_text@,
        r.items@.len() == diff_entries@.len(),
        forall|i: int| 0 <= i < diff_entries@.len() ==> item_of(#[trigger] r.items@[i], diff_entries@[i]),
        summarizes(r.summary, item_kinds(r.items@)),
{
    let mut items: Vec<ReportItem> = Vec::new();
    let mut i: usize = 0;
    while i < diff_entries.len()
        invariant
            i <= diff_entries@.len(),
            items@.len() == i,
            forall|k: int| 0 <= k < i ==> item_of(#[trigger] items@[k], diff_entries@[k]),
        decreases diff_entries@.len() - i,
    {
        let entry = &diff_entries[i];
        items.push(
            ReportItem {
                path: entry.path.to_string(),
                kind: entry.kind,
                before: copy_entry(&entry.before),
                after: copy_entry(&entry.after),
            },
        );
        i = i + 1;
    }
    let summary = Summary::from_items(items.as_slice());
    let kind_chars = crate::text::chars_of(baseline.kind.as_str());
    Report {
        generated_at,
        baseline: BaselineInfo { kind: string_of(kind_chars.as_slice()), root: baseline.root_text.clone() },
        summary,
        items,
    }
}

/// Where the report is written unless a path is given: under the state
/// directory when `state_home` is known, else under the home directory's
/// `.local/state`, else `drift.json`.
pub open spec fn default_report_path_spec(state_home: Option<Seq<char>>, home: Option<Seq<char>>) -> Seq<
    Seq<char>,
> {
    match state_home {
        Some(s) => path_join(parse_path(s), parse_path("image-drift-tracker/drift.json"@)),
        None => match home {
            Some(h) => path_join(
                parse_path(h),
                parse_path(".local/state/image-drift-tracker/drift.json"@),
            ),
            None => parse_path("drift.json"@),
        },
    }
}

/// Where the report is written unless a path is given. `state_home` and
/// `home` are the state and home directories, when they are known.
pub fn default_report_path(state_home: &Option<String>, home: &Option<String>) -> (r: FsPath)
    ensures
        r@ == default_report_path_spec(
            crate::config::opt_view(*state_home),
            crate::config::opt_view(*home),
        ),
{
    match state_home {
        Some(s) => FsPath::parse(s.as_str()).join(&FsPath::parse("image-drift-tracker/drift.json")),
        None => match home {
            Some(h) => FsPath::parse(h.as_str()).join(
                &FsPath::parse(".local/state/image-drift-tracker/drift.json"),
            ),
            None => FsPath::parse("drift.json"),
        },
    }
}

} // verus!
