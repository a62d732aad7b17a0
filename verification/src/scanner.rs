//! What a scan records of each file, and the decisions a scan takes.
use vstd::prelude::*;

use crate::order::{comps_lt, lemma_comps_order_basics, lemma_comps_order_transitive};
use crate::path::{
    path_is_absolute, path_join, path_starts_with, path_strip_prefix, path_wf, root_path, FsPath,
};
use crate::config::absolutize_spec;
use crate::snapshot::{lemma_map_of_pairs_dom, map_of_pairs, Snapshot};

verus! {

/// The kinds of filesystem entries a scan records.
#[derive(Clone, Copy, Debug, PartialEq, Eq, Structural)]
pub enum FileType {
    File,
    Symlink,
}

/// Metadata recorded for one file or symlink.
#[derive(Debug)]
pub struct FileEntry {
    pub file_type: FileType,
    pub mode: u32,
    pub uid: u32,
    pub gid: u32,
    pub size: u64,
    /// Content digest of a regular file, when it was hashed.
    pub hash: Option<String>,
    /// Target of a symlink.
    pub symlink_target: Option<String>,
}

/// The mathematical value of a [`FileEntry`].
pub struct FileEntryView {
    pub file_type: FileType,
    pub mode: u32,
    pub uid: u32,
    pub gid: u32,
    pub size: u64,
    pub hash: Option<Seq<char>>,
    pub symlink_target: Option<Seq<char>>,
}

/// The view of an optional string.
pub open spec fn opt_string_view(s: Option<String>) -> Option<Seq<char>> {
    match s {
        Some(t) => Some(t@),
        None => None,
    }
}

impl View for FileEntry {
    type V = FileEntryView;

    open spec fn view(&self) -> FileEntryView {
        FileEntryView {
            file_type: self.file_type,
            mode: self.mode,
            uid: self.uid,
            gid: self.gid,
            size: self.size,
            hash: opt_string_view(self.hash),
            symlink_target: opt_string_view(self.symlink_target),
        }
    }
}

/// A copy of an optional string.
pub(crate) fn copy_opt_string(s: &Option<String>) -> (r: Option<String>)
    ensures
        opt_string_view(r) == opt_string_view(*s),
{
    match s {
        Some(t) => Some(t.clone()),
        None => None,
    }
}

/// Whether two optional strings are equal.
pub(crate) fn opt_string_eq(a: &Option<String>, b: &Option<String>) -> (r: bool)
    ensures
        r == (opt_string_view(*a) == opt_string_view(*b)),
{
    match (a, b) {
        (Some(x), Some(y)) => *x == *y,
        (None, None) => true,
        _ => false,
    }
}

impl Clone for FileEntry {
    fn clone(&self) -> (r: Self)
        ensures
            r@ == self@,
    {
        FileEntry {
            file_type: self.file_type,
            mode: self.mode,
            uid: self.uid,
            gid: self.gid,
            size: self.size,
            hash: copy_opt_string(&self.hash),
            symlink_target: copy_opt_string(&self.symlink_target),
        }
    }
}

/// Whether a scan hashes the content of regular files.
#[derive(Clone, Copy, Debug, PartialEq, Eq, Structural)]
pub enum HashPolicy {
    Full,
    MetadataOnly,
}

impl HashPolicy {
    /// Regular files are hashed under the full policy only.
    pub fn should_hash(self) -> (r: bool)
        ensures
            r == (self == HashPolicy::Full),
    {
        match self {
            HashPolicy::Full => true,
            HashPolicy::MetadataOnly => false,
        }
    }
}

/// A name for the BLAKE3 digest of some bytes, in lowercase hexadecimal.
pub uninterp spec fn blake3_hex(data: Seq<u8>) -> Seq<char>;

/// The BLAKE3 digest of some bytes, in lowercase hexadecimal.
///
/// Trusted: `blake3::hash` followed by `Hash::to_hex`, whose result is named
/// by `blake3_hex`; `to_hex` writes two hex digits for each of the 32 bytes
/// of the digest, so the text has 64 characters.
#[verifier::external_body]
fn content_digest(data: &[u8]) -> (r: String)
    ensures
        r@ == blake3_hex(data@),
        r@.len() == 64,
{
    blake3::hash(data).to_hex().to_string()
}

/// What a filesystem entry is, as its own metadata (not following symlinks) says.
#[derive(Clone, Copy, Debug, PartialEq, Eq, Structural)]
pub enum EntryKind {
    Directory,
    Symlink,
    File,
    Other,
}

/// The metadata of a filesystem entry, as read without following symlinks.
#[derive(Clone, Copy, Debug)]
pub struct ProbedMetadata {
    pub kind: EntryKind,
    pub mode: u32,
    pub uid: u32,
    pub gid: u32,
    pub size: u64,
}

/// What to read next to record an entry.
#[derive(Clone, Copy, Debug, PartialEq, Eq, Structural)]
pub enum ProbeStep {
    /// Nothing is recorded for the entry.
    Skip,
    /// Read the symlink's target.
    ReadLink,
    /// Read the file's content, to hash it.
    ReadContent,
    /// Record the file without reading it.
    RecordMetadata,
}

/// What was read of an entry beyond its metadata.
#[derive(Debug)]
pub enum ProbeDetail {
    Nothing,
    LinkTarget(String),
    Content(Vec<u8>),
}

/// The entry recorded for probed metadata and what was read after it: a
/// symlink with its target, a regular file with the digest of its content
/// when read, and nothing for directories and other kinds.
pub open spec fn probed_entry(
    meta: ProbedMetadata,
    detail: ProbeDetail,
    policy: HashPolicy,
) -> Option<FileEntryView> {
    match meta.kind {
        EntryKind::Symlink => match detail {
            ProbeDetail::LinkTarget(t) => Some(
                FileEntryView {
                    file_type: FileType::Symlink,
                    mode: meta.mode,
                    uid: meta.uid,
                    gid: meta.gid,
                    size: meta.size,
                    hash: None,
                    symlink_target: Some(t@),
                },
            ),
            _ => None,
        },
        EntryKind::File => match detail {
            ProbeDetail::Content(c) if policy == HashPolicy::Full => Some(
                FileEntryView {
                    file_type: FileType::File,
                    mode: meta.mode,
                    uid: meta.uid,
                    gid: meta.gid,
                    size: meta.size,
                    hash: Some(blake3_hex(c@)),
                    symlink_target: None,
                },
            ),
            ProbeDetail::Nothing if policy == HashPolicy::MetadataOnly => Some(
                FileEntryView {
                    file_type: FileType::File,
                    mode: meta.mode,
                    uid: meta.uid,
                    gid: meta.gid,
                    size: meta.size,
                    hash: None,
                    symlink_target: None,
                },
            ),
            _ => None,
        },
        _ => None,
    }
}

impl FileEntry {
    /// What to read after an entry's metadata: a symlink's target, a regular
    /// file's content when the policy hashes, else nothing.
    pub fn probe_step(kind: EntryKind, policy: HashPolicy) -> (r: ProbeStep)
        ensures
            r == match kind {
                EntryKind::Symlink => ProbeStep::ReadLink,
                EntryKind::File => if policy == HashPolicy::Full {
                    ProbeStep::ReadContent
                } else {
                    ProbeStep::RecordMetadata
                },
                _ => ProbeStep::Skip,
            },
    {
        match kind {
            EntryKind::Symlink => ProbeStep::ReadLink,
            EntryKind::File => if policy.should_hash() {
                ProbeStep::ReadContent
            } else {
                ProbeStep::RecordMetadata
            },
            _ => ProbeStep::Skip,
        }
    }

    /// The entry recorded from probed metadata and what was read after it,
    /// as [`probed_entry`] says.
    pub fn from_probe(meta: &ProbedMetadata, detail: ProbeDetail, policy: HashPolicy) -> (r:
        Option<FileEntry>)
        ensures
            match r {
                Some(e) => probed_entry(*meta, detail, policy) == Some(e@),
                None => probed_entry(*meta, detail, policy) is None,
            },
    {
        match meta.kind {
            EntryKind::Symlink => match detail {
                ProbeDetail::LinkTarget(t) => Some(
                    FileEntry {
                        file_type: FileType::Symlink,
                        mode: meta.mode,
                        uid: meta.uid,
                        gid: meta.gid,
                        size: meta.size,
                        hash: None,
                        symlink_target: Some(t),
                    },
                ),
                _ => None,
            },
            EntryKind::File => match detail {
                ProbeDetail::Content(c) => {
                    if policy.should_hash() {
                        Some(
                            FileEntry {
                                file_type: FileType::File,
                                mode: meta.mode,
                                uid: meta.uid,
                                gid: meta.gid,
                                size: meta.size,
                                hash: Some(content_digest(c.as_slice())),
                                symlink_target: None,
                            },
                        )
                    } else {
                        None
                    }
                },
                ProbeDetail::Nothing => {
                    if policy.should_hash() {
                        None
                    } else {
                        Some(
                            FileEntry {
                                file_type: FileType::File,
                                mode: meta.mode,
                                uid: meta.uid,
                                gid: meta.gid,
                                size: meta.size,
                                hash: None,
                                symlink_target: None,
                            },
                        )
                    }
                },
                _ => None,
            },
            _ => None,
        }
    }
}

/// `path` placed under `root`: an absolute path loses its root directory first.
pub open spec fn join_root_spec(root: Seq<Seq<char>>, p: Seq<Seq<char>>) -> Seq<Seq<char>> {
    if path_is_absolute(p) {
        root + p.drop_first()
    } else {
        root + p
    }
}

/// A path under `from` moved to the same place under `to`; other paths stay.
pub open spec fn remap_spec(p: Seq<Seq<char>>, from: Seq<Seq<char>>, to: Seq<Seq<char>>) -> Seq<
    Seq<char>,
> {
    match path_strip_prefix(p, from) {
        Some(rest) => path_join(to, rest),
        None => p,
    }
}

/// A path under `root` as seen from inside it: `/` followed by what is left after `root`.
pub open spec fn root_relative_spec(root: Seq<Seq<char>>, p: Seq<Seq<char>>) -> Option<
    Seq<Seq<char>>,
> {
    match path_strip_prefix(p, root) {
        Some(rest) => Some(path_join(root_path(), rest)),
        None => None,
    }
}

/// Places `path` under `root`.
pub fn join_root(root: &FsPath, path: &FsPath) -> (r: FsPath)
    ensures
        r@ == join_root_spec(root@, path@),
{
    proof {
        use_type_invariant(path);
    }
    if path.is_absolute() {
        let slash = FsPath::root();
        assert(path@[0] =~= Seq::<char>::empty());
        assert(path@.take(1) =~= root_path());
        assert(path@.skip(1) =~= path@.drop_first());
        assert(path@.len() > 1 ==> path@.skip(1)[0] == path@[1]);
        match path.strip_prefix(&slash) {
            Some(stripped) => root.join(&stripped),
            None => root.join(path),
        }
    } else {
        root.join(path)
    }
}

/// Moves a path under `from` to the same place under `to`.
pub fn remap_prefix(path: &FsPath, from: &FsPath, to: &FsPath) -> (r: FsPath)
    ensures
        r@ == remap_spec(path@, from@, to@),
        !path_starts_with(path@, from@) ==> r@ == path@,
{
    match path.strip_prefix(from) {
        Some(suffix) => to.join(&suffix),
        None => path.clone(),
    }
}

/// A path under `root` as seen from inside it, or nothing when it is not under `root`.
pub fn to_root_relative(root: &FsPath, path: &FsPath) -> (r: Option<FsPath>)
    ensures
        match root_relative_spec(root@, path@) {
            Some(q) => r matches Some(x) && x@ == q,
            None => r is None,
        },
{
    match path.strip_prefix(root) {
        Some(relative) => Some(FsPath::root().join(&relative)),
        None => None,
    }
}

/// The exclusion paths placed under the scanned root.
pub fn build_exclude_roots(root: &FsPath, excludes: &Vec<FsPath>) -> (r: Vec<FsPath>)
    ensures
        r@.len() == excludes@.len(),
        forall|i: int| 0 <= i < r@.len() ==> #[trigger] r@[i]@ == join_root_spec(root@, excludes@[i]@),
{
    let mut r: Vec<FsPath> = Vec::new();
    let mut i: usize = 0;
    while i < excludes.len()
        invariant
            i <= excludes@.len(),
            r@.len() == i,
            forall|k: int| 0 <= k < i ==> #[trigger] r@[k]@ == join_root_spec(root@, excludes@[k]@),
        decreases excludes@.len() - i,
    {
        r.push(join_root(root, &excludes[i]));
        i = i + 1;
    }
    r
}

/// The path lies in (or is) one of the excluded paths.
pub open spec fn excluded_by(p: Seq<Seq<char>>, excludes: Seq<FsPath>) -> bool {
    exists|i: int| 0 <= i < excludes.len() && path_starts_with(p, #[trigger] excludes[i]@)
}

/// Whether the path lies in one of the excluded paths.
pub fn is_excluded(path: &FsPath, excludes: &Vec<FsPath>) -> (r: bool)
    ensures
        r == excluded_by(path@, excludes@),
{
    let mut i: usize = 0;
    while i < excludes.len()
        invariant
            i <= excludes@.len(),
            forall|k: int| 0 <= k < i ==> !path_starts_with(path@, #[trigger] excludes@[k]@),
        decreases excludes@.len() - i,
    {
        if path.starts_with(&excludes[i]) {
            return true;
        }
        i = i + 1;
    }
    false
}

/// What a directory walk does with an entry it meets.
#[derive(Clone, Copy, Debug, PartialEq, Eq, Structural)]
pub enum WalkStep {
    /// Leave the entry out, and for a directory everything below it.
    Skip,
    /// Walk into the directory.
    Descend,
    /// Record the entry's path.
    Record,
}

/// What a walk does with an entry under an include: excluded paths are
/// skipped, then, when the walk stays on one file system, entries on
/// another device; directories are walked and everything else recorded.
pub fn walk_entry_step(
    path: &FsPath,
    is_dir: bool,
    dev: u64,
    root_dev: u64,
    same_file_system: bool,
    exclude_roots: &Vec<FsPath>,
) -> (r: WalkStep)
    ensures
        r == if excluded_by(path@, exclude_roots@) {
            WalkStep::Skip
        } else if same_file_system && dev != root_dev {
            WalkStep::Skip
        } else if is_dir {
            WalkStep::Descend
        } else {
            WalkStep::Record
        },
{
    if is_excluded(path, exclude_roots) {
        WalkStep::Skip
    } else if same_file_system && dev != root_dev {
        WalkStep::Skip
    } else if is_dir {
        WalkStep::Descend
    } else {
        WalkStep::Record
    }
}

/// What a scan does with an include path that exists: skip it when
/// excluded, walk it when it is a directory, else record it.
pub fn include_step(include_root: &FsPath, is_dir: bool, exclude_roots: &Vec<FsPath>) -> (r:
    WalkStep)
    ensures
        r == if excluded_by(include_root@, exclude_roots@) {
            WalkStep::Skip
        } else if is_dir {
            WalkStep::Descend
        } else {
            WalkStep::Record
        },
{
    if is_excluded(include_root, exclude_roots) {
        WalkStep::Skip
    } else if is_dir {
        WalkStep::Descend
    } else {
        WalkStep::Record
    }
}

/// The pairs of a snapshot with their paths moved from under `from` to under `to`.
pub open spec fn remapped_pairs(
    s: Seq<(Seq<Seq<char>>, FileEntryView)>,
    from: Seq<Seq<char>>,
    to: Seq<Seq<char>>,
) -> Seq<(Seq<Seq<char>>, FileEntryView)> {
    s.map_values(|e: (Seq<Seq<char>>, FileEntryView)| (remap_spec(e.0, from, to), e.1))
}

/// A snapshot with every path under `from` moved to the same place under
/// `to`. Entries are moved in path order, so when two paths land on the same
/// place, the entry of the later one stays.
pub fn remap_map_prefix(entries: Snapshot, from: &FsPath, to: &FsPath) -> (r: Snapshot)
    ensures
        r@ == map_of_pairs(remapped_pairs(entries.pairs(), from@, to@)),
{
    let n = entries.entry_count();
    let ghost all = remapped_pairs(entries.pairs(), from@, to@);
    let mut r = Snapshot::new();
    let mut i: usize = 0;
    while i < n
        invariant
            n == entries.pairs().len(),
            i <= n,
            all == remapped_pairs(entries.pairs(), from@, to@),
            r@ == map_of_pairs(all.take(i as int)),
        decreases n - i,
    {
        let (p, e) = entries.entry_at(i);
        r.insert(remap_prefix(p, from, to), e.clone());
        assert(all.take(i + 1).drop_last() =~= all.take(i as int));
        i = i + 1;
    }
    assert(all.take(n as int) =~= all);
    r
}

/// A path placed under a root lies under that root.
pub proof fn lemma_joined_under_root(root: Seq<Seq<char>>, p: Seq<Seq<char>>)
    ensures
        path_starts_with(join_root_spec(root, p), root),
{
    assert(join_root_spec(root, p).take(root.len() as int) =~= root);
}

/// Seen from inside a root, a path placed under it is that path made absolute.
pub proof fn lemma_relative_of_joined(root: Seq<Seq<char>>, p: Seq<Seq<char>>)
    requires
        path_wf(p),
    ensures
        root_relative_spec(root, join_root_spec(root, p)) == Some(absolutize_spec(p)),
{
    let j = join_root_spec(root, p);
    let rest: Seq<Seq<char>> = if path_is_absolute(p) {
        p.drop_first()
    } else {
        p
    };
    assert(j.take(root.len() as int) =~= root);
    assert(j.skip(root.len() as int) =~= rest);
    if rest.len() > 0 {
        if path_is_absolute(p) {
            assert(rest[0] == p[1]);
        }
    }
    assert(!path_is_absolute(rest));
    if path_is_absolute(p) {
        assert(p[0] =~= Seq::<char>::empty());
        assert(root_path() + rest =~= p);
    }
}

/// Moving paths from `from` to `to` and back restores every path that was under `from`.
pub proof fn lemma_remap_round_trip(p: Seq<Seq<char>>, from: Seq<Seq<char>>, to: Seq<Seq<char>>)
    requires
        path_wf(p),
        path_starts_with(p, from),
        path_is_absolute(from),
    ensures
        remap_spec(remap_spec(p, from, to), to, from) == p,
{
    let rest = p.skip(from.len() as int);
    if rest.len() > 0 {
        assert(rest[0] == p[from.len() as int]);
    }
    assert(!path_is_absolute(rest));
    let moved = to + rest;
    assert(moved.take(to.len() as int) =~= to);
    assert(moved.skip(to.len() as int) =~= rest);
    assert(p.take(from.len() as int) =~= from);
    assert(from + rest =~= p);
}

/// A path that does not start with `from`, component by component, is left
/// as it is; one that does is moved under `to`, keeping what followed `from`.
pub proof fn lemma_remap_moves_only_paths_under_from(
    p: Seq<Seq<char>>,
    from: Seq<Seq<char>>,
    to: Seq<Seq<char>>,
)
    requires
        path_wf(p),
        from.len() > 0,
    ensures
        !path_starts_with(p, from) ==> remap_spec(p, from, to) == p,
        path_starts_with(p, from) ==> remap_spec(p, from, to) == to + p.skip(from.len() as int),
        path_starts_with(p, from) ==> path_starts_with(remap_spec(p, from, to), to),
{
    if path_starts_with(p, from) {
        let rest = p.skip(from.len() as int);
        if rest.len() > 0 {
            assert(rest[0] == p[from.len() as int]);
        }
        assert(!path_is_absolute(rest));
        assert((to + rest).take(to.len() as int) =~= to);
    }
}

/// Remapping a snapshot's paths keeps every path that is not under `from`,
/// puts every path under `from` in its moved place, and makes no path that
/// is not one of these; with no path under `from`, the snapshot is unchanged.
pub proof fn lemma_remap_snapshot_paths(
    s: Seq<(Seq<Seq<char>>, FileEntryView)>,
    from: Seq<Seq<char>>,
    to: Seq<Seq<char>>,
    p: Seq<Seq<char>>,
)
    ensures
        map_of_pairs(s).dom().contains(p) && !path_starts_with(p, from) ==> map_of_pairs(
            remapped_pairs(s, from, to),
        ).dom().contains(p),
        map_of_pairs(s).dom().contains(p) && path_starts_with(p, from) ==> map_of_pairs(
            remapped_pairs(s, from, to),
        ).dom().contains(path_join(to, p.skip(from.len() as int))),
        map_of_pairs(remapped_pairs(s, from, to)).dom().contains(p) ==> exists|q: Seq<Seq<char>>|
            map_of_pairs(s).dom().contains(q) && #[trigger] remap_spec(q, from, to) == p,
        (forall|i: int| 0 <= i < s.len() ==> !path_starts_with(#[trigger] s[i].0, from))
            ==> map_of_pairs(remapped_pairs(s, from, to)) == map_of_pairs(s),
{
    let t = remapped_pairs(s, from, to);
    lemma_map_of_pairs_dom(s, p);
    if map_of_pairs(s).dom().contains(p) {
        let i = choose|i: int| 0 <= i < s.len() && #[trigger] s[i].0 == p;
        assert(t[i].0 == remap_spec(p, from, to));
        lemma_map_of_pairs_dom(t, remap_spec(p, from, to));
    }
    lemma_map_of_pairs_dom(t, p);
    if map_of_pairs(t).dom().contains(p) {
        let i = choose|i: int| 0 <= i < t.len() && #[trigger] t[i].0 == p;
        lemma_map_of_pairs_dom(s, s[i].0);
        assert(remap_spec(s[i].0, from, to) == p);
    }
    if forall|i: int| 0 <= i < s.len() ==> !path_starts_with(#[trigger] s[i].0, from) {
        assert(t =~= s);
    }
}

/// Moving paths from a place to itself changes nothing.
pub proof fn lemma_remap_identity(p: Seq<Seq<char>>, a: Seq<Seq<char>>)
    requires
        path_wf(p),
    ensures
        remap_spec(p, a, a) == p,
{
    if path_starts_with(p, a) {
        let rest = p.skip(a.len() as int);
        assert(a + rest =~= p);
        if path_is_absolute(rest) {
            assert(rest[0] == p[a.len() as int]);
            assert(a.len() == 0);
            assert(rest =~= p);
        }
    }
}

/// Everything below an excluded path is excluded too.
pub proof fn lemma_exclusion_covers_descendants(p: Seq<Seq<char>>, q: Seq<Seq<char>>, excludes: Seq<FsPath>)
    requires
        excluded_by(p, excludes),
        path_starts_with(q, p),
    ensures
        excluded_by(q, excludes),
{
    let i = choose|i: int| 0 <= i < excludes.len() && path_starts_with(p, #[trigger] excludes[i]@);
    let e = excludes[i]@;
    assert(q.take(e.len() as int) =~= p.take(e.len() as int));
    assert(path_starts_with(q, excludes[i]@));
}

/// The views of a sequence of paths.
pub open spec fn path_views(v: Seq<FsPath>) -> Seq<Seq<Seq<char>>> {
    v.map_values(|p: FsPath| p@)
}

/// Paths in strictly increasing order, hence each once.
pub open spec fn strictly_sorted(s: Seq<Seq<Seq<char>>>) -> bool {
    forall|i: int, j: int| 0 <= i < j < s.len() ==> comps_lt(#[trigger] s[i], #[trigger] s[j])
}

/// Merges two strictly sorted path lists into one, keeping each path once.
fn merge_unique(a: &Vec<FsPath>, b: &Vec<FsPath>) -> (r: Vec<FsPath>)
    requires
        strictly_sorted(path_views(a@)),
        strictly_sorted(path_views(b@)),
    ensures
        strictly_sorted(path_views(r@)),
        forall|p: Seq<Seq<char>>|
            #[trigger] path_views(r@).contains(p) <==> path_views(a@).contains(p) || path_views(
                b@,
            ).contains(p),
{
    let ghost av = path_views(a@);
    let ghost bv = path_views(b@);
    let mut out: Vec<FsPath> = Vec::new();
    let mut i: usize = 0;
    let mut j: usize = 0;
    while i < a.len() || j < b.len()
        invariant
            av == path_views(a@),
            bv == path_views(b@),
            strictly_sorted(av),
            strictly_sorted(bv),
            i <= av.len(),
            j <= bv.len(),
            strictly_sorted(path_views(out@)),
            forall|k: int|
                0 <= k < out@.len() ==> (i < av.len() ==> comps_lt(
                    #[trigger] path_views(out@)[k],
                    av[i as int],
                )) && (j < bv.len() ==> comps_lt(path_views(out@)[k], bv[j as int])),
            forall|p: Seq<Seq<char>>|
                #[trigger] path_views(out@).contains(p) <==> av.take(i as int).contains(p)
                    || bv.take(j as int).contains(p),
        decreases av.len() + bv.len() - i - j,
    {
        let ghost old_out = path_views(out@);
        let side: i8 = if i == a.len() {
            1
        } else if j == b.len() {
            -1
        } else {
            a[i].compare(&b[j])
        };
        let ghost x: Seq<Seq<char>>;
        if side <= 0 {
            proof {
                x = av[i as int];
            }
            out.push(a[i].clone());
        } else {
            proof {
                x = bv[j as int];
            }
            out.push(b[j].clone());
        }
        assert(path_views(out@) =~= old_out.push(x));
        let ghost oi = i;
        let ghost oj = j;
        if side < 0 {
            i = i + 1;
        } else if side > 0 {
            j = j + 1;
        } else {
            i = i + 1;
            j = j + 1;
        }
        proof {
            if oi < av.len() && oj < bv.len() {
                lemma_comps_order_basics(av[oi as int], bv[oj as int]);
            }
            let nv = path_views(out@);
            assert forall|k1: int, k2: int| 0 <= k1 < k2 < nv.len() implies comps_lt(
                #[trigger] nv[k1],
                #[trigger] nv[k2],
            ) by {
                if k2 == nv.len() - 1 {
                    assert(nv[k2] == x);
                    assert(nv[k1] == old_out[k1]);
                } else {
                    assert(nv[k1] == old_out[k1] && nv[k2] == old_out[k2]);
                }
            }
            assert forall|k: int| 0 <= k < nv.len() implies (i < av.len() ==> comps_lt(
                #[trigger] nv[k],
                av[i as int],
            )) && (j < bv.len() ==> comps_lt(nv[k], bv[j as int])) by {
                if i < av.len() {
                    if i > oi {
                        assert(comps_lt(av[oi as int], av[i as int]));
                    }
                    if k < old_out.len() {
                        assert(nv[k] == old_out[k]);
                        if i > oi {
                            lemma_comps_order_transitive(nv[k], av[oi as int], av[i as int]);
                        }
                    } else {
                        assert(nv[k] == x);
                        if i == oi {
                            lemma_comps_order_basics(bv[oj as int], av[i as int]);
                        }
                    }
                }
                if j < bv.len() {
                    if j > oj {
                        assert(comps_lt(bv[oj as int], bv[j as int]));
                    }
                    if k < old_out.len() {
                        assert(nv[k] == old_out[k]);
                        if j > oj {
                            lemma_comps_order_transitive(nv[k], bv[oj as int], bv[j as int]);
                        }
                    } else {
                        assert(nv[k] == x);
                        if j > oj {
                            assert(x == bv[oj as int]);
                        }
                    }
                }
            }
            assert(av.take(i as int) =~= if i > oi { av.take(oi as int).push(av[oi as int]) } else { av.take(oi as int) });
            assert(bv.take(j as int) =~= if j > oj { bv.take(oj as int).push(bv[oj as int]) } else { bv.take(oj as int) });
            assert forall|p: Seq<Seq<char>>| #[trigger] nv.contains(p) <==> av.take(i as int).contains(p)
                || bv.take(j as int).contains(p) by {
                if nv.contains(p) {
                    let k = choose|k: int| 0 <= k < nv.len() && nv[k] == p;
                    if k < old_out.len() {
                        assert(old_out[k] == p);
                        assert(old_out.contains(p));
                        if av.take(oi as int).contains(p) {
                            let w = choose|w: int| 0 <= w < oi && av.take(oi as int)[w] == p;
                            assert(av.take(i as int)[w] == p);
                        } else {
                            let w = choose|w: int| 0 <= w < oj && bv.take(oj as int)[w] == p;
                            assert(bv.take(j as int)[w] == p);
                        }
                    } else if i > oi {
                        assert(av.take(i as int)[oi as int] == p);
                    } else {
                        assert(bv.take(j as int)[oj as int] == p);
                    }
                }
                if av.take(i as int).contains(p) {
                    let w = choose|w: int| 0 <= w < i && av.take(i as int)[w] == p;
                    if w < oi {
                        assert(av.take(oi as int)[w] == p);
                        assert(old_out.contains(p));
                        let k = choose|k: int| 0 <= k < old_out.len() && old_out[k] == p;
                        assert(nv[k] == p);
                    } else {
                        assert(nv[nv.len() - 1] == p);
                    }
                }
                if bv.take(j as int).contains(p) {
                    let w = choose|w: int| 0 <= w < j && bv.take(j as int)[w] == p;
                    if w < oj {
                        assert(bv.take(oj as int)[w] == p);
                        assert(old_out.contains(p));
                        let k = choose|k: int| 0 <= k < old_out.len() && old_out[k] == p;
                        assert(nv[k] == p);
                    } else {
                        assert(nv[nv.len() - 1] == p);
                    }
                }
            }
        }
    }
    assert(av.take(av.len() as int) =~= av);
    assert(bv.take(bv.len() as int) =~= bv);
    out
}

/// The given paths in strictly increasing order, each once.
pub fn sorted_unique_paths(v: Vec<FsPath>) -> (r: Vec<FsPath>)
    ensures
        strictly_sorted(path_views(r@)),
        forall|p: Seq<Seq<char>>|
            #[trigger] path_views(r@).contains(p) <==> path_views(v@).contains(p),
    decreases v@.len(),
{
    if v.len() <= 1 {
        return v;
    }
    let ghost all = path_views(v@);
    let mid = v.len() / 2;
    let mut left = v;
    let right = left.split_off(mid);
    assert(all =~= path_views(left@) + path_views(right@));
    let l = sorted_unique_paths(left);
    let r = sorted_unique_paths(right);
    let m = merge_unique(&l, &r);
    assert forall|p: Seq<Seq<char>>| #[trigger] path_views(m@).contains(p) <==> all.contains(p) by {
        let lv = path_views(left@);
        let rv = path_views(right@);
        if all.contains(p) {
            let k = choose|k: int| 0 <= k < all.len() && all[k] == p;
            if k < lv.len() {
                assert(lv[k] == p);
                assert(lv.contains(p));
            } else {
                assert(rv[k - lv.len()] == p);
                assert(rv.contains(p));
            }
        }
        if lv.contains(p) {
            let k = choose|k: int| 0 <= k < lv.len() && lv[k] == p;
            assert(all[k] == p);
        }
        if rv.contains(p) {
            let k = choose|k: int| 0 <= k < rv.len() && rv[k] == p;
            assert(all[k + lv.len()] == p);
        }
    }
    m
}

} // verus!
