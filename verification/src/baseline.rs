//! Where the baseline tree comes from.
use vstd::prelude::*;

use crate::order::{char_seq_order, compare_chars, lemma_char_seq_order_basics, lemma_char_seq_order_transitive};
use crate::path::{parse_path, path_join, render_path, FsPath};
use crate::text::chars_of;

verus! {

/// The source of the baseline tree.
#[derive(Clone, Copy, Debug, PartialEq, Eq, Structural)]
pub enum BaselineKind {
    RpmOstree,
    Dir,
}

/// The name of a baseline kind.
pub open spec fn kind_name(kind: BaselineKind) -> Seq<char> {
    match kind {
        BaselineKind::RpmOstree => "rpm-ostree"@,
        BaselineKind::Dir => "dir"@,
    }
}

impl BaselineKind {
    /// The name of the kind, as the command line and the report spell it.
    pub fn as_str(self) -> (r: &'static str)
        ensures
            r@ == kind_name(self),
    {
        match self {
            BaselineKind::RpmOstree => "rpm-ostree",
            BaselineKind::Dir => "dir",
        }
    }
}

/// The baseline tree: its source, its root directory, and that directory
/// as the text it is shown by.
#[derive(Debug)]
pub struct Baseline {
    pub kind: BaselineKind,
    pub root: FsPath,
    pub root_text: String,
}

/// Why a baseline could not be found.
#[derive(Debug)]
pub enum BaselineError {
    /// A directory baseline was asked for without a directory.
    MissingBaselineDir,
    /// The baseline directory, as given, does not exist.
    BaselineDirNotFound(String),
    /// No deployment root was found for an rpm-ostree baseline.
    OstreeRootUnavailable,
    /// rpm-ostree reported no deployments.
    NoDeployments,
    /// The chosen deployment has no OS name.
    MissingOsname,
    /// The chosen deployment has neither a checksum nor a base checksum.
    MissingChecksum,
    /// No deployment directory starts with the checksum.
    NoDeploymentDir { checksum: String, deploy_root: FsPath },
}

/// Resolves the baseline tree. For a directory baseline, `dir_exists` tells
/// whether `baseline_dir` exists, and the directory keeps the text it was
/// given as; for an rpm-ostree baseline, `ostree_root` is the deployment root
/// that was found, if any.
pub fn resolve_baseline(
    kind: BaselineKind,
    baseline_dir: Option<String>,
    dir_exists: bool,
    ostree_root: Option<FsPath>,
) -> (r: Result<Baseline, BaselineError>)
    ensures
        match kind {
            BaselineKind::RpmOstree => match ostree_root {
                Some(root) => r matches Ok(b) && b.kind == kind && b.root@ == root@
                    && b.root_text@ == render_path(root@),
                None => r matches Err(BaselineError::OstreeRootUnavailable),
            },
            BaselineKind::Dir => match baseline_dir {
                None => r matches Err(BaselineError::MissingBaselineDir),
                Some(d) => if dir_exists {
                    r matches Ok(b) && b.kind == kind && b.root@ == parse_path(d@)
                        && b.root_text@ == d@
                } else {
                    r matches Err(BaselineError::BaselineDirNotFound(p)) && p@ == d@
                },
            },
        },
{
    match kind {
        BaselineKind::RpmOstree => match ostree_root {
            Some(root) => {
                let root_text = root.to_string();
                Ok(Baseline { kind, root, root_text })
            },
            None => Err(BaselineError::OstreeRootUnavailable),
        },
        BaselineKind::Dir => match baseline_dir {
            None => Err(BaselineError::MissingBaselineDir),
            Some(d) => if dir_exists {
                Ok(Baseline { kind, root: FsPath::parse(d.as_str()), root_text: d })
            } else {
                Err(BaselineError::BaselineDirNotFound(d))
            },
        },
    }
}

/// A deployment as rpm-ostree reports it.
#[derive(Debug)]
pub struct Deployment {
    pub booted: Option<bool>,
    pub osname: Option<String>,
    pub checksum: Option<String>,
    pub base_checksum: Option<String>,
}

/// The deployment is the booted one.
pub open spec fn is_booted(d: Deployment) -> bool {
    d.booted == Some(true)
}

/// Picks the booted deployment (the first, if several claim it), else the
/// first one; nothing when there are none.
pub fn select_deployment(deployments: &Vec<Deployment>) -> (r: Option<usize>)
    ensures
        match r {
            Some(i) => i < deployments@.len() && (if is_booted(deployments@[i as int]) {
                forall|k: int| 0 <= k < i ==> !is_booted(#[trigger] deployments@[k])
            } else {
                i == 0 && forall|k: int|
                    0 <= k < deployments@.len() ==> !is_booted(#[trigger] deployments@[k])
            }),
            None => deployments@.len() == 0,
        },
{
    let mut i: usize = 0;
    while i < deployments.len()
        invariant
            i <= deployments@.len(),
            forall|k: int| 0 <= k < i ==> !is_booted(#[trigger] deployments@[k]),
        decreases deployments@.len() - i,
    {
        let booted = match deployments[i].booted {
            Some(b) => b,
            None => false,
        };
        if booted {
            return Some(i);
        }
        i = i + 1;
    }
    if deployments.len() > 0 {
        Some(0)
    } else {
        None
    }
}

/// What identifies the deployment directory to look for.
#[derive(Debug)]
pub struct DeploymentTarget {
    pub osname: String,
    pub checksum: Option<String>,
    pub base_checksum: Option<String>,
}

/// The view of an optional string.
pub open spec fn opt_chars(s: Option<String>) -> Option<Seq<char>> {
    match s {
        Some(t) => Some(t@),
        None => None,
    }
}

/// A copy of an optional string.
fn copy_opt(s: &Option<String>) -> (r: Option<String>)
    ensures
        opt_chars(r) == opt_chars(*s),
{
    match s {
        Some(t) => Some(t.clone()),
        None => None,
    }
}

/// The target for the deployment [`select_deployment`] picks: it needs an OS
/// name, and a checksum or a base checksum.
pub fn deployment_target(deployments: &Vec<Deployment>) -> (r: Result<DeploymentTarget, BaselineError>)
    ensures
        deployments@.len() == 0 <==> (r matches Err(BaselineError::NoDeployments)),
        deployments@.len() > 0 ==> {
            let d = deployments@[chosen_deployment(deployments@)];
            &&& d.osname is None <==> (r matches Err(BaselineError::MissingOsname))
            &&& (d.osname is Some && d.checksum is None && d.base_checksum is None) <==> (r matches Err(
                BaselineError::MissingChecksum,
            ))
            &&& (r matches Ok(t) ==> opt_chars(Some(t.osname)) == opt_chars(d.osname) && opt_chars(
                t.checksum,
            ) == opt_chars(d.checksum) && opt_chars(t.base_checksum) == opt_chars(d.base_checksum))
            &&& (d.osname is Some && (d.checksum is Some || d.base_checksum is Some)) ==> r is Ok
        },
{
    match select_deployment(deployments) {
        None => Err(BaselineError::NoDeployments),
        Some(i) => {
            proof {
                lemma_chosen_deployment(deployments@, i as int);
            }
            let d = &deployments[i];
            match &d.osname {
                None => Err(BaselineError::MissingOsname),
                Some(osname) => {
                    if d.checksum.is_none() && d.base_checksum.is_none() {
                        Err(BaselineError::MissingChecksum)
                    } else {
                        Ok(
                            DeploymentTarget {
                                osname: osname.clone(),
                                checksum: copy_opt(&d.checksum),
                                base_checksum: copy_opt(&d.base_checksum),
                            },
                        )
                    }
                },
            }
        },
    }
}

/// The index [`select_deployment`] picks: the first booted one, else the first.
pub open spec fn chosen_deployment(ds: Seq<Deployment>) -> int {
    if exists|k: int| 0 <= k < ds.len() && #[trigger] is_booted(ds[k]) {
        choose|k: int|
            0 <= k < ds.len() && is_booted(ds[k]) && forall|m: int|
                0 <= m < k ==> !is_booted(#[trigger] ds[m])
    } else {
        0
    }
}

/// The first booted deployment is the one that is chosen.
proof fn lemma_chosen_deployment(ds: Seq<Deployment>, i: int)
    requires
        0 <= i < ds.len(),
        if is_booted(ds[i]) {
            forall|k: int| 0 <= k < i ==> !is_booted(#[trigger] ds[k])
        } else {
            i == 0 && forall|k: int| 0 <= k < ds.len() ==> !is_booted(#[trigger] ds[k])
        },
    ensures
        chosen_deployment(ds) == i,
{
    if is_booted(ds[i]) {
        assert(exists|k: int| 0 <= k < ds.len() && #[trigger] is_booted(ds[k]));
        let c = choose|k: int|
            0 <= k < ds.len() && is_booted(ds[k]) && forall|m: int|
                0 <= m < k ==> !is_booted(#[trigger] ds[m]);
        assert(0 <= i < ds.len() && is_booted(ds[i]) && forall|m: int|
            0 <= m < i ==> !is_booted(#[trigger] ds[m]));
        if c < i {
            assert(!is_booted(ds[c]));
        }
        if c > i {
            assert(!is_booted(ds[i]));
        }
    }
}

/// The directory holding an OS's deployments.
pub open spec fn deploy_root_spec(osname: Seq<char>) -> Seq<Seq<char>> {
    path_join(
        path_join(parse_path("/sysroot/ostree/deploy"@), parse_path(osname)),
        parse_path("deploy"@),
    )
}

/// The directory holding an OS's deployments.
pub fn deploy_root(osname: &str) -> (r: FsPath)
    ensures
        r@ == deploy_root_spec(osname@),
{
    FsPath::parse("/sysroot/ostree/deploy").join(&FsPath::parse(osname)).join(
        &FsPath::parse("deploy"),
    )
}

/// An entry of a directory listing.
#[derive(Debug)]
pub struct DirListing {
    pub name: String,
    pub is_dir: bool,
}

/// A directory whose name starts with the checksum.
pub open spec fn matches_checksum(e: DirListing, checksum: Seq<char>) -> bool {
    e.is_dir && checksum.len() <= e.name@.len() && e.name@.take(checksum.len() as int) == checksum
}

/// Entry `i` matches the checksum, no matching entry has a smaller name,
/// and every earlier matching entry has a larger one.
pub open spec fn is_first_match(listing: Seq<DirListing>, checksum: Seq<char>, i: int) -> bool {
    &&& 0 <= i < listing.len()
    &&& matches_checksum(listing[i], checksum)
    &&& forall|k: int|
        0 <= k < listing.len() && #[trigger] matches_checksum(listing[k], checksum) ==> char_seq_order(
            listing[i].name@,
            listing[k].name@,
        ) <= 0 && (k < i ==> char_seq_order(listing[i].name@, listing[k].name@) == -1)
}

/// Some entry matches the checksum.
pub open spec fn has_match(listing: Seq<DirListing>, checksum: Seq<char>) -> bool {
    exists|k: int| 0 <= k < listing.len() && #[trigger] matches_checksum(listing[k], checksum)
}

/// Whether `s` starts with `prefix`.
fn starts_with_chars(s: &Vec<char>, prefix: &Vec<char>) -> (r: bool)
    ensures
        r == (prefix@.len() <= s@.len() && s@.take(prefix@.len() as int) == prefix@),
{
    if prefix.len() > s.len() {
        return false;
    }
    let mut i: usize = 0;
    while i < prefix.len()
        invariant
            prefix@.len() <= s@.len(),
            i <= prefix@.len(),
            forall|k: int| 0 <= k < i ==> s@[k] == prefix@[k],
        decreases prefix@.len() - i,
    {
        if s[i] != prefix[i] {
            assert(s@.take(prefix@.len() as int)[i as int] != prefix@[i as int]);
            return false;
        }
        i = i + 1;
    }
    assert(s@.take(prefix@.len() as int) =~= prefix@);
    true
}

/// The deployment directory whose name starts with the checksum, the
/// smallest name first; nothing when none does.
pub fn match_deployment_dir(listing: &Vec<DirListing>, checksum: &str) -> (r: Option<usize>)
    ensures
        match r {
            Some(i) => is_first_match(listing@, checksum@, i as int),
            None => !has_match(listing@, checksum@),
        },
{
    let c = chars_of(checksum);
    let mut best: Option<usize> = None;
    let mut best_name: Vec<char> = Vec::new();
    let mut i: usize = 0;
    while i < listing.len()
        invariant
            i <= listing@.len(),
            c@ == checksum@,
            match best {
                Some(b) => b < i && best_name@ == listing@[b as int].name@ && matches_checksum(
                    listing@[b as int],
                    checksum@,
                ) && forall|k: int|
                    0 <= k < i && #[trigger] matches_checksum(listing@[k], checksum@)
                        ==> char_seq_order(best_name@, listing@[k].name@) <= 0 && (k < b
                        ==> char_seq_order(best_name@, listing@[k].name@) == -1),
                None => forall|k: int| 0 <= k < i ==> !#[trigger] matches_checksum(listing@[k], checksum@),
            },
        decreases listing@.len() - i,
    {
        let e = &listing[i];
        if e.is_dir {
            let name = chars_of(e.name.as_str());
            if starts_with_chars(&name, &c) {
                let better = match best {
                    None => true,
                    Some(_) => compare_chars(&name, &best_name) < 0,
                };
                proof {
                    lemma_char_seq_order_basics(name@, best_name@);
                    lemma_char_seq_order_basics(name@, name@);
                    if better && best is Some {
                        assert forall|k: int|
                            0 <= k < i && #[trigger] matches_checksum(listing@[k], checksum@) implies char_seq_order(
                            name@,
                            listing@[k].name@,
                        ) == -1 by {
                            lemma_char_seq_order_basics(best_name@, listing@[k].name@);
                            lemma_char_seq_order_basics(name@, listing@[k].name@);
                            if char_seq_order(best_name@, listing@[k].name@) == -1 {
                                lemma_char_seq_order_transitive(name@, best_name@, listing@[k].name@);
                            }
                        }
                    }
                }
                if better {
                    best = Some(i);
                    best_name = name;
                }
            }
        }
        i = i + 1;
    }
    proof {
        if let Some(b) = best {
            lemma_char_seq_order_basics(best_name@, best_name@);
        }
    }
    best
}

/// The deployment directory that was found, and whether it was found by
/// the base checksum after the checksum matched nothing.
#[derive(Debug)]
pub struct DeploymentChoice {
    pub root: FsPath,
    pub via_base: bool,
}

/// The path of listing entry `i` in the deployment directory.
pub open spec fn listed_path(root: Seq<Seq<char>>, listing: Seq<DirListing>, i: int) -> Seq<Seq<char>> {
    path_join(root, parse_path(listing[i].name@))
}

/// Finds the deployment directory for a target in the listing of its
/// deployment root: the first match of the checksum; when there is none, the
/// first match of a different base checksum; with no checksum, the first
/// match of the base checksum. When nothing matches, the error names the
/// checksum looked for first.
pub fn resolve_deployment_root(target: &DeploymentTarget, root: &FsPath, listing: &Vec<DirListing>) -> (r: Result<DeploymentChoice, BaselineError>)
    ensures
        match (target.checksum, target.base_checksum) {
            (Some(c), base) => if has_match(listing@, c@) {
                r matches Ok(ch) && !ch.via_base && exists|i: int|
                    is_first_match(listing@, c@, i) && ch.root@ == #[trigger] listed_path(root@, listing@, i)
            } else {
                match base {
                    Some(b) => if b@ != c@ && has_match(listing@, b@) {
                        r matches Ok(ch) && ch.via_base && exists|i: int|
                            is_first_match(listing@, b@, i) && ch.root@ == #[trigger] listed_path(root@, listing@, i)
                    } else {
                        r matches Err(BaselineError::NoDeploymentDir { checksum, deploy_root }) && checksum@ == c@
                            && deploy_root@ == root@
                    },
                    None => r matches Err(BaselineError::NoDeploymentDir { checksum, deploy_root }) && checksum@ == c@
                        && deploy_root@ == root@,
                }
            },
            (None, Some(b)) => if has_match(listing@, b@) {
                r matches Ok(ch) && !ch.via_base && exists|i: int|
                    is_first_match(listing@, b@, i) && ch.root@ == #[trigger] listed_path(root@, listing@, i)
            } else {
                r matches Err(BaselineError::NoDeploymentDir { checksum, deploy_root }) && checksum@ == b@
                    && deploy_root@ == root@
            },
            (None, None) => r matches Err(BaselineError::MissingChecksum),
        },
{
    match &target.checksum {
        Some(c) => {
            match match_deployment_dir(listing, c.as_str()) {
                Some(i) => {
                    let p = root.join(&FsPath::parse(listing[i].name.as_str()));
                    assert(matches_checksum(listing@[i as int], c@));
                    assert(listed_path(root@, listing@, i as int) == p@);
                    return Ok(DeploymentChoice { root: p, via_base: false });
                },
                None => {},
            }
            match &target.base_checksum {
                Some(b) => {
                    if *b != *c {
                        match match_deployment_dir(listing, b.as_str()) {
                            Some(i) => {
                                let p = root.join(&FsPath::parse(listing[i].name.as_str()));
                                assert(matches_checksum(listing@[i as int], b@));
                                assert(listed_path(root@, listing@, i as int) == p@);
                                return Ok(DeploymentChoice { root: p, via_base: true });
                            },
                            None => {},
                        }
                    }
                },
                None => {},
            }
            Err(BaselineError::NoDeploymentDir { checksum: c.clone(), deploy_root: root.clone() })
        },
        None => match &target.base_checksum {
            Some(b) => match match_deployment_dir(listing, b.as_str()) {
                Some(i) => {
                    let p = root.join(&FsPath::parse(listing[i].name.as_str()));
                    assert(matches_checksum(listing@[i as int], b@));
                    assert(listed_path(root@, listing@, i as int) == p@);
                    Ok(DeploymentChoice { root: p, via_base: false })
                },
                None => Err(BaselineError::NoDeploymentDir { checksum: b.clone(), deploy_root: root.clone() }),
            },
            None => Err(BaselineError::MissingChecksum),
        },
    }
}

} // verus!
