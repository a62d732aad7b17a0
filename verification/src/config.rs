//! Which paths a scan covers.
use vstd::prelude::*;

use crate::cli::ScanArgs;
use crate::path::{
    lemma_join_wf, lemma_parse_path_wf, lemma_parse_render, lemma_render_absolute_starts_with_slash,
    parse_path, path_is_absolute, path_join, path_wf, render_path, root_path, FsPath,
};
use crate::text::{chars_of, string_of};

verus! {

/// A path made absolute: a relative path is placed under `/`.
pub open spec fn absolutize_spec(p: Seq<Seq<char>>) -> Seq<Seq<char>> {
    if path_is_absolute(p) {
        p
    } else {
        path_join(root_path(), p)
    }
}

/// The string form of joining a relative path onto `base`: a `/` goes
/// between them unless `base` is empty or already ends with one.
pub open spec fn join_str_spec(base: Seq<char>, rel: Seq<char>) -> Seq<char> {
    if base.len() == 0 || base.last() == '/' {
        base + rel
    } else {
        base + seq!['/'] + rel
    }
}

/// The path string starts with the home directory shorthand: it is `~` or starts with `~/`.
pub open spec fn is_tilde_path(s: Seq<char>) -> bool {
    s == seq!['~'] || (s.len() >= 2 && s[0] == '~' && s[1] == '/')
}

/// A path string with a leading `~` replaced by the home directory, when one is known.
pub open spec fn expand_tilde_spec(s: Seq<char>, home: Option<Seq<char>>) -> Seq<Seq<char>> {
    match home {
        Some(h) => if is_tilde_path(s) {
            let tail = if s.len() >= 2 {
                s.skip(2)
            } else {
                Seq::empty()
            };
            if tail.len() == 0 {
                parse_path(h)
            } else {
                path_join(parse_path(h), parse_path(tail))
            }
        } else {
            parse_path(s)
        },
        None => parse_path(s),
    }
}

/// A path string with `~` expanded, made absolute.
pub open spec fn normalize_spec(s: Seq<char>, home: Option<Seq<char>>) -> Seq<Seq<char>> {
    absolutize_spec(expand_tilde_spec(s, home))
}

/// The first occurrence of each value, in order.
pub open spec fn dedup_first(s: Seq<Seq<Seq<char>>>) -> Seq<Seq<Seq<char>>>
    decreases s.len(),
{
    if s.len() == 0 {
        s
    } else {
        let d = dedup_first(s.drop_last());
        if d.contains(s.last()) {
            d
        } else {
            d.push(s.last())
        }
    }
}

/// The views of some strings.
pub open spec fn string_views(v: Seq<String>) -> Seq<Seq<char>> {
    v.map_values(|s: String| s@)
}

/// The views of some paths.
pub open spec fn fs_path_views(v: Seq<FsPath>) -> Seq<Seq<Seq<char>>> {
    v.map_values(|p: FsPath| p@)
}

/// The view of an optional string.
pub open spec fn opt_view(s: Option<String>) -> Option<Seq<char>> {
    match s {
        Some(t) => Some(t@),
        None => None,
    }
}

/// Every path string normalized.
pub open spec fn normalize_all(paths: Seq<Seq<char>>, home: Option<Seq<char>>) -> Seq<
    Seq<Seq<char>>,
> {
    paths.map_values(|s: Seq<char>| normalize_spec(s, home))
}

/// The paths scanned unless defaults are turned off.
pub open spec fn default_includes_spec(home: Option<Seq<char>>) -> Seq<Seq<char>> {
    let fixed = seq!["/etc"@, "/usr"@, "/boot"@, "/usr/local"@, "/opt"@];
    match home {
        Some(h) => fixed + seq![
            join_str_spec(h, ".config"@),
            join_str_spec(h, ".local/bin"@),
            join_str_spec(h, ".local/share"@),
            join_str_spec(h, ".bashrc"@),
            join_str_spec(h, ".zshrc"@),
            join_str_spec(h, ".profile"@),
            join_str_spec(h, ".ssh/config"@),
        ],
        None => fixed,
    }
}

/// The paths left out unless defaults are turned off.
pub open spec fn default_excludes_spec(home: Option<Seq<char>>) -> Seq<Seq<char>> {
    let fixed = seq![
        "/proc"@,
        "/sys"@,
        "/dev"@,
        "/run"@,
        "/tmp"@,
        "/var/log"@,
        "/var/cache"@,
        "/var/lib/containers"@,
    ];
    match home {
        Some(h) => fixed.push(join_str_spec(h, ".cache"@)),
        None => fixed,
    }
}

/// Joins a relative path string onto a base path string.
fn join_str(base: &str, rel: &str) -> (r: String)
    ensures
        r@ == join_str_spec(base@, rel@),
{
    let cs = chars_of(base);
    let mut r = string_of(cs.as_slice());
    if cs.len() > 0 && cs[cs.len() - 1] != '/' {
        r.append("/");
        proof {
            reveal_strlit("/");
        }
    }
    r.append(rel);
    r
}

/// The paths scanned unless defaults are turned off; those in the home
/// directory only when it is known.
pub fn default_includes(home: &Option<String>) -> (r: Vec<String>)
    ensures
        string_views(r@) == default_includes_spec(opt_view(*home)),
{
    let mut r: Vec<String> = Vec::new();
    r.push(String::from_str("/etc"));
    r.push(String::from_str("/usr"));
    r.push(String::from_str("/boot"));
    r.push(String::from_str("/usr/local"));
    r.push(String::from_str("/opt"));
    match home {
        Some(h) => {
            r.push(join_str(h.as_str(), ".config"));
            r.push(join_str(h.as_str(), ".local/bin"));
            r.push(join_str(h.as_str(), ".local/share"));
            r.push(join_str(h.as_str(), ".bashrc"));
            r.push(join_str(h.as_str(), ".zshrc"));
            r.push(join_str(h.as_str(), ".profile"));
            r.push(join_str(h.as_str(), ".ssh/config"));
        },
        None => {},
    }
    assert(string_views(r@) =~= default_includes_spec(opt_view(*home)));
    r
}

/// The paths left out unless defaults are turned off; the cache in the home
/// directory only when it is known.
pub fn default_excludes(home: &Option<String>) -> (r: Vec<String>)
    ensures
        string_views(r@) == default_excludes_spec(opt_view(*home)),
{
    let mut r: Vec<String> = Vec::new();
    r.push(String::from_str("/proc"));
    r.push(String::from_str("/sys"));
    r.push(String::from_str("/dev"));
    r.push(String::from_str("/run"));
    r.push(String::from_str("/tmp"));
    r.push(String::from_str("/var/log"));
    r.push(String::from_str("/var/cache"));
    r.push(String::from_str("/var/lib/containers"));
    match home {
        Some(h) => {
            r.push(join_str(h.as_str(), ".cache"));
        },
        None => {},
    }
    assert(string_views(r@) =~= default_excludes_spec(opt_view(*home)));
    r
}

/// Expands a leading `~` to the home directory, when one is known.
pub fn expand_tilde(path: &str, home: &Option<String>) -> (r: FsPath)
    ensures
        r@ == expand_tilde_spec(path@, opt_view(*home)),
{
    let cs = chars_of(path);
    let tilde_only = cs.len() == 1 && cs[0] == '~';
    let tilde_slash = cs.len() >= 2 && cs[0] == '~' && cs[1] == '/';
    proof {
        if cs@.len() == 1 && cs@[0] == '~' {
            assert(cs@ =~= seq!['~']);
        }
        if cs@ == seq!['~'] {
            assert(cs@[0] == '~');
        }
    }
    match home {
        Some(h) => {
            if tilde_only || tilde_slash {
                let mut tail: Vec<char> = Vec::new();
                if tilde_slash {
                    let mut i: usize = 2;
                    while i < cs.len()
                        invariant
                            2 <= i <= cs@.len(),
                            tail@ == cs@.subrange(2, i as int),
                        decreases cs@.len() - i,
                    {
                        tail.push(cs[i]);
                        assert(cs@.subrange(2, i + 1) =~= cs@.subrange(2, i as int).push(cs@[i as int]));
                        i = i + 1;
                    }
                    assert(tail@ =~= cs@.skip(2));
                } else {
                    assert(tail@ =~= Seq::<char>::empty());
                }
                let home_path = FsPath::parse(h.as_str());
                if tail.len() == 0 {
                    return home_path;
                }
                let tail_str = string_of(tail.as_slice());
                return home_path.join(&FsPath::parse(tail_str.as_str()));
            }
            FsPath::parse(path)
        },
        None => FsPath::parse(path),
    }
}

/// Makes a path absolute by placing a relative one under `/`.
pub fn absolutize(path: FsPath) -> (r: FsPath)
    ensures
        r@ == absolutize_spec(path@),
{
    if path.is_absolute() {
        path
    } else {
        FsPath::root().join(&path)
    }
}

/// A path string with `~` expanded, made absolute.
pub fn normalize_path(path: &str, home: &Option<String>) -> (r: FsPath)
    ensures
        r@ == normalize_spec(path@, opt_view(*home)),
{
    absolutize(expand_tilde(path, home))
}

/// Whether some path in the list has the same components.
fn contains_path(v: &Vec<FsPath>, p: &FsPath) -> (r: bool)
    ensures
        r == fs_path_views(v@).contains(p@),
{
    let mut i: usize = 0;
    while i < v.len()
        invariant
            i <= v@.len(),
            forall|k: int| 0 <= k < i ==> #[trigger] v@[k]@ != p@,
        decreases v@.len() - i,
    {
        if v[i].same_as(p) {
            assert(fs_path_views(v@)[i as int] == p@);
            return true;
        }
        i = i + 1;
    }
    proof {
        if fs_path_views(v@).contains(p@) {
            let k = choose|k: int| 0 <= k < v@.len() && fs_path_views(v@)[k] == p@;
            assert(v@[k]@ == p@);
        }
    }
    false
}

/// The path strings normalized, each resulting path kept once, in the order
/// of first occurrence.
pub fn normalize_paths(paths: &Vec<String>, home: &Option<String>) -> (r: Vec<FsPath>)
    ensures
        fs_path_views(r@) == dedup_first(normalize_all(string_views(paths@), opt_view(*home))),
{
    let ghost all = normalize_all(string_views(paths@), opt_view(*home));
    let mut out: Vec<FsPath> = Vec::new();
    let mut i: usize = 0;
    while i < paths.len()
        invariant
            i <= paths@.len(),
            all == normalize_all(string_views(paths@), opt_view(*home)),
            fs_path_views(out@) == dedup_first(all.take(i as int)),
        decreases paths@.len() - i,
    {
        let normalized = normalize_path(paths[i].as_str(), home);
        assert(all.take(i + 1).drop_last() =~= all.take(i as int));
        assert(all.take(i + 1).last() == normalized@);
        if !contains_path(&out, &normalized) {
            let ghost before = out@;
            out.push(normalized);
            assert(fs_path_views(out@) =~= fs_path_views(before).push(all[i as int]));
        }
        i = i + 1;
    }
    assert(all.take(paths@.len() as int) =~= all);
    out
}

/// The paths a scan covers and the paths it leaves out, normalized.
#[derive(Debug)]
pub struct ScanConfig {
    pub includes: Vec<FsPath>,
    pub excludes: Vec<FsPath>,
}

/// The path strings a scan starts from: the default includes (unless turned
/// off), then the given ones.
pub open spec fn requested_paths(defaults: Seq<Seq<char>>, no_defaults: bool, given: Seq<Seq<char>>) -> Seq<Seq<char>> {
    if no_defaults {
        given
    } else {
        defaults + given
    }
}

impl ScanConfig {
    /// The scan configuration for the given options, each list normalized
    /// with every path kept once. The includes are the default includes
    /// (unless turned off) followed by the given ones; the excludes are always
    /// the default excludes followed by the given ones. `home` is the home
    /// directory, when it is known.
    pub fn from_args(args: &ScanArgs, home: &Option<String>) -> (r: ScanConfig)
        ensures
            fs_path_views(r.includes@) == dedup_first(
                normalize_all(
                    requested_paths(
                        default_includes_spec(opt_view(*home)),
                        args.no_defaults,
                        string_views(args.include_paths@),
                    ),
                    opt_view(*home),
                ),
            ),
            fs_path_views(r.excludes@) == dedup_first(
                normalize_all(
                    default_excludes_spec(opt_view(*home)) + string_views(args.exclude_paths@),
                    opt_view(*home),
                ),
            ),
    {
        let mut includes: Vec<String> = if args.no_defaults {
            Vec::new()
        } else {
            default_includes(home)
        };
        let mut excludes: Vec<String> = default_excludes(home);
        extend_strings(&mut includes, &args.include_paths);
        extend_strings(&mut excludes, &args.exclude_paths);
        proof {
            if args.no_defaults {
                assert(Seq::<Seq<char>>::empty() + string_views(args.include_paths@) =~= string_views(args.include_paths@));
            }
        }
        let includes = normalize_paths(&includes, home);
        let excludes = normalize_paths(&excludes, home);
        ScanConfig { includes, excludes }
    }
}

/// Appends copies of the given strings.
fn extend_strings(v: &mut Vec<String>, more: &Vec<String>)
    ensures
        string_views(final(v)@) == string_views(old(v)@) + string_views(more@),
{
    let ghost start = string_views(v@);
    let mut i: usize = 0;
    while i < more.len()
        invariant
            i <= more@.len(),
            string_views(v@) == start + string_views(more@).take(i as int),
        decreases more@.len() - i,
    {
        let ghost before = v@;
        v.push(more[i].clone());
        assert(string_views(v@) =~= string_views(before).push(more@[i as int]@));
        assert(string_views(more@).take(i + 1) =~= string_views(more@).take(i as int).push(more@[i as int]@));
        i = i + 1;
    }
    assert(string_views(more@).take(more@.len() as int) =~= string_views(more@));
}

/// A normalized path is absolute.
pub proof fn lemma_normalized_absolute(s: Seq<char>, home: Option<Seq<char>>)
    ensures
        path_is_absolute(normalize_spec(s, home)),
{
}

/// A normalized path is well formed.
pub proof fn lemma_normalized_wf(s: Seq<char>, home: Option<Seq<char>>)
    ensures
        path_wf(normalize_spec(s, home)),
{
    lemma_parse_path_wf(s);
    if let Some(h) = home {
        lemma_parse_path_wf(h);
        if is_tilde_path(s) {
            let tail = if s.len() >= 2 {
                s.skip(2)
            } else {
                Seq::empty()
            };
            lemma_parse_path_wf(tail);
            lemma_join_wf(parse_path(h), parse_path(tail));
        }
    }
    let e = expand_tilde_spec(s, home);
    assert(path_wf(root_path()));
    lemma_join_wf(root_path(), e);
}

/// Normalizing the string form of a normalized path gives the same path.
pub proof fn lemma_normalize_idempotent(s: Seq<char>, home: Option<Seq<char>>)
    ensures
        normalize_spec(render_path(normalize_spec(s, home)), home) == normalize_spec(s, home),
{
    let p = normalize_spec(s, home);
    lemma_normalized_wf(s, home);
    lemma_normalized_absolute(s, home);
    lemma_render_absolute_starts_with_slash(p);
    let t = render_path(p);
    assert(!is_tilde_path(t));
    lemma_parse_render(p);
}

/// The normalized list holds each path once.
pub proof fn lemma_dedup_first_unique(s: Seq<Seq<Seq<char>>>)
    ensures
        forall|i: int, j: int|
            0 <= i < j < dedup_first(s).len() ==> dedup_first(s)[i] != dedup_first(s)[j],
    decreases s.len(),
{
    if s.len() > 0 {
        lemma_dedup_first_unique(s.drop_last());
        let d = dedup_first(s.drop_last());
        if !d.contains(s.last()) {
            assert forall|i: int, j: int| 0 <= i < j < d.push(s.last()).len() implies d.push(
                s.last(),
            )[i] != d.push(s.last())[j] by {
                if j == d.len() {
                    assert(d[i] == d.push(s.last())[i]);
                }
            }
        }
    }
}

/// The normalized list holds exactly the paths that occur in the input.
pub proof fn lemma_dedup_first_contains(s: Seq<Seq<Seq<char>>>, p: Seq<Seq<char>>)
    ensures
        dedup_first(s).contains(p) <==> s.contains(p),
    decreases s.len(),
{
    if s.len() > 0 {
        let t = s.drop_last();
        lemma_dedup_first_contains(t, p);
        let d = dedup_first(t);
        if s.contains(p) {
            let k = choose|k: int| 0 <= k < s.len() && s[k] == p;
            if k < t.len() {
                assert(t[k] == p);
            } else if !d.contains(s.last()) {
                assert(d.push(s.last())[d.len() as int] == p);
            }
        }
        if d.contains(p) {
            let k = choose|k: int| 0 <= k < d.len() && d[k] == p;
            if !d.contains(s.last()) {
                assert(d.push(s.last())[k] == p);
            }
            let w = choose|w: int| 0 <= w < t.len() && t[w] == p;
            assert(s[w] == p);
        }
        if !d.contains(s.last()) && d.push(s.last()).contains(p) {
            let k = choose|k: int| 0 <= k < d.len() + 1 && d.push(s.last())[k] == p;
            if k == d.len() {
                assert(s[s.len() - 1] == p);
            } else {
                assert(d[k] == p);
            }
        }
    }
}

} // verus!
