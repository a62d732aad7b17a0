//! Snapshots: what a scan found, as a map from paths to file metadata.
//!
//! A snapshot keeps its entries in path order, with each path once.
use vstd::prelude::*;

use crate::order::{comps_lt, lemma_comps_order_basics, lemma_comps_order_transitive};
use crate::path::FsPath;
use crate::scanner::{FileEntry, FileEntryView};

verus! {

/// Pairs of path and entry, inserted one after another into a map: a later
/// pair for the same path replaces an earlier one.
pub open spec fn map_of_pairs(s: Seq<(Seq<Seq<char>>, FileEntryView)>) -> Map<
    Seq<Seq<char>>,
    FileEntryView,
>
    decreases s.len(),
{
    if s.len() == 0 {
        Map::empty()
    } else {
        map_of_pairs(s.drop_last()).insert(s.last().0, s.last().1)
    }
}

/// The paths of the pairs are in strictly increasing order.
pub open spec fn keys_strictly_sorted(s: Seq<(Seq<Seq<char>>, FileEntryView)>) -> bool {
    forall|i: int, j: int| 0 <= i < j < s.len() ==> comps_lt(#[trigger] s[i].0, #[trigger] s[j].0)
}

/// The views of a sequence of path and entry pairs.
pub open spec fn pair_views(v: Seq<(FsPath, FileEntry)>) -> Seq<(Seq<Seq<char>>, FileEntryView)> {
    v.map_values(|e: (FsPath, FileEntry)| (e.0@, e.1@))
}

/// Looking a path up in a map, as an option.
pub open spec fn lookup(m: Map<Seq<Seq<char>>, FileEntryView>, p: Seq<Seq<char>>) -> Option<
    FileEntryView,
> {
    if m.dom().contains(p) {
        Some(m[p])
    } else {
        None
    }
}

/// A path is in the map of some pairs exactly when some pair has it.
pub proof fn lemma_map_of_pairs_dom(s: Seq<(Seq<Seq<char>>, FileEntryView)>, k: Seq<Seq<char>>)
    ensures
        map_of_pairs(s).dom().contains(k) <==> exists|i: int| 0 <= i < s.len() && #[trigger] s[i].0 == k,
    decreases s.len(),
{
    if s.len() > 0 {
        lemma_map_of_pairs_dom(s.drop_last(), k);
        if map_of_pairs(s.drop_last()).dom().contains(k) {
            let i = choose|i: int| 0 <= i < s.drop_last().len() && #[trigger] s.drop_last()[i].0 == k;
            assert(s[i].0 == k);
        }
        if exists|i: int| 0 <= i < s.len() && #[trigger] s[i].0 == k {
            let i = choose|i: int| 0 <= i < s.len() && #[trigger] s[i].0 == k;
            if i < s.len() - 1 {
                assert(s.drop_last()[i].0 == k);
            }
        }
    }
}

/// With strictly sorted paths, the map holds each pair's entry under its path.
pub proof fn lemma_map_of_pairs_value(s: Seq<(Seq<Seq<char>>, FileEntryView)>, i: int)
    requires
        keys_strictly_sorted(s),
        0 <= i < s.len(),
    ensures
        map_of_pairs(s).dom().contains(s[i].0),
        map_of_pairs(s)[s[i].0] == s[i].1,
    decreases s.len(),
{
    if i == s.len() - 1 {
    } else {
        let d = s.drop_last();
        assert(keys_strictly_sorted(d)) by {
            assert forall|a: int, b: int| 0 <= a < b < d.len() implies comps_lt(
                #[trigger] d[a].0,
                #[trigger] d[b].0,
            ) by {
                assert(d[a] == s[a] && d[b] == s[b]);
            }
        }
        lemma_map_of_pairs_value(d, i);
        assert(d[i] == s[i]);
        assert(comps_lt(s[i].0, s.last().0));
        lemma_comps_order_basics(s[i].0, s.last().0);
    }
}

/// The map of sorted pairs maps each of their paths, and only those.
pub proof fn lemma_sorted_pairs_lookup(s: Seq<(Seq<Seq<char>>, FileEntryView)>, k: Seq<Seq<char>>)
    requires
        keys_strictly_sorted(s),
    ensures
        lookup(map_of_pairs(s), k) is Some <==> exists|i: int| 0 <= i < s.len() && #[trigger] s[i].0 == k,
        forall|i: int| 0 <= i < s.len() && #[trigger] s[i].0 == k ==> lookup(map_of_pairs(s), k) == Some(s[i].1),
{
    lemma_map_of_pairs_dom(s, k);
    assert forall|i: int| 0 <= i < s.len() && #[trigger] s[i].0 == k implies lookup(
        map_of_pairs(s),
        k,
    ) == Some(s[i].1) by {
        lemma_map_of_pairs_value(s, i);
    }
}

/// Reading a snapshot after recording an entry gives that entry back at its
/// path, and what was there before at every other path.
pub proof fn lemma_get_after_insert(
    m: Map<Seq<Seq<char>>, FileEntryView>,
    k: Seq<Seq<char>>,
    v: FileEntryView,
    q: Seq<Seq<char>>,
)
    ensures
        lookup(m.insert(k, v), q) == if q == k {
            Some(v)
        } else {
            lookup(m, q)
        },
{
}

/// Files found by a scan, keyed by path.
#[derive(Debug)]
pub struct Snapshot {
    entries: Vec<(FsPath, FileEntry)>,
}

impl Snapshot {
    /// The entries in path order.
    pub closed spec fn pairs(&self) -> Seq<(Seq<Seq<char>>, FileEntryView)> {
        pair_views(self.entries@)
    }

    #[verifier::type_invariant]
    spec fn sorted(self) -> bool {
        keys_strictly_sorted(self.pairs())
    }
}

impl View for Snapshot {
    type V = Map<Seq<Seq<char>>, FileEntryView>;

    open spec fn view(&self) -> Map<Seq<Seq<char>>, FileEntryView> {
        map_of_pairs(self.pairs())
    }
}

/// Where a path belongs among sorted pairs: every earlier path is smaller,
/// every later one is not.
fn find_slot(entries: &Vec<(FsPath, FileEntry)>, path: &FsPath) -> (r: usize)
    requires
        keys_strictly_sorted(pair_views(entries@)),
    ensures
        r <= entries@.len(),
        forall|k: int| 0 <= k < r ==> comps_lt(#[trigger] pair_views(entries@)[k].0, path@),
        forall|k: int|
            r <= k < entries@.len() ==> !comps_lt(#[trigger] pair_views(entries@)[k].0, path@),
{
    let ghost s = pair_views(entries@);
    let mut lo: usize = 0;
    let mut hi: usize = entries.len();
    while lo < hi
        invariant
            s == pair_views(entries@),
            keys_strictly_sorted(s),
            lo <= hi <= entries@.len(),
            forall|k: int| 0 <= k < lo ==> comps_lt(#[trigger] s[k].0, path@),
            forall|k: int| hi <= k < entries@.len() ==> !comps_lt(#[trigger] s[k].0, path@),
        decreases hi - lo,
    {
        let mid = lo + (hi - lo) / 2;
        let c = entries[mid].0.compare(path);
        assert(s[mid as int].0 == entries@[mid as int].0@);
        proof {
            lemma_comps_order_basics(s[mid as int].0, path@);
        }
        if c < 0 {
            assert forall|k: int| 0 <= k < mid + 1 implies comps_lt(#[trigger] s[k].0, path@) by {
                if k < mid {
                    lemma_comps_order_transitive(s[k].0, s[mid as int].0, path@);
                }
            }
            lo = mid + 1;
        } else {
            assert forall|k: int| mid <= k < entries@.len() implies !comps_lt(
                #[trigger] s[k].0,
                path@,
            ) by {
                if k > mid {
                    lemma_comps_order_basics(s[k].0, path@);
                    lemma_comps_order_basics(s[mid as int].0, path@);
                    lemma_comps_order_basics(s[mid as int].0, s[k].0);
                    if comps_lt(s[k].0, path@) {
                        lemma_comps_order_transitive(s[mid as int].0, s[k].0, path@);
                    }
                }
            }
            hi = mid;
        }
    }
    lo
}

impl Snapshot {
    /// An empty snapshot.
    pub fn new() -> (r: Snapshot)
        ensures
            r@ == Map::<Seq<Seq<char>>, FileEntryView>::empty(),
            r.pairs().len() == 0,
    {
        let r = Snapshot { entries: Vec::new() };
        assert(r.pairs() =~= Seq::empty());
        r
    }

    /// The number of entries; they are in strictly increasing path order.
    pub fn entry_count(&self) -> (n: usize)
        ensures
            n == self.pairs().len(),
            keys_strictly_sorted(self.pairs()),
    {
        proof {
            use_type_invariant(self);
        }
        self.entries.len()
    }

    /// The entry at a position in path order.
    pub fn entry_at(&self, i: usize) -> (r: (&FsPath, &FileEntry))
        requires
            i < self.pairs().len(),
        ensures
            r.0@ == self.pairs()[i as int].0,
            r.1@ == self.pairs()[i as int].1,
    {
        let e = &self.entries[i];
        (&e.0, &e.1)
    }

    /// The entry recorded for a path.
    pub fn get(&self, path: &FsPath) -> (r: Option<&FileEntry>)
        ensures
            match r {
                Some(e) => lookup(self@, path@) == Some(e@),
                None => lookup(self@, path@) is None,
            },
    {
        proof {
            use_type_invariant(self);
        }
        let ghost s = self.pairs();
        let slot = find_slot(&self.entries, path);
        proof {
            lemma_sorted_pairs_lookup(s, path@);
        }
        if slot < self.entries.len() {
            let e = &self.entries[slot];
            assert(s[slot as int].0 == e.0@);
            if e.0.same_as(path) {
                return Some(&e.1);
            }
            assert forall|k: int| 0 <= k < s.len() implies #[trigger] s[k].0 != path@ by {
                lemma_comps_order_basics(s[k].0, path@);
                if k > slot {
                    lemma_comps_order_basics(s[slot as int].0, s[k].0);
                    lemma_comps_order_basics(s[slot as int].0, path@);
                    if s[k].0 == path@ {
                        assert(comps_lt(s[slot as int].0, s[k].0));
                    }
                }
            }
        } else {
            assert forall|k: int| 0 <= k < s.len() implies #[trigger] s[k].0 != path@ by {
                lemma_comps_order_basics(s[k].0, path@);
            }
        }
        None
    }

    /// Records `entry` under `path`, replacing what was recorded there.
    pub fn insert(&mut self, path: FsPath, entry: FileEntry)
        ensures
            final(self)@ == old(self)@.insert(path@, entry@),
    {
        proof {
            use_type_invariant(&*self);
        }
        let ghost s = self.pairs();
        let ghost k = path@;
        let ghost v = entry@;
        let slot = find_slot(&self.entries, &path);
        let found = slot < self.entries.len() && self.entries[slot].0.same_as(&path);
        let ghost t: Seq<(Seq<Seq<char>>, FileEntryView)> = if found {
            s.update(slot as int, (k, v))
        } else {
            s.insert(slot as int, (k, v))
        };
        proof {
            if !found && slot < s.len() {
                lemma_comps_order_basics(s[slot as int].0, k);
            }
            assert forall|a: int, b: int| 0 <= a < b < t.len() implies comps_lt(
                #[trigger] t[a].0,
                #[trigger] t[b].0,
            ) by {
                if found {
                    if a == slot {
                        if b > slot {
                            assert(comps_lt(s[a].0, s[b].0));
                        }
                    } else if b == slot {
                    } else {
                    }
                } else {
                    if a < slot && b < slot {
                    } else if a < slot && b == slot {
                    } else if a < slot {
                        lemma_comps_order_basics(s[b - 1].0, k);
                        lemma_comps_order_basics(s[slot as int].0, k);
                        lemma_comps_order_transitive(t[a].0, k, t[b].0);
                    } else if a == slot {
                        lemma_comps_order_basics(s[b - 1].0, k);
                        lemma_comps_order_basics(s[slot as int].0, k);
                        if b - 1 > slot {
                            lemma_comps_order_transitive(k, s[slot as int].0, s[b - 1].0);
                        }
                    } else {
                        assert(comps_lt(s[a - 1].0, s[b - 1].0));
                    }
                }
            }
        }
        let mut entries: Vec<(FsPath, FileEntry)> = Vec::new();
        std::mem::swap(&mut entries, &mut self.entries);
        if found {
            entries[slot] = (path, entry);
        } else {
            entries.insert(slot, (path, entry));
        }
        assert(pair_views(entries@) =~= t);
        self.entries = entries;
        proof {
            let n = self.pairs();
            assert(n =~= t);
            let m0 = map_of_pairs(s);
            let m1 = map_of_pairs(t);
            assert forall|q: Seq<Seq<char>>| #[trigger] m1.dom().contains(q) <==> m0.insert(k, v).dom().contains(q) by {
                lemma_map_of_pairs_dom(s, q);
                lemma_map_of_pairs_dom(t, q);
                if q != k {
                    if exists|i: int| 0 <= i < s.len() && #[trigger] s[i].0 == q {
                        let i = choose|i: int| 0 <= i < s.len() && #[trigger] s[i].0 == q;
                        if found {
                            assert(t[i].0 == q);
                        } else if i < slot {
                            assert(t[i].0 == q);
                        } else {
                            assert(t[i + 1].0 == q);
                        }
                    }
                    if exists|i: int| 0 <= i < t.len() && #[trigger] t[i].0 == q {
                        let i = choose|i: int| 0 <= i < t.len() && #[trigger] t[i].0 == q;
                        if found {
                            assert(s[i].0 == q);
                        } else if i < slot {
                            assert(s[i].0 == q);
                        } else {
                            assert(s[i - 1].0 == q);
                        }
                    }
                } else {
                    assert(t[slot as int].0 == q);
                }
            }
            assert forall|q: Seq<Seq<char>>| #[trigger] m1.dom().contains(q) implies m1[q] == m0.insert(k, v)[q] by {
                lemma_map_of_pairs_dom(t, q);
                let i = choose|i: int| 0 <= i < t.len() && #[trigger] t[i].0 == q;
                lemma_map_of_pairs_value(t, i);
                if q != k {
                    let j = if found || i < slot { i } else { i - 1 };
                    assert(s[j].0 == q);
                    lemma_map_of_pairs_value(s, j);
                } else {
                    lemma_map_of_pairs_value(t, slot as int);
                }
            }
            assert(m1 =~= m0.insert(k, v));
        }
    }

    /// A snapshot of the given pairs, inserted in order: a later pair for a
    /// path replaces an earlier one.
    pub fn from_entries(entries: Vec<(FsPath, FileEntry)>) -> (r: Snapshot)
        ensures
            r@ == map_of_pairs(pair_views(entries@)),
    {
        let ghost all = pair_views(entries@);
        let mut r = Snapshot::new();
        let mut i: usize = 0;
        while i < entries.len()
            invariant
                i <= entries@.len(),
                all == pair_views(entries@),
                r@ == map_of_pairs(all.take(i as int)),
            decreases entries@.len() - i,
        {
            let p = entries[i].0.clone();
            let e = entries[i].1.clone();
            r.insert(p, e);
            assert(all.take(i + 1).drop_last() =~= all.take(i as int));
            assert(all.take(i + 1).last() == all[i as int]);
            i = i + 1;
        }
        assert(all.take(entries@.len() as int) =~= all);
        r
    }
}

} // verus!
