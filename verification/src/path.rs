//! Filesystem paths as sequences of components.
//!
//! A path is the sequence of its components. The root directory is the
//! empty component, and it can only come first; every other component is a
//! non-empty name without `/` that is not `.`. Parsing a path string splits
//! it at `/`, drops empty and `.` pieces, and starts with the root component
//! when the string starts with `/`; `..` stays as a component, and sorts
//! before every name.
use vstd::prelude::*;

use crate::order::{
    compare_chars, compare_components, comps_order, lemma_char_seq_order_basics,
    lemma_comps_order_basics,
};
use crate::text::push_char;

verus! {

/// A name that can stand as a non-root component.
pub open spec fn is_component(c: Seq<char>) -> bool {
    c.len() > 0 && c != seq!['.'] && !c.contains('/')
}

/// A well-formed component sequence: the empty (root) component may only come first.
pub open spec fn path_wf(p: Seq<Seq<char>>) -> bool {
    forall|i: int| 0 <= i < p.len() ==> is_component(#[trigger] p[i]) || (i == 0 && p[i].len() == 0)
}

/// The path starts at the root directory.
pub open spec fn path_is_absolute(p: Seq<Seq<char>>) -> bool {
    p.len() > 0 && p[0].len() == 0
}

/// The path that is just the root directory, `/`.
pub open spec fn root_path() -> Seq<Seq<char>> {
    seq![Seq::<char>::empty()]
}

/// Joining: an absolute `other` replaces `base`; a relative one is appended.
pub open spec fn path_join(base: Seq<Seq<char>>, other: Seq<Seq<char>>) -> Seq<Seq<char>> {
    if path_is_absolute(other) {
        other
    } else {
        base + other
    }
}

/// The components of `base` are a prefix of the components of `p`.
pub open spec fn path_starts_with(p: Seq<Seq<char>>, base: Seq<Seq<char>>) -> bool {
    base.len() <= p.len() && p.take(base.len() as int) == base
}

/// What is left of `p` after the components of `base`, when `p` starts with `base`.
pub open spec fn path_strip_prefix(p: Seq<Seq<char>>, base: Seq<Seq<char>>) -> Option<Seq<Seq<char>>> {
    if path_starts_with(p, base) {
        Some(p.skip(base.len() as int))
    } else {
        None
    }
}

/// A piece of a path string that becomes a component.
pub open spec fn keep_piece(piece: Seq<char>) -> bool {
    piece.len() > 0 && piece != seq!['.']
}

/// Adds a finished piece to the components found so far, when it is kept.
pub open spec fn flush_piece(done: Seq<Seq<char>>, piece: Seq<char>) -> Seq<Seq<char>> {
    if keep_piece(piece) {
        done.push(piece)
    } else {
        done
    }
}

/// Reads a path string from left to right: the components finished so far,
/// and the piece after the last `/`.
pub open spec fn scan_pieces(s: Seq<char>) -> (Seq<Seq<char>>, Seq<char>)
    decreases s.len(),
{
    if s.len() == 0 {
        (Seq::empty(), Seq::empty())
    } else {
        let (done, piece) = scan_pieces(s.drop_last());
        if s.last() == '/' {
            (flush_piece(done, piece), Seq::empty())
        } else {
            (done, piece.push(s.last()))
        }
    }
}

/// The components of a path string.
pub open spec fn parse_path(s: Seq<char>) -> Seq<Seq<char>> {
    let (done, piece) = scan_pieces(s);
    let names = flush_piece(done, piece);
    if s.len() > 0 && s[0] == '/' {
        root_path() + names
    } else {
        names
    }
}

/// Components joined by `/`.
pub open spec fn join_with_slash(parts: Seq<Seq<char>>) -> Seq<char>
    decreases parts.len(),
{
    if parts.len() == 0 {
        Seq::empty()
    } else if parts.len() == 1 {
        parts[0]
    } else {
        join_with_slash(parts.drop_last()) + seq!['/'] + parts.last()
    }
}

/// The string form of a path: `/` for the root, then the names joined by `/`.
pub open spec fn render_path(p: Seq<Seq<char>>) -> Seq<char> {
    if path_is_absolute(p) {
        seq!['/'] + join_with_slash(p.drop_first())
    } else {
        join_with_slash(p)
    }
}

/// The views of a sequence of character vectors.
pub open spec fn chars_views(v: Seq<Vec<char>>) -> Seq<Seq<char>> {
    v.map_values(|c: Vec<char>| c@)
}

/// Pushing onto a vector of character vectors pushes its view.
pub proof fn lemma_chars_views_push(v: Seq<Vec<char>>, x: Vec<char>)
    ensures
        chars_views(v.push(x)) == chars_views(v).push(x@),
{
    assert(chars_views(v.push(x)) =~= chars_views(v).push(x@));
}

/// A path: the root directory (when absolute) followed by names.
#[derive(Debug)]
pub struct FsPath {
    comps: Vec<Vec<char>>,
}

impl View for FsPath {
    type V = Seq<Seq<char>>;

    closed spec fn view(&self) -> Seq<Seq<char>> {
        chars_views(self.comps@)
    }
}

/// A copy of a character vector.
fn copy_chars(v: &Vec<char>) -> (r: Vec<char>)
    ensures
        r@ == v@,
{
    let mut r: Vec<char> = Vec::new();
    let mut i: usize = 0;
    while i < v.len()
        invariant
            i <= v@.len(),
            r@ == v@.take(i as int),
        decreases v@.len() - i,
    {
        r.push(v[i]);
        assert(v@.take(i + 1) =~= v@.take(i as int).push(v@[i as int]));
        i = i + 1;
    }
    assert(v@.take(v@.len() as int) =~= v@);
    r
}

/// Whether a piece of a path string becomes a component.
fn keep_piece_exec(piece: &Vec<char>) -> (r: bool)
    ensures
        r == keep_piece(piece@),
{
    if piece.len() == 0 {
        false
    } else if piece.len() == 1 && piece[0] == '.' {
        assert(piece@ =~= seq!['.']);
        false
    } else {
        assert(piece@.len() != 1 ==> piece@ != seq!['.']);
        true
    }
}

/// Every component found by the scan is a proper name, and the open piece holds no `/`.
pub proof fn lemma_scan_pieces_names(s: Seq<char>)
    ensures
        forall|i: int|
            0 <= i < scan_pieces(s).0.len() ==> is_component(#[trigger] scan_pieces(s).0[i]),
        !scan_pieces(s).1.contains('/'),
    decreases s.len(),
{
    if s.len() > 0 {
        lemma_scan_pieces_names(s.drop_last());
        let (done, piece) = scan_pieces(s.drop_last());
        if s.last() != '/' {
            assert forall|j: int| 0 <= j < piece.push(s.last()).len() implies piece.push(
                s.last(),
            )[j] != '/' by {
                if j < piece.len() {
                    assert(piece[j] != '/');
                }
            }
        }
    }
}

/// Parsing always yields a well-formed path.
pub proof fn lemma_parse_path_wf(s: Seq<char>)
    ensures
        path_wf(parse_path(s)),
{
    lemma_scan_pieces_names(s);
    let (done, piece) = scan_pieces(s);
    let names = flush_piece(done, piece);
    assert forall|i: int| 0 <= i < names.len() implies is_component(#[trigger] names[i]) by {
        if i == done.len() {
            assert(names[i] == piece);
        }
    }
    if s.len() > 0 && s[0] == '/' {
        let p = root_path() + names;
        assert forall|i: int| 0 <= i < p.len() implies is_component(#[trigger] p[i]) || (i == 0
            && p[i].len() == 0) by {
            if i > 0 {
                assert(p[i] == names[i - 1]);
            }
        }
    }
}

/// Reading characters without `/` only extends the open piece.
proof fn lemma_scan_plain(s: Seq<char>, t: Seq<char>)
    requires
        !t.contains('/'),
    ensures
        scan_pieces(s + t).0 == scan_pieces(s).0,
        scan_pieces(s + t).1 == scan_pieces(s).1 + t,
    decreases t.len(),
{
    if t.len() == 0 {
        assert(s + t =~= s);
        assert(scan_pieces(s).1 + t =~= scan_pieces(s).1);
    } else {
        let u = t.drop_last();
        assert(!u.contains('/')) by {
            if u.contains('/') {
                let k = choose|k: int| 0 <= k < u.len() && u[k] == '/';
                assert(t[k] == '/');
            }
        }
        assert(t[t.len() - 1] != '/');
        lemma_scan_plain(s, u);
        assert((s + t).drop_last() =~= s + u);
        assert((s + t).last() == t.last());
        assert(scan_pieces(s).1 + t =~= (scan_pieces(s).1 + u).push(t.last()));
    }
}

/// The first character of names joined by `/` is the first character of the first name.
proof fn lemma_join_first(parts: Seq<Seq<char>>)
    requires
        parts.len() > 0,
        parts[0].len() > 0,
    ensures
        join_with_slash(parts).len() > 0,
        join_with_slash(parts)[0] == parts[0][0],
    decreases parts.len(),
{
    if parts.len() > 1 {
        lemma_join_first(parts.drop_last());
    }
}

/// Scanning names joined by `/` after a finished prefix recovers the names.
proof fn lemma_scan_join(pre: Seq<char>, parts: Seq<Seq<char>>)
    requires
        scan_pieces(pre).1.len() == 0,
        parts.len() > 0,
        forall|i: int| 0 <= i < parts.len() ==> is_component(#[trigger] parts[i]),
    ensures
        scan_pieces(pre + join_with_slash(parts)).0 == scan_pieces(pre).0 + parts.drop_last(),
        scan_pieces(pre + join_with_slash(parts)).1 == parts.last(),
    decreases parts.len(),
{
    let done = scan_pieces(pre).0;
    if parts.len() == 1 {
        assert(is_component(parts[0]));
        lemma_scan_plain(pre, parts[0]);
        assert(scan_pieces(pre).1 + parts[0] =~= parts[0]);
        assert(done + parts.drop_last() =~= done);
    } else {
        let pd = parts.drop_last();
        assert forall|i: int| 0 <= i < pd.len() implies is_component(#[trigger] pd[i]) by {
            assert(pd[i] == parts[i]);
        }
        lemma_scan_join(pre, pd);
        let x = join_with_slash(pd);
        let y = (pre + x).push('/');
        assert(y.drop_last() =~= pre + x);
        assert(is_component(pd.last()));
        assert(scan_pieces(y).0 =~= done + pd.drop_last().push(pd.last()));
        assert(pd.drop_last().push(pd.last()) =~= pd);
        assert(is_component(parts.last()));
        lemma_scan_plain(y, parts.last());
        assert(pre + join_with_slash(parts) =~= y + parts.last());
        assert(Seq::<char>::empty() + parts.last() =~= parts.last());
    }
}

/// The string form of a path parses back to the same path.
pub proof fn lemma_parse_render(p: Seq<Seq<char>>)
    requires
        path_wf(p),
    ensures
        parse_path(render_path(p)) == p,
{
    let s = render_path(p);
    if path_is_absolute(p) {
        let q = p.drop_first();
        assert(p[0] =~= Seq::<char>::empty());
        let slash = seq!['/'];
        assert(slash.drop_last() =~= Seq::<char>::empty());
        assert(scan_pieces(Seq::<char>::empty()).0.len() == 0);
        assert(scan_pieces(Seq::<char>::empty()).1.len() == 0);
        assert(!keep_piece(Seq::<char>::empty()));
        assert(scan_pieces(slash).0 =~= Seq::<Seq<char>>::empty());
        assert(scan_pieces(slash).1 =~= Seq::<char>::empty());
        if q.len() == 0 {
            assert(s =~= slash);
            assert(p =~= root_path());
            assert(root_path() + Seq::<Seq<char>>::empty() =~= root_path());
        } else {
            assert forall|i: int| 0 <= i < q.len() implies is_component(#[trigger] q[i]) by {
                assert(q[i] == p[i + 1]);
            }
            lemma_scan_join(slash, q);
            assert(q.drop_last().push(q.last()) =~= q);
            assert(Seq::<Seq<char>>::empty() + q.drop_last() =~= q.drop_last());
            assert(root_path() + q =~= p);
        }
    } else if p.len() == 0 {
        assert(s.len() == 0);
        assert(flush_piece(Seq::empty(), Seq::empty()) =~= p);
    } else {
        assert(is_component(p[0]));
        assert forall|i: int| 0 <= i < p.len() implies is_component(#[trigger] p[i]) by {
            if i == 0 {
            } else {
                assert(is_component(p[i]) || (i == 0 && p[i].len() == 0));
            }
        }
        let e = Seq::<char>::empty();
        lemma_scan_join(e, p);
        assert(e + join_with_slash(p) =~= s);
        assert(p.drop_last().push(p.last()) =~= p);
        assert(Seq::<Seq<char>>::empty() + p.drop_last() =~= p.drop_last());
        lemma_join_first(p);
        assert(!p[0].contains('/'));
        assert(s[0] == p[0][0]);
    }
}

/// Joining well-formed paths gives a well-formed path.
pub proof fn lemma_join_wf(base: Seq<Seq<char>>, other: Seq<Seq<char>>)
    requires
        path_wf(base),
        path_wf(other),
    ensures
        path_wf(path_join(base, other)),
{
    if !path_is_absolute(other) {
        let j = base + other;
        assert forall|i: int| 0 <= i < j.len() implies is_component(#[trigger] j[i]) || (i == 0
            && j[i].len() == 0) by {
            if i >= base.len() {
                assert(j[i] == other[i - base.len()]);
                assert(is_component(other[i - base.len()]) || (i - base.len() == 0
                    && other[i - base.len()].len() == 0));
            }
        }
    }
}

/// The string form of an absolute path starts with `/`.
pub proof fn lemma_render_absolute_starts_with_slash(p: Seq<Seq<char>>)
    requires
        path_is_absolute(p),
    ensures
        render_path(p).len() > 0,
        render_path(p)[0] == '/',
{
}

impl FsPath {
    #[verifier::type_invariant]
    pub open spec fn well_formed(self) -> bool {
        path_wf(self@)
    }

    /// Parses a path string.
    pub fn parse(s: &str) -> (r: FsPath)
        ensures
            r@ == parse_path(s@),
    {
        let mut done: Vec<Vec<char>> = Vec::new();
        let mut piece: Vec<char> = Vec::new();
        let mut first = true;
        let mut absolute = false;
        for c in it: s.chars()
            invariant
                it.seq() == s@,
                first == (it.index() == 0),
                absolute == (!first && s@[0] == '/'),
                (chars_views(done@), piece@) == scan_pieces(s@.take(it.index() as int)),
        {
            let ghost prev = s@.take(it.index() as int);
            let ghost old_done = done@;
            if first {
                absolute = c == '/';
                first = false;
            }
            if c == '/' {
                let ghost pv = piece@;
                if keep_piece_exec(&piece) {
                    done.push(piece);
                    assert(chars_views(done@) =~= chars_views(old_done).push(pv));
                }
                piece = Vec::new();
            } else {
                piece.push(c);
            }
            assert(s@.take(it.index() + 1).drop_last() =~= prev);
        }
        assert(s@.take(s@.len() as int) =~= s@);
        let ghost scanned = chars_views(done@);
        if keep_piece_exec(&piece) {
            done.push(piece);
            assert(chars_views(done@) =~= scanned.push(scan_pieces(s@).1));
        }
        if absolute {
            let ghost names = chars_views(done@);
            done.insert(0, Vec::new());
            assert(chars_views(done@) =~= root_path() + names);
        }
        proof {
            lemma_parse_path_wf(s@);
        }
        FsPath { comps: done }
    }

    /// The root directory, `/`.
    pub fn root() -> (r: FsPath)
        ensures
            r@ == root_path(),
    {
        let mut comps: Vec<Vec<char>> = Vec::new();
        comps.push(Vec::new());
        assert(chars_views(comps@) =~= root_path());
        FsPath { comps }
    }

    /// The string form of the path.
    pub fn to_string(&self) -> (r: String)
        ensures
            r@ == render_path(self@),
    {
        proof {
            use_type_invariant(self);
        }
        let mut r = String::new();
        let n = self.comps.len();
        let absolute = n > 0 && self.comps[0].len() == 0;
        let mut i: usize = 0;
        if absolute {
            push_char(&mut r, '/');
            i = 1;
        }
        let start = i;
        let ghost lead: Seq<char> = if absolute { seq!['/'] } else { Seq::empty() };
        assert(r@ =~= lead + join_with_slash(self@.subrange(start as int, i as int)));
        while i < n
            invariant
                n == self.comps@.len(),
                start <= i <= n,
                self@ == chars_views(self.comps@),
                r@ == lead + join_with_slash(self@.subrange(start as int, i as int)),
            decreases n - i,
        {
            let ghost before = r@;
            if i > start {
                push_char(&mut r, '/');
            }
            let ghost mid = r@;
            let comp = &self.comps[i];
            let mut j: usize = 0;
            while j < comp.len()
                invariant
                    j <= comp@.len(),
                    r@ == mid + comp@.take(j as int),
                decreases comp@.len() - j,
            {
                push_char(&mut r, comp[j]);
                assert(comp@.take(j + 1) =~= comp@.take(j as int).push(comp@[j as int]));
                assert(r@ =~= mid + comp@.take(j + 1));
                j = j + 1;
            }
            assert(comp@.take(comp@.len() as int) =~= comp@);
            let ghost sub = self@.subrange(start as int, i + 1);
            assert(sub.drop_last() =~= self@.subrange(start as int, i as int));
            assert(sub.last() == self@[i as int]);
            if i > start {
                assert(r@ =~= lead + join_with_slash(sub));
            } else {
                assert(r@ =~= lead + join_with_slash(sub));
            }
            i = i + 1;
        }
        if absolute {
            assert(self@.drop_first() =~= self@.subrange(1, n as int));
        } else {
            assert(self@ =~= self@.subrange(0, n as int));
        }
        r
    }

    /// Whether the path starts at the root directory.
    pub fn is_absolute(&self) -> (r: bool)
        ensures
            r == path_is_absolute(self@),
    {
        self.comps.len() > 0 && self.comps[0].len() == 0
    }

    /// Three-way comparison by components, as paths are ordered.
    pub fn compare(&self, other: &FsPath) -> (r: i8)
        ensures
            r as int == comps_order(self@, other@),
    {
        let a = &self.comps;
        let b = &other.comps;
        let mut i: usize = 0;
        assert(self@.skip(0) =~= self@);
        assert(other@.skip(0) =~= other@);
        loop
            invariant
                i <= a@.len(),
                i <= b@.len(),
                self@ == chars_views(a@),
                other@ == chars_views(b@),
                comps_order(self@, other@) == comps_order(
                    self@.skip(i as int),
                    other@.skip(i as int),
                ),
            decreases a@.len() - i,
        {
            if i == a.len() {
                if i == b.len() {
                    return 0;
                } else {
                    return -1;
                }
            }
            if i == b.len() {
                return 1;
            }
            let c = compare_components(&a[i], &b[i]);
            assert(self@.skip(i as int)[0] == a@[i as int]@);
            assert(other@.skip(i as int)[0] == b@[i as int]@);
            if c != 0 {
                return c;
            }
            assert(self@.skip(i as int).drop_first() =~= self@.skip(i + 1));
            assert(other@.skip(i as int).drop_first() =~= other@.skip(i + 1));
            i = i + 1;
        }
    }

    /// Whether two paths have the same components.
    pub fn same_as(&self, other: &FsPath) -> (r: bool)
        ensures
            r == (self@ == other@),
    {
        proof {
            lemma_comps_order_basics(self@, other@);
        }
        self.compare(other) == 0
    }

    /// Joins `other` onto this path: an absolute `other` replaces it.
    pub fn join(&self, other: &FsPath) -> (r: FsPath)
        ensures
            r@ == path_join(self@, other@),
    {
        proof {
            use_type_invariant(self);
            use_type_invariant(other);
        }
        if other.is_absolute() {
            return other.clone();
        }
        let mut comps: Vec<Vec<char>> = Vec::new();
        let mut i: usize = 0;
        while i < self.comps.len()
            invariant
                i <= self.comps@.len(),
                chars_views(comps@) == self@.take(i as int),
                self@ == chars_views(self.comps@),
            decreases self.comps@.len() - i,
        {
            let cp = copy_chars(&self.comps[i]);
            proof {
                lemma_chars_views_push(comps@, cp);
            }
            comps.push(cp);
            assert(chars_views(comps@) =~= self@.take(i + 1));
            i = i + 1;
        }
        let mut j: usize = 0;
        while j < other.comps.len()
            invariant
                j <= other.comps@.len(),
                chars_views(comps@) == self@ + other@.take(j as int),
                other@ == chars_views(other.comps@),
                self@.len() == self.comps@.len(),
            decreases other.comps@.len() - j,
        {
            if j == 0 {
                assert(self@.take(self.comps@.len() as int) =~= self@);
            }
            let cp = copy_chars(&other.comps[j]);
            proof {
                lemma_chars_views_push(comps@, cp);
            }
            comps.push(cp);
            assert(chars_views(comps@) =~= self@ + other@.take(j + 1));
            j = j + 1;
        }
        if other.comps.len() == 0 {
            assert(self@.take(self.comps@.len() as int) =~= self@);
        }
        assert(other@.take(other@.len() as int) =~= other@);
        let ghost joined = self@ + other@;
        assert forall|k: int| 0 <= k < joined.len() implies is_component(#[trigger] joined[k]) || (k
            == 0 && joined[k].len() == 0) by {
            if k >= self@.len() {
                assert(joined[k] == other@[k - self@.len()]);
            }
        }
        FsPath { comps }
    }

    /// Whether the components of `base` are a prefix of this path's components.
    pub fn starts_with(&self, base: &FsPath) -> (r: bool)
        ensures
            r == path_starts_with(self@, base@),
    {
        if base.comps.len() > self.comps.len() {
            return false;
        }
        let mut i: usize = 0;
        while i < base.comps.len()
            invariant
                base.comps@.len() <= self.comps@.len(),
                i <= base.comps@.len(),
                self@ == chars_views(self.comps@),
                base@ == chars_views(base.comps@),
                forall|k: int| 0 <= k < i ==> self@[k] == base@[k],
            decreases base.comps@.len() - i,
        {
            let c = compare_chars(&self.comps[i], &base.comps[i]);
            proof {
                lemma_char_seq_order_basics(self@[i as int], base@[i as int]);
            }
            if c != 0 {
                assert(self@.take(base@.len() as int)[i as int] != base@[i as int]);
                return false;
            }
            i = i + 1;
        }
        assert(self@.take(base@.len() as int) =~= base@);
        true
    }

    /// What is left after the components of `base`, when this path starts with them.
    pub fn strip_prefix(&self, base: &FsPath) -> (r: Option<FsPath>)
        ensures
            match path_strip_prefix(self@, base@) {
                Some(rest) => r matches Some(q) && q@ == rest,
                None => r is None,
            },
    {
        proof {
            use_type_invariant(self);
        }
        if !self.starts_with(base) {
            return None;
        }
        let start = base.comps.len();
        let mut comps: Vec<Vec<char>> = Vec::new();
        let mut i: usize = start;
        while i < self.comps.len()
            invariant
                start <= i <= self.comps@.len(),
                start == base@.len(),
                self@ == chars_views(self.comps@),
                chars_views(comps@) == self@.subrange(start as int, i as int),
            decreases self.comps@.len() - i,
        {
            let cp = copy_chars(&self.comps[i]);
            proof {
                lemma_chars_views_push(comps@, cp);
            }
            comps.push(cp);
            assert(chars_views(comps@) =~= self@.subrange(start as int, i + 1));
            i = i + 1;
        }
        let ghost rest = self@.skip(start as int);
        assert(rest =~= self@.subrange(start as int, self@.len() as int));
        assert forall|k: int| 0 <= k < rest.len() implies is_component(#[trigger] rest[k]) || (k == 0
            && rest[k].len() == 0) by {
            assert(rest[k] == self@[k + start]);
        }
        Some(FsPath { comps })
    }
}

impl Clone for FsPath {
    fn clone(&self) -> (r: Self)
        ensures
            r@ == self@,
    {
        proof {
            use_type_invariant(self);
        }
        let mut comps: Vec<Vec<char>> = Vec::new();
        let mut i: usize = 0;
        while i < self.comps.len()
            invariant
                i <= self.comps@.len(),
                chars_views(comps@) == self@.take(i as int),
                self@ == chars_views(self.comps@),
            decreases self.comps@.len() - i,
        {
            let cp = copy_chars(&self.comps[i]);
            proof {
                lemma_chars_views_push(comps@, cp);
            }
            comps.push(cp);
            assert(chars_views(comps@) =~= self@.take(i + 1));
            i = i + 1;
        }
        assert(self@.take(self@.len() as int) =~= self@);
        FsPath { comps }
    }
}

} // verus!
