//! Lexicographic order on character sequences and on component sequences.
//!
//! Characters compare by code point, which is also the order of their UTF-8
//! encodings. Components compare by kind first (the root component, then
//! `..`, then names) and names by their characters; component sequences
//! compare component by component.
use vstd::prelude::*;

verus! {

/// Three-way lexicographic comparison of two character sequences:
/// `-1` when `a` comes first, `1` when `b` comes first, `0` when equal.
pub open spec fn char_seq_order(a: Seq<char>, b: Seq<char>) -> int
    decreases a.len(),
{
    if a.len() == 0 {
        if b.len() == 0 { 0 } else { -1 }
    } else if b.len() == 0 {
        1
    } else if (a[0] as int) < (b[0] as int) {
        -1
    } else if (a[0] as int) > (b[0] as int) {
        1
    } else {
        char_seq_order(a.drop_first(), b.drop_first())
    }
}

/// The component `..`, which stands for the parent directory.
pub open spec fn is_parent_comp(c: Seq<char>) -> bool {
    c.len() == 2 && c[0] == '.' && c[1] == '.'
}

/// The kind of a component, in the order kinds sort: the root (empty)
/// component, then `..`, then names.
pub open spec fn comp_rank(c: Seq<char>) -> int {
    if c.len() == 0 {
        0
    } else if is_parent_comp(c) {
        1
    } else {
        2
    }
}

/// Three-way comparison of two components: by kind, and two names by
/// [`char_seq_order`].
pub open spec fn comp_order(a: Seq<char>, b: Seq<char>) -> int {
    if comp_rank(a) < comp_rank(b) {
        -1
    } else if comp_rank(a) > comp_rank(b) {
        1
    } else if comp_rank(a) == 2 {
        char_seq_order(a, b)
    } else {
        0
    }
}

/// Three-way lexicographic comparison of two sequences of components,
/// each component compared by [`comp_order`].
pub open spec fn comps_order(a: Seq<Seq<char>>, b: Seq<Seq<char>>) -> int
    decreases a.len(),
{
    if a.len() == 0 {
        if b.len() == 0 { 0 } else { -1 }
    } else if b.len() == 0 {
        1
    } else if comp_order(a[0], b[0]) != 0 {
        comp_order(a[0], b[0])
    } else {
        comps_order(a.drop_first(), b.drop_first())
    }
}

/// `a` comes strictly before `b`.
pub open spec fn comps_lt(a: Seq<Seq<char>>, b: Seq<Seq<char>>) -> bool {
    comps_order(a, b) == -1
}

/// Character comparison is a three-way result, zero exactly on equality,
/// and reverses sign when the arguments swap.
pub proof fn lemma_char_seq_order_basics(a: Seq<char>, b: Seq<char>)
    ensures
        -1 <= char_seq_order(a, b) <= 1,
        char_seq_order(a, b) == 0 <==> a == b,
        char_seq_order(a, b) == -char_seq_order(b, a),
    decreases a.len(),
{
    if a.len() == 0 && b.len() == 0 {
        assert(a =~= b);
    } else if a.len() > 0 && b.len() > 0 && a[0] == b[0] {
        lemma_char_seq_order_basics(a.drop_first(), b.drop_first());
        if a.drop_first() == b.drop_first() {
            assert(a =~= seq![a[0]] + a.drop_first());
            assert(b =~= seq![b[0]] + b.drop_first());
        }
    } else if a.len() > 0 && b.len() > 0 {
        assert((a[0] as int) != (b[0] as int));
    }
}

/// Strict character-sequence order is transitive.
pub proof fn lemma_char_seq_order_transitive(a: Seq<char>, b: Seq<char>, c: Seq<char>)
    requires
        char_seq_order(a, b) == -1,
        char_seq_order(b, c) == -1,
    ensures
        char_seq_order(a, c) == -1,
    decreases a.len(),
{
    if a.len() > 0 && b.len() > 0 && c.len() > 0 && a[0] == b[0] && b[0] == c[0] {
        lemma_char_seq_order_transitive(a.drop_first(), b.drop_first(), c.drop_first());
    }
}

/// Comparison of single components is a three-way result, zero exactly on
/// equality, and reverses sign when the arguments swap.
pub proof fn lemma_comp_order_basics(a: Seq<char>, b: Seq<char>)
    ensures
        -1 <= comp_order(a, b) <= 1,
        comp_order(a, b) == 0 <==> a == b,
        comp_order(a, b) == -comp_order(b, a),
{
    lemma_char_seq_order_basics(a, b);
    if comp_rank(a) == comp_rank(b) {
        if comp_rank(a) == 0 {
            assert(a =~= b);
        } else if comp_rank(a) == 1 {
            assert(a =~= b);
        }
    }
}

/// Strict component order is transitive.
pub proof fn lemma_comp_order_transitive(a: Seq<char>, b: Seq<char>, c: Seq<char>)
    requires
        comp_order(a, b) == -1,
        comp_order(b, c) == -1,
    ensures
        comp_order(a, c) == -1,
{
    if comp_rank(a) == 2 && comp_rank(b) == 2 && comp_rank(c) == 2 {
        lemma_char_seq_order_transitive(a, b, c);
    }
}

/// Component-sequence comparison is a three-way result, zero exactly on
/// equality, and reverses sign when the arguments swap.
pub proof fn lemma_comps_order_basics(a: Seq<Seq<char>>, b: Seq<Seq<char>>)
    ensures
        -1 <= comps_order(a, b) <= 1,
        comps_order(a, b) == 0 <==> a == b,
        comps_order(a, b) == -comps_order(b, a),
    decreases a.len(),
{
    if a.len() == 0 && b.len() == 0 {
        assert(a =~= b);
    } else if a.len() > 0 && b.len() > 0 {
        lemma_comp_order_basics(a[0], b[0]);
        if a[0] == b[0] {
            lemma_comps_order_basics(a.drop_first(), b.drop_first());
            if a.drop_first() == b.drop_first() {
                assert(a =~= seq![a[0]] + a.drop_first());
                assert(b =~= seq![b[0]] + b.drop_first());
            }
        }
    }
}

/// Strict component-sequence order is transitive.
pub proof fn lemma_comps_order_transitive(a: Seq<Seq<char>>, b: Seq<Seq<char>>, c: Seq<Seq<char>>)
    requires
        comps_lt(a, b),
        comps_lt(b, c),
    ensures
        comps_lt(a, c),
    decreases a.len(),
{
    if a.len() > 0 && b.len() > 0 && c.len() > 0 {
        lemma_comp_order_basics(a[0], b[0]);
        lemma_comp_order_basics(b[0], c[0]);
        lemma_comp_order_basics(a[0], c[0]);
        if a[0] == b[0] && b[0] == c[0] {
            lemma_comps_order_transitive(a.drop_first(), b.drop_first(), c.drop_first());
        } else if a[0] == b[0] {
        } else if b[0] == c[0] {
        } else {
            lemma_comp_order_transitive(a[0], b[0], c[0]);
        }
    }
}

/// Three-way comparison of two character vectors.
pub fn compare_chars(a: &Vec<char>, b: &Vec<char>) -> (r: i8)
    ensures
        r as int == char_seq_order(a@, b@),
{
    let mut i: usize = 0;
    assert(a@.skip(0) =~= a@);
    assert(b@.skip(0) =~= b@);
    loop
        invariant
            i <= a@.len(),
            i <= b@.len(),
            char_seq_order(a@, b@) == char_seq_order(a@.skip(i as int), b@.skip(i as int)),
        decreases a@.len() - i,
    {
        if i == a.len() {
            if i == b.len() {
                return 0;
            } else {
                return -1;
            }
        }
        if i == b.len() {
            return 1;
        }
        let x = a[i];
        let y = b[i];
        if x < y {
            return -1;
        }
        if x > y {
            return 1;
        }
        assert(a@.skip(i as int).drop_first() =~= a@.skip(i + 1));
        assert(b@.skip(i as int).drop_first() =~= b@.skip(i + 1));
        i = i + 1;
    }
}

/// Whether a component vector is `..`.
fn is_parent_chars(a: &Vec<char>) -> (r: bool)
    ensures
        r == is_parent_comp(a@),
{
    a.len() == 2 && a[0] == '.' && a[1] == '.'
}

/// The kind rank of a component vector.
fn comp_rank_of(a: &Vec<char>) -> (r: u8)
    ensures
        r as int == comp_rank(a@),
{
    if a.len() == 0 {
        0
    } else if is_parent_chars(a) {
        1
    } else {
        2
    }
}

/// Three-way comparison of two components.
pub fn compare_components(a: &Vec<char>, b: &Vec<char>) -> (r: i8)
    ensures
        r as int == comp_order(a@, b@),
{
    let ra = comp_rank_of(a);
    let rb = comp_rank_of(b);
    if ra < rb {
        -1
    } else if ra > rb {
        1
    } else if ra == 2 {
        compare_chars(a, b)
    } else {
        0
    }
}

} // verus!
