//! Orders on text and paths, and a stable insertion sort with its laws.
//!
//! `chars_lt` is the order of `String`/`str` (UTF-8 byte order equals code point
//! order); `paths_lt` is the order of `Path`, which compares component by component.

use vstd::prelude::*;

use crate::text::chars_of;

verus! {

broadcast use vstd::seq_lib::group_to_multiset_ensures;

// ---------------------------------------------------------------------------
// Lexicographic orders
// ---------------------------------------------------------------------------

/// `a` sorts before `b` as strings do: by code point, a proper prefix first.
pub open spec fn chars_lt(a: Seq<char>, b: Seq<char>) -> bool
    decreases a.len(),
{
    if a.len() == 0 {
        b.len() > 0
    } else if b.len() == 0 {
        false
    } else if a[0] != b[0] {
        a[0] < b[0]
    } else {
        chars_lt(a.drop_first(), b.drop_first())
    }
}

/// `a` sorts before `b` as paths do: component by component, a proper prefix first.
pub open spec fn paths_lt(a: Seq<Seq<char>>, b: Seq<Seq<char>>) -> bool
    decreases a.len(),
{
    if a.len() == 0 {
        b.len() > 0
    } else if b.len() == 0 {
        false
    } else if a[0] != b[0] {
        chars_lt(a[0], b[0])
    } else {
        paths_lt(a.drop_first(), b.drop_first())
    }
}

pub proof fn lemma_chars_lt_irreflexive(a: Seq<char>)
    ensures
        !chars_lt(a, a),
    decreases a.len(),
{
    if a.len() > 0 {
        lemma_chars_lt_irreflexive(a.drop_first());
    }
}

pub proof fn lemma_chars_lt_transitive(a: Seq<char>, b: Seq<char>, c: Seq<char>)
    requires
        chars_lt(a, b),
        chars_lt(b, c),
    ensures
        chars_lt(a, c),
    decreases a.len(),
{
    if a.len() > 0 && b.len() > 0 && c.len() > 0 && a[0] == b[0] && b[0] == c[0] {
        lemma_chars_lt_transitive(a.drop_first(), b.drop_first(), c.drop_first());
    }
}

pub proof fn lemma_paths_lt_irreflexive(a: Seq<Seq<char>>)
    ensures
        !paths_lt(a, a),
    decreases a.len(),
{
    if a.len() > 0 {
        lemma_paths_lt_irreflexive(a.drop_first());
    }
}

pub proof fn lemma_paths_lt_transitive(a: Seq<Seq<char>>, b: Seq<Seq<char>>, c: Seq<Seq<char>>)
    requires
        paths_lt(a, b),
        paths_lt(b, c),
    ensures
        paths_lt(a, c),
    decreases a.len(),
{
    if a.len() > 0 && b.len() > 0 && c.len() > 0 {
        if a[0] == b[0] && b[0] == c[0] {
            lemma_paths_lt_transitive(a.drop_first(), b.drop_first(), c.drop_first());
        } else if a[0] != b[0] && b[0] != c[0] {
            lemma_chars_lt_transitive(a[0], b[0], c[0]);
            if a[0] == c[0] {
                lemma_chars_lt_irreflexive(a[0]);
            }
        }
    }
}

/// Whether `a` sorts before `b` as strings.
pub fn chars_less(a: &Vec<char>, b: &Vec<char>) -> (r: bool)
    ensures
        r == chars_lt(a@, b@),
{
    let mut i: usize = 0;
    assert(a@.skip(0) == a@ && b@.skip(0) == b@);
    while i < a.len() && i < b.len() && a[i] == b[i]
        invariant
            i <= a.len(),
            i <= b.len(),
            forall|k: int| 0 <= k < i ==> a@[k] == b@[k],
            chars_lt(a@, b@) == chars_lt(a@.skip(i as int), b@.skip(i as int)),
        decreases a.len() - i,
    {
        assert(a@.skip(i as int).drop_first() == a@.skip(i + 1));
        assert(b@.skip(i as int).drop_first() == b@.skip(i + 1));
        i = i + 1;
    }
    if i == a.len() {
        i < b.len()
    } else if i == b.len() {
        false
    } else {
        assert(a@.skip(i as int)[0] == a@[i as int]);
        assert(b@.skip(i as int)[0] == b@[i as int]);
        a[i] < b[i]
    }
}

/// The views of a list of strings.
pub open spec fn views(v: Seq<String>) -> Seq<Seq<char>> {
    v.map_values(|s: String| s@)
}

/// Whether path `a` sorts before path `b`, each given by its components.
pub fn paths_less(a: &Vec<String>, b: &Vec<String>) -> (r: bool)
    ensures
        r == paths_lt(views(a@), views(b@)),
{
    let ghost va = views(a@);
    let ghost vb = views(b@);
    let mut i: usize = 0;
    assert(va.skip(0) == va && vb.skip(0) == vb);
    loop
        invariant
            i <= a.len(),
            i <= b.len(),
            va == views(a@),
            vb == views(b@),
            paths_lt(va, vb) == paths_lt(va.skip(i as int), vb.skip(i as int)),
        decreases a.len() - i,
    {
        if i == a.len() {
            return i < b.len();
        }
        if i == b.len() {
            return false;
        }
        let ca = chars_of(a[i].as_str());
        let cb = chars_of(b[i].as_str());
        assert(va.skip(i as int)[0] == va[i as int]);
        assert(vb.skip(i as int)[0] == vb[i as int]);
        if crate::text::chars_eq(&ca, &cb) {
            assert(va.skip(i as int).drop_first() == va.skip(i + 1));
            assert(vb.skip(i as int).drop_first() == vb.skip(i + 1));
            i = i + 1;
        } else {
            return chars_less(&ca, &cb);
        }
    }
}

// ---------------------------------------------------------------------------
// Stable insertion sort
// ---------------------------------------------------------------------------

/// `x` inserted into `s` after every element it does not sort before.
pub open spec fn sorted_insert<A>(s: Seq<A>, x: A, less: spec_fn(A, A) -> bool) -> Seq<A>
    decreases s.len(),
{
    if s.len() == 0 {
        seq![x]
    } else if less(x, s[0]) {
        seq![x] + s
    } else {
        seq![s[0]] + sorted_insert(s.drop_first(), x, less)
    }
}

/// The stable sort of `s` by `less`: each element in turn inserted after the elements
/// it does not sort before, so elements that tie keep their input order.
pub open spec fn insertion_sort<A>(s: Seq<A>, less: spec_fn(A, A) -> bool) -> Seq<A>
    decreases s.len(),
{
    if s.len() == 0 {
        Seq::empty()
    } else {
        sorted_insert(insertion_sort(s.drop_last(), less), s.last(), less)
    }
}

/// Every element is placed no earlier than any element after it that it does not follow.
pub open spec fn is_sorted_by<A>(s: Seq<A>, less: spec_fn(A, A) -> bool) -> bool {
    forall|i: int, j: int| 0 <= i < j < s.len() ==> !less(#[trigger] s[j], #[trigger] s[i])
}

/// `less` is a strict order on the values it will meet.
pub open spec fn is_strict_order<A>(less: spec_fn(A, A) -> bool) -> bool {
    &&& forall|a: A| !#[trigger] less(a, a)
    &&& forall|a: A, b: A, c: A| #[trigger] less(a, b) && #[trigger] less(b, c) ==> less(a, c)
}

/// The insertion position: the first element that `x` sorts before.
pub proof fn lemma_sorted_insert_at<A>(s: Seq<A>, x: A, less: spec_fn(A, A) -> bool, p: int)
    requires
        0 <= p <= s.len(),
        forall|k: int| 0 <= k < p ==> !less(x, #[trigger] s[k]),
        p == s.len() || less(x, s[p]),
    ensures
        sorted_insert(s, x, less) == s.insert(p, x),
    decreases s.len(),
{
    if s.len() == 0 {
        assert(s.insert(p, x) =~= seq![x]);
    } else if p == 0 {
        assert(s.insert(p, x) =~= seq![x] + s);
    } else {
        let t = s.drop_first();
        assert forall|k: int| 0 <= k < p - 1 implies !less(x, #[trigger] t[k]) by {
            assert(t[k] == s[k + 1]);
        }
        if p < s.len() {
            assert(t[p - 1] == s[p]);
        }
        lemma_sorted_insert_at(t, x, less, p - 1);
        assert(s.insert(p, x) =~= seq![s[0]] + t.insert(p - 1, x));
    }
}

/// Inserting keeps the multiset of elements and adds `x`.
pub proof fn lemma_sorted_insert_multiset<A>(s: Seq<A>, x: A, less: spec_fn(A, A) -> bool)
    ensures
        sorted_insert(s, x, less).to_multiset() == s.to_multiset().insert(x),
        sorted_insert(s, x, less).len() == s.len() + 1,
    decreases s.len(),
{
    broadcast use vstd::multiset::group_multiset_axioms;

    if s.len() == 0 {
        assert(seq![x] =~= s.insert(0, x));
    } else if less(x, s[0]) {
        assert(seq![x] + s =~= s.insert(0, x));
    } else {
        let t = s.drop_first();
        lemma_sorted_insert_multiset(t, x, less);
        let u = sorted_insert(t, x, less);
        assert(seq![s[0]] + u =~= u.insert(0, s[0]));
        assert(s =~= t.insert(0, s[0]));
        assert(sorted_insert(s, x, less).to_multiset() =~= s.to_multiset().insert(x));
    }
}

/// Inserting into a sorted sequence keeps it sorted.
pub proof fn lemma_sorted_insert_sorted<A>(s: Seq<A>, x: A, less: spec_fn(A, A) -> bool)
    requires
        is_strict_order(less),
        is_sorted_by(s, less),
    ensures
        is_sorted_by(sorted_insert(s, x, less), less),
    decreases s.len(),
{
    let r = sorted_insert(s, x, less);
    if s.len() == 0 {
    } else if less(x, s[0]) {
        assert forall|i: int, j: int| 0 <= i < j < r.len() implies !less(#[trigger] r[j], #[trigger] r[i]) by {
            if i == 0 {
                assert(r[j] == s[j - 1]);
                if less(s[j - 1], x) {
                    assert(less(s[j - 1], s[0]));
                    if j - 1 > 0 {
                        assert(!less(s[j - 1], s[0]));
                    }
                }
            } else {
                assert(r[i] == s[i - 1] && r[j] == s[j - 1]);
            }
        }
    } else {
        let t = s.drop_first();
        assert forall|i: int, j: int| 0 <= i < j < t.len() implies !less(#[trigger] t[j], #[trigger] t[i]) by {
            assert(t[i] == s[i + 1] && t[j] == s[j + 1]);
        }
        lemma_sorted_insert_sorted(t, x, less);
        let u = sorted_insert(t, x, less);
        lemma_sorted_insert_multiset(t, x, less);
        assert forall|i: int, j: int| 0 <= i < j < r.len() implies !less(#[trigger] r[j], #[trigger] r[i]) by {
            if i == 0 {
                assert(r[j] == u[j - 1]);
                // every element of u is x or an element of t
                assert(u.to_multiset().count(u[j - 1]) > 0);
                assert(t.to_multiset().insert(x).count(u[j - 1]) > 0);
                if u[j - 1] != x {
                    assert(t.to_multiset().count(u[j - 1]) > 0);
                    assert(t.contains(u[j - 1]));
                    let k = choose|k: int| 0 <= k < t.len() && t[k] == u[j - 1];
                    assert(t[k] == s[k + 1]);
                }
            } else {
                assert(r[i] == u[i - 1] && r[j] == u[j - 1]);
            }
        }
    }
}

/// The insertion sort keeps the elements.
pub proof fn lemma_insertion_sort_multiset<A>(s: Seq<A>, less: spec_fn(A, A) -> bool)
    ensures
        insertion_sort(s, less).to_multiset() == s.to_multiset(),
        insertion_sort(s, less).len() == s.len(),
    decreases s.len(),
{
    if s.len() > 0 {
        lemma_insertion_sort_multiset(s.drop_last(), less);
        lemma_sorted_insert_multiset(insertion_sort(s.drop_last(), less), s.last(), less);
        assert(s.drop_last().push(s.last()) =~= s);
    }
}

/// The insertion sort leaves its result sorted.
pub proof fn lemma_insertion_sort_sorted<A>(s: Seq<A>, less: spec_fn(A, A) -> bool)
    requires
        is_strict_order(less),
    ensures
        is_sorted_by(insertion_sort(s, less), less),
    decreases s.len(),
{
    if s.len() > 0 {
        lemma_insertion_sort_sorted(s.drop_last(), less);
        lemma_sorted_insert_sorted(insertion_sort(s.drop_last(), less), s.last(), less);
    }
}

} // verus!
