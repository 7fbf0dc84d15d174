//! Candidate cover images for the library picker.

use vstd::prelude::*;

use crate::media::{cover_mime_spec, ext_spec, file_stem, is_cover_image, stem_of};
use crate::order::{
    chars_less, chars_lt, insertion_sort, is_sorted_by, is_strict_order,
    lemma_chars_lt_irreflexive, lemma_chars_lt_transitive, lemma_insertion_sort_multiset,
    lemma_insertion_sort_sorted, lemma_sorted_insert_at,
};
use crate::text::{chars_eq, chars_of, lowercase_spec, string_of, to_lowercase};

verus! {

/// An image offered as a cover: its display name (the file stem) and its path.
pub struct CoverOption {
    pub name: String,
    pub path: String,
}

/// A file found in a cover folder: its full path and its file name.
pub struct CoverCandidate {
    pub path: String,
    pub file_name: String,
}

/// `(name, path)`.
pub open spec fn option_view(o: CoverOption) -> (Seq<char>, Seq<char>) {
    (o.name@, o.path@)
}

pub open spec fn option_views(s: Seq<CoverOption>) -> Seq<(Seq<char>, Seq<char>)> {
    s.map_values(|o: CoverOption| option_view(o))
}

/// `(path, file name)`.
pub open spec fn candidate_views(s: Seq<CoverCandidate>) -> Seq<(Seq<char>, Seq<char>)> {
    s.map_values(|c: CoverCandidate| (c.path@, c.file_name@))
}

/// Whether an option with path `p` is already listed.
pub open spec fn lists_path(s: Seq<(Seq<char>, Seq<char>)>, p: Seq<char>) -> bool {
    exists|i: int| 0 <= i < s.len() && #[trigger] s[i].1 == p
}

/// The options in discovery order: every jpg/jpeg/png/gif candidate, named by its file stem,
/// each path listed once (its first time).
pub open spec fn cover_list(c: Seq<(Seq<char>, Seq<char>)>) -> Seq<(Seq<char>, Seq<char>)>
    decreases c.len(),
{
    if c.len() == 0 {
        Seq::empty()
    } else {
        let prev = cover_list(c.drop_last());
        let (path, name) = c.last();
        if cover_mime_spec(ext_spec(name)) is Some && !lists_path(prev, path) {
            prev.push((file_stem(name), path))
        } else {
            prev
        }
    }
}

/// Options ordered by their lowercased names.
pub open spec fn name_less() -> spec_fn((Seq<char>, Seq<char>), (Seq<char>, Seq<char>)) -> bool {
    |a: (Seq<char>, Seq<char>), b: (Seq<char>, Seq<char>)|
        chars_lt(lowercase_spec(a.0), lowercase_spec(b.0))
}

/// The picker's list: the options sorted by lowercased name, ties in discovery order.
pub open spec fn cover_options_spec(c: Seq<(Seq<char>, Seq<char>)>) -> Seq<(Seq<char>, Seq<char>)> {
    insertion_sort(cover_list(c), name_less())
}

fn listed(out: &Vec<CoverOption>, path: &String) -> (r: bool)
    ensures
        r == lists_path(option_views(out@), path@),
{
    let ghost ov = option_views(out@);
    let p = chars_of(path.as_str());
    let mut i: usize = 0;
    while i < out.len()
        invariant
            i <= out.len(),
            ov == option_views(out@),
            p@ == path@,
            forall|k: int| 0 <= k < i ==> ov[k].1 != path@,
        decreases out.len() - i,
    {
        assert(ov[i as int] == option_view(out@[i as int]));
        if chars_eq(&chars_of(out[i].path.as_str()), &p) {
            assert(ov[i as int].1 == path@);
            return true;
        }
        i = i + 1;
    }
    false
}

fn name_key_less(a: &CoverOption, b: &CoverOption) -> (r: bool)
    ensures
        r == name_less()(option_view(*a), option_view(*b)),
{
    let la = chars_of(to_lowercase(a.name.as_str()).as_str());
    let lb = chars_of(to_lowercase(b.name.as_str()).as_str());
    chars_less(&la, &lb)
}

/// The picker's list of cover images from the files found in the covers folder and the
/// library root (in that order): jpg/jpeg/png/gif files only, each path once, named by the
/// file stem, sorted by lowercased name with ties kept in the order found.
pub fn cover_options(candidates: Vec<CoverCandidate>) -> (r: Vec<CoverOption>)
    ensures
        option_views(r@) == cover_options_spec(candidate_views(candidates@)),
{
    let ghost cv = candidate_views(candidates@);
    // Filter and deduplicate.
    let mut found: Vec<CoverOption> = Vec::new();
    let mut i: usize = 0;
    while i < candidates.len()
        invariant
            i <= candidates.len(),
            cv == candidate_views(candidates@),
            option_views(found@) == cover_list(cv.take(i as int)),
        decreases candidates.len() - i,
    {
        assert(cv.take(i + 1).drop_last() == cv.take(i as int));
        assert(cv.take(i + 1).last() == cv[i as int]);
        let c = &candidates[i];
        if is_cover_image(c.file_name.as_str()) && !listed(&found, &c.path) {
            let name = string_of(&stem_of(&chars_of(c.file_name.as_str())));
            found.push(CoverOption { name, path: c.path.clone() });
            assert(option_views(found@) =~= cover_list(cv.take(i as int)).push(
                (file_stem(cv[i as int].1), cv[i as int].0),
            ));
        }
        i = i + 1;
    }
    assert(cv.take(candidates.len() as int) == cv);
    // Stable sort by lowercased name.
    let ghost fv = option_views(found@);
    let ghost less = name_less();
    let n = found.len();
    let mut out: Vec<CoverOption> = Vec::new();
    let mut k: usize = 0;
    while k < n
        invariant
            k <= n,
            found.len() == n - k,
            option_views(found@) == fv.skip(k as int),
            fv.len() == n,
            less == name_less(),
            option_views(out@) == insertion_sort(fv.take(k as int), less),
        decreases n - k,
    {
        let ghost before = found@;
        let x = found.remove(0);
        assert(option_view(x) == fv[k as int]) by {
            assert(option_views(before)[0] == fv.skip(k as int)[0]);
        }
        assert(option_views(found@) =~= fv.skip(k + 1)) by {
            assert forall|j: int| 0 <= j < found@.len() implies option_views(found@)[j] == fv.skip(
                k + 1,
            )[j] by {
                assert(found@[j] == before[j + 1]);
                assert(option_views(before)[j + 1] == fv.skip(k as int)[j + 1]);
            }
        }
        let ghost ov = option_views(out@);
        let mut p: usize = 0;
        while p < out.len() && !name_key_less(&x, &out[p])
            invariant
                p <= out.len(),
                ov == option_views(out@),
                less == name_less(),
                forall|q: int| 0 <= q < p ==> !less(option_view(x), #[trigger] ov[q]),
            decreases out.len() - p,
        {
            p = p + 1;
        }
        proof {
            lemma_sorted_insert_at(ov, option_view(x), less, p as int);
            assert(fv.take(k + 1).drop_last() == fv.take(k as int));
            assert(fv.take(k + 1).last() == fv[k as int]);
        }
        out.insert(p, x);
        assert(option_views(out@) =~= ov.insert(p as int, option_view(x)));
        k = k + 1;
    }
    assert(fv.take(n as int) == fv);
    out
}

/// Lowercased-name order is a strict order.
pub proof fn lemma_name_less_strict()
    ensures
        is_strict_order(name_less()),
{
    assert forall|a: (Seq<char>, Seq<char>)| !#[trigger] name_less()(a, a) by {
        lemma_chars_lt_irreflexive(lowercase_spec(a.0));
    }
    assert forall|a: (Seq<char>, Seq<char>), b: (Seq<char>, Seq<char>), c: (Seq<char>, Seq<char>)|
        #[trigger] name_less()(a, b) && #[trigger] name_less()(b, c) implies name_less()(a, c) by {
        lemma_chars_lt_transitive(lowercase_spec(a.0), lowercase_spec(b.0), lowercase_spec(c.0));
    }
}

/// The picker lists each distinct path once, holds exactly the deduplicated image
/// candidates, and is sorted by lowercased name.
pub proof fn law_cover_options(c: Seq<(Seq<char>, Seq<char>)>)
    ensures
        cover_options_spec(c).to_multiset() == cover_list(c).to_multiset(),
        is_sorted_by(cover_options_spec(c), name_less()),
        forall|i: int, j: int|
            0 <= i < j < cover_list(c).len() ==> (#[trigger] cover_list(c)[i]).1 != (
            #[trigger] cover_list(c)[j]).1,
{
    lemma_insertion_sort_multiset(cover_list(c), name_less());
    lemma_name_less_strict();
    lemma_insertion_sort_sorted(cover_list(c), name_less());
    lemma_cover_list_unique(c);
}

/// Whether a candidate with path `p` is a jpg/jpeg/png/gif file.
pub open spec fn image_at_path(c: Seq<(Seq<char>, Seq<char>)>, p: Seq<char>) -> bool {
    exists|j: int| 0 <= j < c.len() && #[trigger] c[j].0 == p && cover_mime_spec(ext_spec(c[j].1)) is Some
}

proof fn lemma_cover_list_paths(c: Seq<(Seq<char>, Seq<char>)>, p: Seq<char>)
    ensures
        lists_path(cover_list(c), p) <==> image_at_path(c, p),
    decreases c.len(),
{
    if c.len() > 0 {
        let d = c.drop_last();
        lemma_cover_list_paths(d, p);
        let prev = cover_list(d);
        let l = cover_list(c);
        assert forall|i: int| 0 <= i < prev.len() implies l[i] == prev[i] by {}
        if lists_path(l, p) {
            let i = choose|i: int| 0 <= i < l.len() && #[trigger] l[i].1 == p;
            if i < prev.len() {
                assert(prev[i].1 == p);
                let j = choose|j: int|
                    0 <= j < d.len() && #[trigger] d[j].0 == p && cover_mime_spec(ext_spec(d[j].1)) is Some;
                assert(c[j] == d[j]);
            } else {
                assert(c[c.len() - 1].0 == p);
            }
        }
        if image_at_path(c, p) {
            let j = choose|j: int|
                0 <= j < c.len() && #[trigger] c[j].0 == p && cover_mime_spec(ext_spec(c[j].1)) is Some;
            if j < c.len() - 1 {
                assert(d[j] == c[j]);
                let i = choose|i: int| 0 <= i < prev.len() && #[trigger] prev[i].1 == p;
                assert(l[i] == prev[i]);
            } else if lists_path(prev, p) {
                let i = choose|i: int| 0 <= i < prev.len() && #[trigger] prev[i].1 == p;
                assert(l[i] == prev[i]);
            } else {
                assert(l[prev.len() as int].1 == p);
            }
        }
    }
}

/// The picker lists a path exactly when some jpg/jpeg/png/gif candidate has that path,
/// whatever its name: an image is never dropped because another image shares its name.
pub proof fn law_cover_options_paths(c: Seq<(Seq<char>, Seq<char>)>, p: Seq<char>)
    ensures
        lists_path(cover_options_spec(c), p) <==> image_at_path(c, p),
{
    broadcast use vstd::seq_lib::to_multiset_contains;
    lemma_cover_list_paths(c, p);
    lemma_insertion_sort_multiset(cover_list(c), name_less());
    let l = cover_list(c);
    let o = cover_options_spec(c);
    if lists_path(o, p) {
        let i = choose|i: int| 0 <= i < o.len() && #[trigger] o[i].1 == p;
        assert(o.contains(o[i]));
        assert(o.to_multiset().count(o[i]) > 0);
        assert(l.contains(o[i]));
        let k = choose|k: int| 0 <= k < l.len() && l[k] == o[i];
        assert(l[k].1 == p);
    }
    if lists_path(l, p) {
        let k = choose|k: int| 0 <= k < l.len() && #[trigger] l[k].1 == p;
        assert(l.contains(l[k]));
        assert(l.to_multiset().count(l[k]) > 0);
        assert(o.contains(l[k]));
        let i = choose|i: int| 0 <= i < o.len() && o[i] == l[k];
        assert(o[i].1 == p);
    }
}

proof fn lemma_cover_list_unique(c: Seq<(Seq<char>, Seq<char>)>)
    ensures
        forall|i: int, j: int|
            0 <= i < j < cover_list(c).len() ==> (#[trigger] cover_list(c)[i]).1 != (
            #[trigger] cover_list(c)[j]).1,
    decreases c.len(),
{
    if c.len() > 0 {
        lemma_cover_list_unique(c.drop_last());
        let prev = cover_list(c.drop_last());
        let l = cover_list(c);
        assert forall|i: int, j: int| 0 <= i < j < l.len() implies (#[trigger] l[i]).1 != (
        #[trigger] l[j]).1 by {
            if j < prev.len() {
                assert(l[i] == prev[i] && l[j] == prev[j]);
            } else {
                assert(l[i] == prev[i]);
                assert(!lists_path(prev, l[j].1));
            }
        }
    }
}

} // verus!
