//! From a directory listing to the ordered list of files to work on: the
//! excluded paths are dropped and the rest are ordered by base name.

use vstd::prelude::*;
use crate::exclusion::{excluded, ExclusionSet};
use crate::path::{basename, name_start_of};
use crate::text::{chars_of, lex_le, lex_le_vec};

verus! {

/// The character sequences of a list of strings.
pub open spec fn views(v: Seq<String>) -> Seq<Seq<char>> {
    v.map_values(|s: String| s@)
}

/// The paths of `listing` that the exclusion list `list` keeps, in order.
pub open spec fn kept(listing: Seq<Seq<char>>, list: Seq<char>) -> Seq<Seq<char>>
    decreases listing.len(),
{
    if listing.len() == 0 {
        Seq::empty()
    } else {
        let prev = kept(listing.drop_last(), list);
        if excluded(list, listing.last()) {
            prev
        } else {
            prev.push(listing.last())
        }
    }
}

/// Where `x` goes in `sorted`: after every path whose base name is not
/// greater than that of `x`.
pub open spec fn insert_pos(sorted: Seq<Seq<char>>, x: Seq<char>) -> nat
    decreases sorted.len(),
{
    if sorted.len() == 0 {
        0
    } else if lex_le(basename(sorted.last()), basename(x)) {
        sorted.len()
    } else {
        insert_pos(sorted.drop_last(), x)
    }
}

/// `paths` ordered by base name; paths with equal base names keep their
/// order.
pub open spec fn sort_by_name(paths: Seq<Seq<char>>) -> Seq<Seq<char>>
    decreases paths.len(),
{
    if paths.len() == 0 {
        Seq::empty()
    } else {
        let prev = sort_by_name(paths.drop_last());
        prev.insert(insert_pos(prev, paths.last()) as int, paths.last())
    }
}

/// The paths a scan yields: those kept by the exclusion list, by base name.
pub open spec fn scanned(listing: Seq<Seq<char>>, list: Seq<char>) -> Seq<Seq<char>> {
    sort_by_name(kept(listing, list))
}

pub proof fn lemma_insert_pos_bound(sorted: Seq<Seq<char>>, x: Seq<char>)
    ensures
        insert_pos(sorted, x) <= sorted.len(),
    decreases sorted.len(),
{
    if sorted.len() > 0 {
        lemma_insert_pos_bound(sorted.drop_last(), x);
    }
}

/// The paths of `listing` that `exclusions` keeps, ordered by base name.
pub fn scan_paths(listing: &Vec<String>, exclusions: &ExclusionSet) -> (r: Vec<String>)
    requires
        exclusions.wf(),
    ensures
        views(r@) == scanned(views(listing@), exclusions.list()),
{
    let ghost all = views(listing@);
    let mut sorted: Vec<String> = Vec::new();
    let mut names: Vec<Vec<char>> = Vec::new();
    let mut i: usize = 0;
    assert(all.take(0) =~= Seq::<Seq<char>>::empty());
    assert(views(sorted@) =~= Seq::<Seq<char>>::empty());
    while i < listing.len()
        invariant
            all == views(listing@),
            exclusions.wf(),
            i <= listing.len(),
            views(sorted@) == sort_by_name(kept(all.take(i as int), exclusions.list())),
            names.len() == sorted.len(),
            forall|k: int| 0 <= k < names.len() ==> #[trigger] names@[k]@ == basename(sorted@[k]@),
        decreases listing.len() - i,
    {
        let ghost prefix = all.take(i as int);
        assert(all.take(i + 1).drop_last() =~= prefix);
        assert(all.take(i + 1).last() == listing@[i as int]@);
        let path = &listing[i];
        let ghost kept_before = kept(prefix, exclusions.list());
        if !exclusions.is_excluded(path.as_str()) {
            let v = chars_of(path.as_str());
            let start = name_start_of(&v);
            let name = chars_of(path.as_str().substring_char(start, v.len()));
            assert(name@ =~= basename(path@));
            let ghost before = views(sorted@);
            let ghost old_names = names@;
            let ghost old_sorted = sorted@;
            let mut j: usize = sorted.len();
            assert(before.take(j as int) =~= before);
            while j > 0 && !lex_le_vec(&names[j - 1], &name)
                invariant
                    j <= sorted.len(),
                    before == views(sorted@),
                    names.len() == sorted.len(),
                    forall|k: int| 0 <= k < names.len() ==> #[trigger] names@[k]@ == basename(sorted@[k]@),
                    name@ == basename(path@),
                    old_names == names@,
                    old_sorted == sorted@,
                    insert_pos(before, path@) == insert_pos(before.take(j as int), path@),
                decreases j,
            {
                assert(before.take(j as int).drop_last() =~= before.take(j - 1));
                assert(before.take(j as int).last() == sorted@[j - 1]@);
                j -= 1;
            }
            proof {
                lemma_insert_pos_bound(before.take(j as int), path@);
                if j > 0 {
                    assert(before.take(j as int).last() == sorted@[j - 1]@);
                }
            }
            sorted.insert(j, path.clone());
            names.insert(j, name);
            assert(views(sorted@) =~= before.insert(j as int, path@));
            assert(kept(all.take(i + 1), exclusions.list()) == kept_before.push(path@));
            assert(kept_before.push(path@).drop_last() =~= kept_before);
            assert(sort_by_name(kept_before.push(path@)) == before.insert(
                insert_pos(before, path@) as int,
                path@,
            ));
            assert forall|k: int| 0 <= k < names.len() implies #[trigger] names@[k]@ == basename(
                sorted@[k]@,
            ) by {
                if k > j {
                    assert(names@[k] == old_names[k - 1]);
                    assert(sorted@[k] == old_sorted[k - 1]);
                } else if k < j {
                    assert(names@[k] == old_names[k]);
                    assert(sorted@[k] == old_sorted[k]);
                }
            }
        }
        i += 1;
    }
    assert(all.take(i as int) =~= all);
    sorted
}

} // verus!
