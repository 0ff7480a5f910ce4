//! Which command blocks are folded, pane by pane.

use std::collections::{HashMap, HashSet};
use vstd::prelude::*;
use vstd::std_specs::iter::IteratorSpec;

verus! {

broadcast use vstd::std_specs::hash::group_hash_axioms;

/// The folded blocks of each pane that has any, as plain sets.
pub open spec fn folds_view(m: Map<usize, HashSet<u64>>) -> Map<usize, Set<u64>> {
    m.map_values(|s: HashSet<u64>| s@)
}

/// The folded blocks of a pane; none for a pane that is not listed.
pub open spec fn folds_of(m: Map<usize, Set<u64>>, pane_id: usize) -> Set<u64> {
    if m.contains_key(pane_id) {
        m[pane_id]
    } else {
        Set::empty()
    }
}

/// A set within another of the same size is the same set.
proof fn lemma_same_size<A>(a: Set<A>, b: Set<A>)
    requires
        b.finite(),
        a.subset_of(b),
        a.len() == b.len(),
    ensures
        a == b,
{
    assert forall|x: A| b.contains(x) implies a.contains(x) by {
        if !a.contains(x) {
            a.lemma_subset_not_in_lt(b, x);
        }
    }
    assert(a =~= b);
}

/// Whether the same blocks are folded in a pane.
fn same_blocks(a: &HashSet<u64>, b: &HashSet<u64>) -> (r: bool)
    ensures
        r == (a@ == b@),
{
    if a.len() != b.len() {
        return false;
    }
    let ghost ids: Seq<u64> = a.iter().remaining().unref();
    for x in it: a.iter()
        invariant
            ids == it.seq().unref(),
            ids.to_set() == a@,
            forall|j: int| 0 <= j < it.index() ==> b@.contains(#[trigger] ids[j]),
    {
        assert(ids[it.index()] == *x);
        if !b.contains(x) {
            assert(a@.contains(*x));
            return false;
        }
    }
    proof {
        assert forall|x: u64| a@.contains(x) implies b@.contains(x) by {
            let j = choose|j: int| 0 <= j < ids.len() && ids[j] == x;
            assert(b@.contains(ids[j]));
        }
        let other: Seq<u64> = b.iter().remaining().unref();
        assert(other.to_set() == b@);
        lemma_same_size(a@, b@);
    }
    true
}

/// Whether the same blocks are folded in the same panes.
pub fn same_folds(a: &HashMap<usize, HashSet<u64>>, b: &HashMap<usize, HashSet<u64>>) -> (r: bool)
    ensures
        r == (folds_view(a@) == folds_view(b@)),
{
    assert(folds_view(a@).dom() =~= a@.dom());
    assert(folds_view(b@).dom() =~= b@.dom());
    if a.len() != b.len() {
        return false;
    }
    let ghost ids: Seq<usize> = a.keys().remaining().unref();
    for k in it: a.keys()
        invariant
            ids == it.seq().unref(),
            ids.to_set() == a@.dom(),
            forall|j: int|
                0 <= j < it.index() ==> b@.contains_key(#[trigger] ids[j]) && a@[ids[j]]@
                    == b@[ids[j]]@,
    {
        assert(ids[it.index()] == *k);
        assert(ids.to_set().contains(*k));
        match (a.get(k), b.get(k)) {
            (Some(s), Some(t)) => {
                if !same_blocks(s, t) {
                    assert(folds_view(a@)[*k] != folds_view(b@)[*k]);
                    return false;
                }
            },
            _ => {
                assert(folds_view(a@).contains_key(*k));
                assert(!folds_view(b@).contains_key(*k));
                return false;
            },
        }
    }
    proof {
        assert forall|k: usize| a@.contains_key(k) implies b@.contains_key(k) && a@[k]@ == b@[k]@ by {
            let j = choose|j: int| 0 <= j < ids.len() && ids[j] == k;
            assert(b@.contains_key(ids[j]));
        }
        let other: Seq<usize> = b.keys().remaining().unref();
        assert(other.to_set() == b@.dom());
        lemma_same_size(a@.dom(), b@.dom());
        assert(folds_view(a@) =~= folds_view(b@));
    }
    true
}

} // verus!
