//! The chunk indices of an arena, as a set and as a multiset.

use vstd::prelude::*;
use vstd::multiset::Multiset;

verus! {

/// The indices of the first `count` chunks.
pub open spec fn chunks_below(count: nat) -> Set<usize> {
    Set::new(|index: usize| index < count)
}

/// Each of the first `count` chunks, once.
pub open spec fn all_chunks(count: nat) -> Multiset<usize> {
    Multiset::from_set(chunks_below(count))
}

/// There are `count` chunks below `count`.
pub proof fn lemma_chunks_below(count: nat)
    requires
        count <= usize::MAX + 1,
    ensures
        chunks_below(count).finite(),
        chunks_below(count).len() == count,
    decreases count,
{
    if count == 0 {
        assert(chunks_below(0) =~= Set::<usize>::empty());
    } else {
        let rest = (count - 1) as nat;
        lemma_chunks_below(rest);
        assert(chunks_below(count) =~= chunks_below(rest).insert(rest as usize));
    }
}

/// A multiset made from a finite set holds each member once, and nothing
/// else; it is as large as the set.
pub proof fn lemma_from_set(members: Set<usize>)
    requires
        members.finite(),
    ensures
        forall|index: usize| #[trigger]
            Multiset::from_set(members).count(index) == (if members.contains(index) {
                1nat
            } else {
                0nat
            }),
        Multiset::from_set(members).len() == members.len(),
    decreases members.len(),
{
    broadcast use vstd::multiset::group_multiset_axioms;

    let counts = Map::new(|index: usize| members.contains(index), |index: usize| 1nat);
    assert(counts.dom() =~= members);
    if members.len() == 0 {
        assert(members =~= Set::<usize>::empty());
        assert(Multiset::from_set(members) =~= Multiset::<usize>::empty());
    } else {
        let picked = members.choose();
        let rest = members.remove(picked);
        lemma_from_set(rest);
        let rest_counts = Map::new(|index: usize| rest.contains(index), |index: usize| 1nat);
        assert(rest_counts.dom() =~= rest);
        assert(Multiset::from_set(members) =~= Multiset::from_set(rest).insert(picked));
    }
}

/// Every chunk below `count` is in `all_chunks(count)` once, and nothing else
/// is; so it holds `count` indices.
pub proof fn lemma_all_chunks(count: nat)
    requires
        count <= usize::MAX + 1,
    ensures
        forall|index: usize| #[trigger]
            all_chunks(count).count(index) == (if index < count {
                1nat
            } else {
                0nat
            }),
        all_chunks(count).len() == count,
{
    lemma_chunks_below(count);
    lemma_from_set(chunks_below(count));
}

} // verus!
