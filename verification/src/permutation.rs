//! Permutations of the positions of a sequence.

use vstd::prelude::*;
use vstd::set_lib::{lemma_int_range, lemma_subset_equality, set_int_range};

verus! {

/// `order` lists positions below `n`, each at most once, and is `n` long:
/// so it lists every position below `n` exactly once.
pub open spec fn is_permutation(n: nat, order: Seq<int>) -> bool {
    &&& order.len() == n
    &&& forall|k: int| 0 <= k < order.len() ==> 0 <= #[trigger] order[k] < n
    &&& order.no_duplicates()
}

/// The sequence that holds, at each place `k`, the element of `items` at
/// position `order[k]`.
pub open spec fn reorder<T>(items: Seq<T>, order: Seq<int>) -> Seq<T> {
    Seq::new(order.len(), |k: int| items[order[k]])
}

/// A permutation of the positions below `n` holds each of them.
pub proof fn lemma_permutation_covers(n: nat, order: Seq<int>)
    requires
        is_permutation(n, order),
    ensures
        forall|j: int| 0 <= j < n ==> order.contains(j),
{
    let held: Set<int> = order.to_set();
    let all: Set<int> = set_int_range(0, n as int);
    order.unique_seq_to_set();
    lemma_int_range(0, n as int);
    assert forall|j: int| held.contains(j) implies all.contains(j) by {
        let k: int = choose|k: int| 0 <= k < order.len() && order[k] == j;
        assert(0 <= order[k] < n);
    }
    vstd::seq_lib::seq_to_set_is_finite(order);
    lemma_subset_equality(held, all);
    assert forall|j: int| 0 <= j < n implies order.contains(j) by {
        assert(all.contains(j));
        assert(held.contains(j));
    }
}

/// Reordering a sequence by a permutation of its positions keeps what it
/// holds, with multiplicity.
pub proof fn lemma_reorder_keeps_items<T>(items: Seq<T>, order: Seq<int>)
    requires
        is_permutation(items.len(), order),
    ensures
        reorder(items, order).to_multiset() == items.to_multiset(),
    decreases items.len(),
{
    broadcast use vstd::seq_lib::group_to_multiset_ensures;

    let n: int = items.len() as int;
    let moved: Seq<T> = reorder(items, order);
    if n == 0 {
        assert(moved =~= items);
    } else {
        lemma_permutation_covers(items.len(), order);
        assert(order.contains(n - 1));
        let m: int = choose|m: int| 0 <= m < order.len() && order[m] == n - 1;
        let rest: Seq<int> = order.remove(m);
        assert forall|k: int| 0 <= k < rest.len() implies 0 <= #[trigger] rest[k] < n - 1 by {
            if k < m {
                assert(rest[k] == order[k]);
            } else {
                assert(rest[k] == order[k + 1]);
            }
        }
        assert(rest.no_duplicates()) by {
            assert forall|i: int, j: int|
                0 <= i < rest.len() && 0 <= j < rest.len() && i != j implies rest[i] != rest[j] by {
                let oi: int = if i < m {
                    i
                } else {
                    i + 1
                };
                let oj: int = if j < m {
                    j
                } else {
                    j + 1
                };
                assert(rest[i] == order[oi] && rest[j] == order[oj]);
            }
        }
        lemma_reorder_keeps_items(items.drop_last(), rest);
        assert(reorder(items.drop_last(), rest) =~= moved.remove(m));
        assert(moved[m] == items.last());
        assert(moved.to_multiset() =~= moved.remove(m).to_multiset().insert(moved[m]));
        assert(items =~= items.drop_last().push(items.last()));
        assert(items.to_multiset() =~= items.drop_last().to_multiset().insert(items.last()));
    }
}

} // verus!
