//! Rearrangements of sequences, as sorting produces them.

use vstd::prelude::*;
use vstd::set_lib::{lemma_int_range, lemma_len_subset, lemma_subset_equality, set_int_range};

verus! {

/// `p` lists the indices below its length, each of them once.
pub open spec fn is_permutation(p: Seq<int>) -> bool {
    &&& forall|i: int| 0 <= i < p.len() ==> 0 <= #[trigger] p[i] < p.len()
    &&& forall|i: int, j: int| 0 <= i < j < p.len() ==> p[i] != p[j]
}

/// `after` holds the items of `before` in another order: item `i` of
/// `after` is item `p[i]` of `before`.
pub open spec fn rearranged_by<T>(p: Seq<int>, before: Seq<T>, after: Seq<T>) -> bool {
    &&& is_permutation(p)
    &&& p.len() == before.len()
    &&& p.len() == after.len()
    &&& forall|i: int| 0 <= i < after.len() ==> #[trigger] after[i] == before[p[i]]
}

/// A permutation reaches every index: `k` stands somewhere in `p`.
pub proof fn lemma_permutation_reaches(p: Seq<int>, k: int) -> (i: int)
    requires
        is_permutation(p),
        0 <= k < p.len(),
    ensures
        0 <= i < p.len(),
        p[i] == k,
{
    let n = p.len() as int;
    assert(p.no_duplicates());
    p.unique_seq_to_set();
    lemma_int_range(0, n);
    assert(p.to_set().subset_of(set_int_range(0, n))) by {
        assert forall|a: int| p.to_set().contains(a) implies set_int_range(0, n).contains(a) by {
            let i = choose|i: int| 0 <= i < p.len() && p[i] == a;
        }
    }
    lemma_len_subset(p.to_set(), set_int_range(0, n));
    lemma_subset_equality(p.to_set(), set_int_range(0, n));
    assert(set_int_range(0, n).contains(k));
    assert(p.to_set().contains(k));
    choose|i: int| 0 <= i < p.len() && p[i] == k
}

/// A rearrangement keeps the items: what occurs before occurs after, and
/// the other way round; and if no item occurs twice before, none does after.
pub proof fn lemma_rearranged_keeps_items<T>(p: Seq<int>, before: Seq<T>, after: Seq<T>)
    requires
        rearranged_by(p, before, after),
    ensures
        after.to_set() == before.to_set(),
        before.no_duplicates() ==> after.no_duplicates(),
{
    assert forall|x: T| after.to_set().contains(x) == before.to_set().contains(x) by {
        if after.contains(x) {
            let i = choose|i: int| 0 <= i < after.len() && after[i] == x;
            assert(before[p[i]] == x);
        }
        if before.contains(x) {
            let k = choose|k: int| 0 <= k < before.len() && before[k] == x;
            let i = lemma_permutation_reaches(p, k);
            assert(after[i] == x);
        }
    }
    assert(after.to_set() =~= before.to_set());
    if before.no_duplicates() {
        assert forall|i: int, j: int|
            0 <= i < after.len() && 0 <= j < after.len() && i != j implies after[i] != after[j] by {
            assert(after[i] == before[p[i]]);
            assert(after[j] == before[p[j]]);
            assert(p[i] != p[j]);
        }
    }
}

} // verus!
