//! Free local numbers: the lowest positive numbers a set does not use yet.
use vstd::prelude::*;
use std::collections::HashSet;

verus! {

broadcast use vstd::std_specs::hash::group_hash_axioms;

/// `r` holds, in increasing order, the `n` smallest positive integers that
/// `used` does not contain.
pub open spec fn is_lowest_free(r: Seq<i64>, n: nat, used: Set<i64>) -> bool {
    &&& r.len() == n
    &&& forall|i: int, j: int| 0 <= i < j < r.len() ==> r[i] < r[j]
    &&& forall|i: int| 0 <= i < r.len() ==> 1 <= #[trigger] r[i] && !used.contains(r[i])
    &&& r.len() > 0 ==> forall|x: i64|
        1 <= x <= r.last() && !used.contains(x) ==> #[trigger] r.contains(x)
}

/// The `n` smallest positive integers that `used` does not contain, in
/// increasing order.
pub fn get_lowest_free_local_numbers(n: usize, used: &HashSet<i64>) -> (r: Vec<i64>)
    requires
        used@.finite(),
        n + used@.len() < i64::MAX,
    ensures
        is_lowest_free(r@, n as nat, used@),
{
    let mut result: Vec<i64> = Vec::new();
    let mut candidate: i64 = 1;
    let ghost mut skipped: Set<i64> = Set::empty();
    while result.len() < n
        invariant
            used@.finite(),
            n + used@.len() < i64::MAX,
            1 <= candidate,
            result@.len() <= n,
            skipped.finite(),
            skipped.subset_of(used@),
            skipped.len() + result@.len() == candidate - 1,
            forall|x: i64| #[trigger] skipped.contains(x) ==> 1 <= x < candidate,
            forall|i: int, j: int| 0 <= i < j < result@.len() ==> result@[i] < result@[j],
            forall|i: int|
                0 <= i < result@.len() ==> 1 <= #[trigger] result@[i] < candidate
                    && !used@.contains(result@[i]),
            forall|x: i64|
                1 <= x < candidate && !used@.contains(x) ==> #[trigger] result@.contains(x),
        decreases n + used@.len() + 1 - candidate,
    {
        proof {
            vstd::set_lib::lemma_len_subset(skipped, used@);
        }
        if !used.contains(&candidate) {
            let ghost before = result@;
            result.push(candidate);
            assert forall|x: i64| 1 <= x < candidate + 1 && !used@.contains(x) implies #[trigger] result@.contains(
                x,
            ) by {
                if x == candidate {
                    assert(result@[result@.len() - 1] == x);
                } else {
                    assert(before.contains(x));
                    let k = choose|k: int| 0 <= k < before.len() && before[k] == x;
                    assert(result@[k] == x);
                }
            }
        } else {
            proof {
                skipped = skipped.insert(candidate);
            }
        }
        candidate += 1;
    }
    proof {
        if result@.len() > 0 {
            assert forall|x: i64| 1 <= x <= result@.last() && !used@.contains(x) implies #[trigger] result@.contains(x) by {
                assert(result@.last() < candidate);
            }
        }
    }
    result
}

} // verus!
