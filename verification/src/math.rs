//! Cumulative distribution of a byte histogram.

use std::collections::HashMap;
use vstd::prelude::*;

verus! {

broadcast use vstd::std_specs::hash::group_hash_axioms;

/// Sum of the histogram counts of the first `n` byte values, `0..n`.
pub open spec fn prefix_total(data: Map<u8, u32>, n: nat) -> int
    decreases n,
{
    if n == 0 {
        0
    } else {
        prefix_total(data, (n - 1) as nat) + data[(n - 1) as u8]
    }
}

/// The histogram has a count for every byte value.
pub open spec fn covers_all_bytes(data: Map<u8, u32>) -> bool {
    forall|k: u8| #[trigger] data.contains_key(k)
}

/// Prefix totals grow with their bound.
pub proof fn lemma_prefix_total_monotone(data: Map<u8, u32>, i: nat, j: nat)
    requires
        i <= j,
    ensures
        prefix_total(data, i) <= prefix_total(data, j),
    decreases j - i,
{
    if i < j {
        lemma_prefix_total_monotone(data, i, (j - 1) as nat);
    }
}

/// A cumulative distribution never decreases: the value at `i` is at most
/// the value at any `j` after it.
pub proof fn law_cumulative_distribution_monotone(data: Map<u8, u32>, i: u8, j: u8)
    requires
        i <= j,
    ensures
        prefix_total(data, i as nat + 1) <= prefix_total(data, j as nat + 1),
{
    lemma_prefix_total_monotone(data, i as nat + 1, j as nat + 1);
}

/// The cumulative distribution of a histogram: the count at `k` becomes the
/// sum of the counts of `0..=k`.
pub fn cumulative_distribution(data: &HashMap<u8, u32>) -> (output: HashMap<u8, u32>)
    requires
        covers_all_bytes(data@),
        prefix_total(data@, 256) <= u32::MAX,
    ensures
        covers_all_bytes(output@),
        forall|k: u8| #[trigger] output@[k] == prefix_total(data@, k as nat + 1),
{
    let mut output: HashMap<u8, u32> = HashMap::new();
    assert(data@.contains_key(0u8));
    let first: u32 = *data.get(&0).unwrap();
    output.insert(0, first);
    assert(prefix_total(data@, 1) == data@[0u8]) by {
        reveal_with_fuel(prefix_total, 2);
    }
    let mut i: u8 = 0;
    while i < 255
        invariant
            covers_all_bytes(data@),
            prefix_total(data@, 256) <= u32::MAX,
            forall|k: u8| k <= i ==> #[trigger] output@.contains_key(k),
            forall|k: u8| k <= i ==> #[trigger] output@[k] == prefix_total(data@, k as nat + 1),
        decreases 255 - i,
    {
        assert(data@.contains_key((i + 1) as u8));
        assert(output@.contains_key(i));
        let next: u32 = *data.get(&(i + 1)).unwrap();
        let prev: u32 = *output.get(&i).unwrap();
        proof {
            lemma_prefix_total_monotone(data@, i as nat + 2, 256);
            assert(prefix_total(data@, i as nat + 2) == prefix_total(data@, i as nat + 1) + data@[(i + 1) as u8]);
        }
        output.insert(i + 1, next + prev);
        i = i + 1;
    }
    assert forall|k: u8| #[trigger] output@.contains_key(k) by {
        assert(k <= 255);
    }
    output
}

} // verus!
