//! The integer part of histogram equalization: the histogram of a channel,
//! its cumulative distribution and the smallest cumulative count.

use crate::math::{
    covers_all_bytes,
    cumulative_distribution,
    law_cumulative_distribution_monotone,
    prefix_total,
};
use std::collections::HashMap;
use vstd::prelude::*;

verus! {

broadcast use vstd::std_specs::hash::group_hash_axioms;

/// How the contrast of an image is changed.
pub enum ContrastAlgorithm {
    Linear,
    HistogramEqualize,
}

/// Number of times `v` occurs in `s`.
pub open spec fn occurrences(s: Seq<u8>, v: u8) -> nat
    decreases s.len(),
{
    if s.len() == 0 {
        0
    } else {
        occurrences(s.drop_last(), v) + if s.last() == v {
            1nat
        } else {
            0nat
        }
    }
}

/// Incrementing the count of `x` increments the total of the first `n`
/// counts exactly when `x` is among the first `n` values.
proof fn lemma_prefix_total_increment(m: Map<u8, u32>, x: u8, n: nat)
    requires
        n <= 256,
        m.contains_key(x),
        m[x] < u32::MAX,
    ensures
        prefix_total(m.insert(x, (m[x] + 1) as u32), n) == prefix_total(m, n) + if x < n {
            1int
        } else {
            0int
        },
    decreases n,
{
    if n > 0 {
        lemma_prefix_total_increment(m, x, (n - 1) as nat);
    }
}

/// Every value occurs at most `u32::MAX` times, so each count fits in the
/// histogram.
pub open spec fn counts_fit(s: Seq<u8>) -> bool {
    forall|k: u8| #[trigger] occurrences(s, k) <= u32::MAX
}

/// A prefix holds no more occurrences of a value than a longer prefix.
proof fn lemma_occurrences_prefix(s: Seq<u8>, v: u8, i: int, j: int)
    requires
        0 <= i <= j <= s.len(),
    ensures
        occurrences(s.subrange(0, i), v) <= occurrences(s.subrange(0, j), v),
    decreases j - i,
{
    if i < j {
        lemma_occurrences_prefix(s, v, i, j - 1);
        assert(s.subrange(0, j).drop_last() =~= s.subrange(0, j - 1));
    }
}

/// A value occurs at most as many times as the sequence is long.
proof fn lemma_occurrences_le_len(s: Seq<u8>, v: u8)
    ensures
        occurrences(s, v) <= s.len(),
    decreases s.len(),
{
    if s.len() > 0 {
        lemma_occurrences_le_len(s.drop_last(), v);
    }
}

/// The histogram of a channel: how many times each byte value occurs.
pub fn byte_histogram(buf: &Vec<u8>) -> (histogram: HashMap<u8, u32>)
    requires
        counts_fit(buf@),
    ensures
        covers_all_bytes(histogram@),
        forall|k: u8| #[trigger] histogram@[k] == occurrences(buf@, k),
        prefix_total(histogram@, 256) == buf@.len(),
{
    let mut histogram: HashMap<u8, u32> = HashMap::new();
    let mut v: u8 = 0;
    while v < 255
        invariant
            forall|k: u8| k < v ==> #[trigger] histogram@.contains_key(k),
            forall|k: u8| k < v ==> #[trigger] histogram@[k] == 0,
        decreases 255 - v,
    {
        histogram.insert(v, 0);
        v = v + 1;
    }
    histogram.insert(255, 0);
    assert forall|k: u8| #[trigger] histogram@.contains_key(k) && histogram@[k] == 0 by {
        if k < 255 {
            assert(k < v);
        }
    }
    proof {
        assert forall|n: nat| n <= 256 implies #[trigger] prefix_total(histogram@, n) == 0 by {
            lemma_zero_total(histogram@, n);
        }
    }
    let mut i: usize = 0;
    while i < buf.len()
        invariant
            counts_fit(buf@),
            i <= buf@.len(),
            covers_all_bytes(histogram@),
            forall|k: u8| #[trigger] histogram@[k] == occurrences(buf@.subrange(0, i as int), k),
            prefix_total(histogram@, 256) == i,
        decreases buf.len() - i,
    {
        let x: u8 = buf[i];
        assert(buf@.subrange(0, i + 1).drop_last() =~= buf@.subrange(0, i as int));
        assert(histogram@.contains_key(x));
        let count: u32 = *histogram.get(&x).unwrap();
        proof {
            lemma_occurrences_prefix(buf@, x, i + 1, buf@.len() as int);
            assert(buf@.subrange(0, buf@.len() as int) =~= buf@);
            assert(occurrences(buf@, x) <= u32::MAX);
            lemma_prefix_total_increment(histogram@, x, 256);
        }
        histogram.insert(x, count + 1);
        i = i + 1;
    }
    assert(buf@.subrange(0, buf@.len() as int) =~= buf@);
    histogram
}

/// All counts zero: every prefix total is zero.
proof fn lemma_zero_total(m: Map<u8, u32>, n: nat)
    requires
        n <= 256,
        forall|k: u8| #[trigger] m[k] == 0,
    ensures
        prefix_total(m, n) == 0,
    decreases n,
{
    if n > 0 {
        lemma_zero_total(m, (n - 1) as nat);
    }
}

/// The cumulative distribution of the channel's histogram and its
/// smallest value, from which equalization maps each byte value. Since the
/// distribution never decreases, its smallest value is the count of byte
/// value 0, which is what the equalization divides by; no test or comment
/// of the editor says whether a smallest non-zero count was meant instead.
/// The requirement that the channel hold at most `u32::MAX` samples is
/// where the running `u32` sums of the distribution fit.
pub fn equalization_levels(buf: &Vec<u8>) -> (r: (HashMap<u8, u32>, u32))
    requires
        buf@.len() <= u32::MAX,
    ensures
        covers_all_bytes(r.0@),
        forall|k: u8| #[trigger] r.0@[k] == prefix_total(occurrence_map(buf@), k as nat + 1),
        forall|k: u8| r.1 <= #[trigger] r.0@[k],
        exists|k: u8| r.1 == #[trigger] r.0@[k],
        r.1 == r.0@[0u8],
{
    proof {
        assert forall|k: u8| #[trigger] occurrences(buf@, k) <= u32::MAX by {
            lemma_occurrences_le_len(buf@, k);
        }
    }
    let histogram = byte_histogram(buf);
    proof {
        assert(histogram@ =~= occurrence_map(buf@));
    }
    let cdf = cumulative_distribution(&histogram);
    assert(cdf@.contains_key(0u8));
    let mut cdf_min: u32 = *cdf.get(&0).unwrap();
    let mut v: u8 = 0;
    while v < 255
        invariant
            covers_all_bytes(cdf@),
            forall|k: u8| k <= v ==> cdf_min <= #[trigger] cdf@[k],
            exists|k: u8| cdf_min == #[trigger] cdf@[k],
        decreases 255 - v,
    {
        v = v + 1;
        assert(cdf@.contains_key(v));
        let c: u32 = *cdf.get(&v).unwrap();
        if c < cdf_min {
            cdf_min = c;
        }
    }
    assert forall|k: u8| cdf_min <= #[trigger] cdf@[k] by {
        assert(k <= v);
    }
    proof {
        let k = choose|k: u8| cdf_min == #[trigger] cdf@[k];
        law_cumulative_distribution_monotone(histogram@, 0, k);
    }
    (cdf, cdf_min)
}

/// The histogram of `s` as a map from every byte value to its count.
pub open spec fn occurrence_map(s: Seq<u8>) -> Map<u8, u32> {
    Map::new(|k: u8| true, |k: u8| occurrences(s, k) as u32)
}

} // verus!
