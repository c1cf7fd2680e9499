//! Shard attribution: mapping contiguous sample-position ranges to the
//! shard each sample came from.
//!
//! Samples are addressed only by position in the merged sample sequence, so
//! every loader pass emits one half-open range per run of consecutive inputs
//! with the same shard key, in input order.  The ranges partition
//! `[0, total_sample_count)` exactly; the valuation engine's per-sample
//! output is re-attributed against exactly this order.

use vstd::prelude::*;

verus! {

/// Identity of the shard a sample is attributed to: an on-chain shard array
/// index, or the distinguished pending proposal.
#[derive(Clone, Copy, PartialEq, Eq, Structural, Debug, Hash)]
pub enum ShardKey {
    OnChain(u64),
    Pending,
}

/// A half-open range `[start, end)` of sample positions attributed to one
/// shard.
#[derive(Clone, Copy, PartialEq, Eq, Structural, Debug)]
pub struct RangeEntry {
    pub shard: ShardKey,
    pub start: usize,
    pub end: usize,
}

/// Ghost image of an attribution range list.
pub open spec fn ranges_view(rs: Seq<RangeEntry>) -> Seq<(ShardKey, int, int)> {
    rs.map_values(|e: RangeEntry| (e.shard, e.start as int, e.end as int))
}

/// Sum of a sequence of counts.
pub open spec fn sum(counts: Seq<nat>) -> nat
    decreases counts.len(),
{
    if counts.len() == 0 {
        0
    } else {
        sum(counts.drop_last()) + counts.last()
    }
}

/// Attribution ranges for inputs with shard keys `keys`, where input `i`
/// contributed `counts[i]` samples: one entry per maximal run of equal
/// consecutive keys, in input order.
pub open spec fn attr(keys: Seq<ShardKey>, counts: Seq<nat>) -> Seq<(ShardKey, int, int)>
    recommends
        keys.len() == counts.len(),
    decreases keys.len(),
{
    if keys.len() == 0 {
        Seq::empty()
    } else {
        let init = attr(keys.drop_last(), counts.drop_last());
        let n = sum(counts.drop_last());
        let c = counts.last();
        if keys.len() > 1 && keys[keys.len() - 2] == keys.last() {
            init.update(init.len() - 1, (keys.last(), init.last().1, (n + c) as int))
        } else {
            init.push((keys.last(), n as int, (n + c) as int))
        }
    }
}

/// The ranges are contiguous, start at 0, and end at `total`: they
/// partition `[0, total)` exactly, with no gaps and no overlaps.
pub open spec fn ranges_partition(rs: Seq<(ShardKey, int, int)>, total: int) -> bool {
    &&& (rs.len() == 0 ==> total == 0)
    &&& (rs.len() > 0 ==> rs[0].1 == 0 && rs[rs.len() - 1].2 == total)
    &&& forall|k: int| 0 <= k < rs.len() ==> (#[trigger] rs[k]).1 <= rs[k].2
    &&& forall|k: int| 0 <= k < rs.len() - 1 ==> (#[trigger] rs[k]).2 == rs[k + 1].1
}

/// Adjacent ranges belong to distinct shards: each entry is a maximal run.
pub open spec fn ranges_distinct_adjacent(rs: Seq<(ShardKey, int, int)>) -> bool {
    forall|k: int| 0 <= k < rs.len() - 1 ==> (#[trigger] rs[k]).0 != rs[k + 1].0
}

/// For all sequences of (shard key, sample count) inputs, the attribution
/// ranges partition `[0, n)` exactly with no gaps or overlaps, where `n` is
/// the total sample count; adjacent ranges belong to distinct shards, there
/// are no more ranges than inputs, and the last range carries the last
/// input's key.
pub proof fn lemma_attr_partition(keys: Seq<ShardKey>, counts: Seq<nat>)
    requires
        keys.len() == counts.len(),
    ensures
        ranges_partition(attr(keys, counts), sum(counts) as int),
        ranges_distinct_adjacent(attr(keys, counts)),
        attr(keys, counts).len() <= keys.len(),
        keys.len() > 0 ==> attr(keys, counts).len() > 0 && attr(keys, counts).last().0
            == keys.last(),
    decreases keys.len(),
{
    if keys.len() > 0 {
        lemma_attr_partition(keys.drop_last(), counts.drop_last());
    }
}

/// The sum of a prefix of counts is no more than the sum of all of them.
pub proof fn lemma_sum_prefix_le(counts: Seq<nat>, i: int)
    requires
        0 <= i <= counts.len(),
    ensures
        sum(counts.subrange(0, i)) <= sum(counts),
    decreases counts.len() - i,
{
    if i < counts.len() {
        lemma_sum_prefix_le(counts, i + 1);
        assert(counts.subrange(0, i + 1).drop_last() =~= counts.subrange(0, i));
    } else {
        assert(counts.subrange(0, i) =~= counts);
    }
}

/// Builds the attribution ranges for inputs with shard keys `keys`, where
/// input `i` contributed `counts[i]` samples.
pub fn build_attribution(keys: &Vec<ShardKey>, counts: &Vec<usize>) -> (r: Vec<RangeEntry>)
    requires
        keys@.len() == counts@.len(),
        sum(counts@.map_values(|c: usize| c as nat)) <= usize::MAX,
    ensures
        ranges_view(r@) == attr(keys@, counts@.map_values(|c: usize| c as nat)),
{
    let ghost counts_n: Seq<nat> = counts@.map_values(|c: usize| c as nat);
    let mut out: Vec<RangeEntry> = Vec::new();
    let mut total: usize = 0;
    let mut i: usize = 0;
    while i < keys.len()
        invariant
            keys@.len() == counts@.len(),
            counts_n == counts@.map_values(|c: usize| c as nat),
            sum(counts_n) <= usize::MAX,
            i <= keys@.len(),
            total == sum(counts_n.subrange(0, i as int)),
            ranges_view(out@) == attr(keys@.subrange(0, i as int), counts_n.subrange(0, i as int)),
            out@.len() > 0 ==> out@.last().end == total,
        decreases keys@.len() - i,
    {
        let ghost pre_keys = keys@.subrange(0, i as int);
        let ghost pre_counts = counts_n.subrange(0, i as int);
        proof {
            lemma_sum_prefix_le(counts_n, i + 1);
            assert(counts_n.subrange(0, i + 1).drop_last() =~= pre_counts);
            assert(keys@.subrange(0, i + 1).drop_last() =~= pre_keys);
            lemma_attr_partition(pre_keys, pre_counts);
        }
        let c: usize = counts[i];
        let new_end: usize = total + c;
        if i > 0 && out.len() > 0 && keys[i - 1] == keys[i] {
            let m: usize = out.len() - 1;
            let mut e: RangeEntry = out[m];
            e.end = new_end;
            out.set(m, e);
            proof {
                assert(ranges_view(out@) =~= attr(
                    keys@.subrange(0, i + 1),
                    counts_n.subrange(0, i + 1),
                ));
            }
        } else {
            out.push(RangeEntry { shard: keys[i], start: total, end: new_end });
            proof {
                assert(ranges_view(out@) =~= attr(
                    keys@.subrange(0, i + 1),
                    counts_n.subrange(0, i + 1),
                ));
            }
        }
        total = new_end;
        i = i + 1;
    }
    proof {
        assert(keys@.subrange(0, i as int) =~= keys@);
        assert(counts_n.subrange(0, i as int) =~= counts_n);
    }
    out
}

} // verus!
