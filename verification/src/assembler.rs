//! Dataset assembly: flattening the materialized shards' files, in the
//! orchestrator's deterministic shard order, into one input list for a data
//! capture loader.
//!
//! The dataset and the attribution index are produced together by the
//! loader pass and must never be separated: the valuation engine's
//! per-sample output is only meaningful when re-sliced by that index.

use vstd::prelude::*;

use crate::attribution::{ranges_distinct_adjacent, ranges_partition, ranges_view, RangeEntry, ShardKey};
use crate::data_loader::{CaptureInput, DataLoader, LoadError};

verus! {

/// Ghost image of a capture input: path, shard key, bytes.
pub type CaptureInputV = (Seq<char>, ShardKey, Seq<u8>);

/// Ghost image of an input list.
pub open spec fn inputs_view(is: Seq<CaptureInput>) -> Seq<CaptureInputV> {
    is.map_values(|ci: CaptureInput| (ci.path@, ci.shard, ci.bytes@))
}

/// Ghost image of one shard's files, every one attributed to that shard.
pub open spec fn group_view(key: ShardKey, files: Seq<(String, Vec<u8>)>) -> Seq<CaptureInputV> {
    files.map_values(|f: (String, Vec<u8>)| (f.0@, key, f.1@))
}

/// Ghost image of the first `k` shard groups, flattened in group order.
pub open spec fn flat_view(groups: Seq<(ShardKey, Vec<(String, Vec<u8>)>)>, k: int) -> Seq<
    CaptureInputV,
>
    decreases k,
{
    if k <= 0 {
        Seq::empty()
    } else {
        flat_view(groups, k - 1) + group_view(groups[k - 1].0, groups[k - 1].1@)
    }
}

/// Flattens the shards' files, in the handed group order, into one input
/// list: every file of a group becomes one input attributed to that group's
/// shard, groups in order, files in order within each group.
pub fn collect_assembly_inputs(groups: Vec<(ShardKey, Vec<(String, Vec<u8>)>)>) -> (r: Vec<
    CaptureInput,
>)
    ensures
        inputs_view(r@) == flat_view(groups@, groups@.len() as int),
{
    let ghost gv = groups@;
    let mut groups = groups;
    let mut out: Vec<CaptureInput> = Vec::new();
    proof {
        assert(groups@ =~= gv.subrange(0, gv.len() as int));
        assert(inputs_view(out@) =~~= flat_view(gv, 0));
    }
    while groups.len() > 0
        invariant
            groups@.len() <= gv.len(),
            groups@ == gv.subrange((gv.len() - groups@.len()) as int, gv.len() as int),
            inputs_view(out@) == flat_view(gv, (gv.len() - groups@.len()) as int),
        decreases groups@.len(),
    {
        let ghost done = gv.len() - groups@.len();
        let (key, files) = groups.remove(0);
        let ghost fv = files@;
        let mut files = files;
        proof {
            assert(groups@ =~= gv.subrange(done + 1, gv.len() as int));
            assert(gv[done].0 == key && gv[done].1@ == fv);
            assert(files@ =~= fv.subrange(0, fv.len() as int));
            assert(group_view(key, fv.subrange(0, 0)) =~= Seq::empty());
            assert(inputs_view(out@) =~~= flat_view(gv, done) + group_view(
                key,
                fv.subrange(0, 0),
            ));
        }
        while files.len() > 0
            invariant
                files@.len() <= fv.len(),
                files@ == fv.subrange((fv.len() - files@.len()) as int, fv.len() as int),
                inputs_view(out@) == flat_view(gv, done) + group_view(
                    key,
                    fv.subrange(0, (fv.len() - files@.len()) as int),
                ),
            decreases files@.len(),
        {
            let ghost fdone = fv.len() - files@.len();
            let ghost pre_view = inputs_view(out@);
            let (name, bytes) = files.remove(0);
            out.push(CaptureInput { path: name, shard: key, bytes });
            proof {
                assert(files@ =~= fv.subrange(fdone + 1, fv.len() as int));
                assert(fv[fdone].0@ == out@.last().path@ && fv[fdone].1@ == out@.last().bytes@);
                assert(inputs_view(out@) =~~= pre_view.push(
                    (out@.last().path@, key, out@.last().bytes@),
                ));
                assert(group_view(key, fv.subrange(0, fdone + 1)) =~~= group_view(
                    key,
                    fv.subrange(0, fdone),
                ).push((fv[fdone].0@, key, fv[fdone].1@)));
                assert(inputs_view(out@) =~~= flat_view(gv, done) + group_view(
                    key,
                    fv.subrange(0, fdone + 1),
                ));
            }
        }
        proof {
            assert(fv.subrange(0, fv.len() as int) =~= fv);
            assert(inputs_view(out@) =~~= flat_view(gv, done + 1));
        }
    }
    out
}

/// Runs one assembly pass: flattens the shards' files in the handed group
/// order and delegates to the loader.  The returned dataset and attribution
/// index come from one pass over one input list whose ghost image is the
/// flattening of the groups.
pub fn assemble<L: DataLoader>(loader: &L, groups: Vec<(ShardKey, Vec<(String, Vec<u8>)>)>) -> (r:
    Result<(Vec<Vec<L::Feature>>, Vec<u32>, Vec<RangeEntry>), LoadError>)
    ensures
        exists|inputs: Seq<CaptureInput>|
            #[trigger] inputs_view(inputs) == flat_view(groups@, groups@.len() as int) && match r {
                Ok(out) => loader.load_ok(inputs, out.0@, out.1@, out.2@),
                Err(e) => loader.load_err(inputs, e),
            },
        r matches Ok(out) ==> {
            &&& out.0@.len() == out.1@.len()
            &&& ranges_partition(ranges_view(out.2@), out.0@.len() as int)
            &&& ranges_distinct_adjacent(ranges_view(out.2@))
        },
{
    let ghost gv = groups@;
    let inputs: Vec<CaptureInput> = collect_assembly_inputs(groups);
    let r = loader.load_all_samples(&inputs);
    proof {
        assert(inputs_view(inputs@) == flat_view(gv, gv.len() as int));
    }
    r
}

} // verus!
