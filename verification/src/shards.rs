//! Shard resolution: which shards of a database contract are already
//! materialized locally, which must be fetched, and the pending proposal.
//!
//! Resolution is idempotent by local presence: an index already present
//! locally is treated as materialized and not fetched again.  The pending
//! proposal is always fetched anew, regardless of prior state.

use vstd::prelude::*;

use crate::attribution::ShardKey;
use crate::numeric::{dec_digits, u64_to_decimal};

verus! {

/// The local folder name a shard's files are unpacked into, under the
/// database contract's folder: `shard_` and the on-chain index in decimal,
/// or `new_shard` for the pending proposal.
pub open spec fn spec_folder_name(key: ShardKey) -> Seq<char> {
    match key {
        ShardKey::Pending => "new_shard"@,
        ShardKey::OnChain(i) => "shard_"@ + dec_digits(i as nat),
    }
}

/// Renders the local folder name for a shard.
pub fn shard_folder_name(key: ShardKey) -> (r: String)
    ensures
        r@ == spec_folder_name(key),
{
    match key {
        ShardKey::Pending => "new_shard".to_owned(),
        ShardKey::OnChain(i) => {
            let mut s: String = "shard_".to_owned();
            s.append(u64_to_decimal(i).as_str());
            s
        },
    }
}

/// Materialization state of one shard.
#[derive(Clone, Copy, PartialEq, Eq, Structural, Debug)]
pub enum ShardState {
    Missing,
    Materializing,
    Materialized,
}

/// Identity of a shard: its key, its storage-network content identifier
/// (empty for a shard that is already materialized locally and thus never
/// fetched), and its materialization state.
pub struct ShardDescriptor {
    pub key: ShardKey,
    pub content_id: String,
    pub state: ShardState,
}

/// Ghost image of a shard descriptor: key, content identifier, state.
pub type ShardDescriptorV = (ShardKey, Seq<char>, ShardState);

/// Ghost image of a descriptor list.
pub open spec fn descs_view(ds: Seq<ShardDescriptor>) -> Seq<ShardDescriptorV> {
    ds.map_values(|d: ShardDescriptor| (d.key, d.content_id@, d.state))
}

/// The on-chain indices among the first `k` that are not present locally,
/// ascending.
pub open spec fn missing_indices(present: Seq<bool>, k: int) -> Seq<u64>
    decreases k,
{
    if k <= 0 {
        Seq::empty()
    } else if present[k - 1] {
        missing_indices(present, k - 1)
    } else {
        missing_indices(present, k - 1).push((k - 1) as u64)
    }
}

/// How many of the first `k` indices are not present locally.
pub open spec fn count_missing(present: Seq<bool>, k: int) -> int
    decreases k,
{
    if k <= 0 {
        0
    } else if present[k - 1] {
        count_missing(present, k - 1)
    } else {
        count_missing(present, k - 1) + 1
    }
}

/// `missing_indices` lists exactly `count_missing` indices.
pub proof fn lemma_missing_indices_len(present: Seq<bool>, k: int)
    requires
        0 <= k <= present.len(),
    ensures
        missing_indices(present, k).len() == count_missing(present, k),
        count_missing(present, k) <= k,
    decreases k,
{
    if k > 0 {
        lemma_missing_indices_len(present, k - 1);
    }
}

/// The shard indices that must be fetched from the ledger: exactly those
/// whose local folder is absent, in ascending order.  Indices already
/// present locally are assumed materialized and are not fetched again.
pub fn plan_shard_queries(locally_present: &Vec<bool>) -> (r: Vec<u64>)
    requires
        locally_present@.len() <= u64::MAX,
    ensures
        r@ == missing_indices(locally_present@, locally_present@.len() as int),
        r@.len() == count_missing(locally_present@, locally_present@.len() as int),
{
    proof {
        lemma_missing_indices_len(locally_present@, locally_present@.len() as int);
    }
    let mut out: Vec<u64> = Vec::new();
    let mut i: usize = 0;
    while i < locally_present.len()
        invariant
            i <= locally_present@.len(),
            locally_present@.len() <= u64::MAX,
            out@ == missing_indices(locally_present@, i as int),
        decreases locally_present@.len() - i,
    {
        if !locally_present[i] {
            out.push(i as u64);
        }
        i = i + 1;
    }
    out
}

/// Some byte of the address is non-zero.
pub open spec fn addr_nonzero(addr: Seq<u8>) -> bool {
    exists|j: int| 0 <= j < addr.len() && addr[j] != 0
}

/// A fetched shard is valid exactly when its owner address is non-zero: the
/// zero address marks a deleted or never-filled array slot.
pub fn shard_is_valid(addr: &Vec<u8>) -> (r: bool)
    ensures
        r == addr_nonzero(addr@),
{
    let mut j: usize = 0;
    while j < addr.len()
        invariant
            j <= addr@.len(),
            forall|t: int| 0 <= t < j ==> addr@[t] == 0,
        decreases addr@.len() - j,
    {
        if addr[j] != 0 {
            assert(addr@[j as int] != 0);
            return true;
        }
        j = j + 1;
    }
    false
}

/// Descriptors for the first `k` on-chain indices: a present index is
/// materialized; an absent index takes the next fetched answer and is
/// missing when its address is valid, or dropped when it is the zero
/// address.
pub open spec fn resolved_upto(
    present: Seq<bool>,
    fetched: Seq<(Vec<u8>, String)>,
    k: int,
) -> Seq<ShardDescriptorV>
    decreases k,
{
    if k <= 0 {
        Seq::empty()
    } else {
        let init = resolved_upto(present, fetched, k - 1);
        if present[k - 1] {
            init.push((ShardKey::OnChain((k - 1) as u64), Seq::empty(), ShardState::Materialized))
        } else {
            let f = fetched[count_missing(present, k - 1)];
            if addr_nonzero(f.0@) {
                init.push((ShardKey::OnChain((k - 1) as u64), f.1@, ShardState::Missing))
            } else {
                init
            }
        }
    }
}

/// Builds the full shard set for one run: one descriptor per locally
/// present index (materialized), one per valid fetched answer (missing),
/// and the pending proposal last (always missing, always re-fetched).
/// `fetched` holds the ledger's answers to `plan_shard_queries`, in query
/// order.
pub fn resolve_shards(
    locally_present: &Vec<bool>,
    fetched: &Vec<(Vec<u8>, String)>,
    proposal_cid: String,
) -> (r: Vec<ShardDescriptor>)
    requires
        locally_present@.len() <= u64::MAX,
        fetched@.len() == count_missing(locally_present@, locally_present@.len() as int),
    ensures
        descs_view(r@) == resolved_upto(
            locally_present@,
            fetched@,
            locally_present@.len() as int,
        ).push((ShardKey::Pending, proposal_cid@, ShardState::Missing)),
{
    let ghost pres = locally_present@;
    let nf: usize = fetched.len();
    let mut out: Vec<ShardDescriptor> = Vec::new();
    let mut cursor: usize = 0;
    let mut i: usize = 0;
    proof {
        assert(descs_view(out@) =~= resolved_upto(pres, fetched@, 0));
    }
    while i < locally_present.len()
        invariant
            i <= pres.len(),
            pres == locally_present@,
            pres.len() <= u64::MAX,
            fetched@.len() == count_missing(pres, pres.len() as int),
            nf == fetched@.len(),
            cursor == count_missing(pres, i as int),
            descs_view(out@) == resolved_upto(pres, fetched@, i as int),
        decreases pres.len() - i,
    {
        let ghost pre = descs_view(out@);
        if locally_present[i] {
            out.push(
                ShardDescriptor {
                    key: ShardKey::OnChain(i as u64),
                    content_id: String::new(),
                    state: ShardState::Materialized,
                },
            );
            proof {
                assert(descs_view(out@) =~= resolved_upto(pres, fetched@, i + 1));
            }
        } else {
            proof {
                lemma_count_missing_mono(pres, i + 1, pres.len() as int);
            }
            let valid: bool = shard_is_valid(&fetched[cursor].0);
            if valid {
                out.push(
                    ShardDescriptor {
                        key: ShardKey::OnChain(i as u64),
                        content_id: fetched[cursor].1.clone(),
                        state: ShardState::Missing,
                    },
                );
                proof {
                    assert(descs_view(out@) =~= resolved_upto(pres, fetched@, i + 1));
                }
            } else {
                proof {
                    assert(descs_view(out@) =~= resolved_upto(pres, fetched@, i + 1));
                }
            }
            cursor = cursor + 1;
        }
        i = i + 1;
    }
    out.push(ShardDescriptor { key: ShardKey::Pending, content_id: proposal_cid, state: ShardState::Missing });
    proof {
        assert(descs_view(out@) =~= resolved_upto(pres, fetched@, pres.len() as int).push(
            (ShardKey::Pending, out@.last().content_id@, ShardState::Missing),
        ));
    }
    out
}

/// The resolved shard set is deterministically ordered: every entry of the
/// on-chain part carries an ascending on-chain index below `k`, an entry is
/// materialized exactly when its index is present locally, and the rest are
/// missing.
pub proof fn lemma_resolved_order(present: Seq<bool>, fetched: Seq<(Vec<u8>, String)>, k: int)
    requires
        0 <= k <= present.len(),
        present.len() <= u64::MAX,
    ensures
        forall|j: int|
            0 <= j < resolved_upto(present, fetched, k).len() ==> {
                let e = #[trigger] resolved_upto(present, fetched, k)[j];
                &&& e.0 matches ShardKey::OnChain(i) && i < k
                &&& (e.2 == ShardState::Materialized <==> present[e.0->OnChain_0 as int])
                &&& (e.2 == ShardState::Materialized || e.2 == ShardState::Missing)
            },
        forall|j1: int, j2: int|
            0 <= j1 < j2 < resolved_upto(present, fetched, k).len()
                ==> (#[trigger] resolved_upto(present, fetched, k)[j1]).0->OnChain_0
                < (#[trigger] resolved_upto(present, fetched, k)[j2]).0->OnChain_0,
    decreases k,
{
    if k > 0 {
        lemma_resolved_order(present, fetched, k - 1);
        let prev = resolved_upto(present, fetched, k - 1);
        let cur = resolved_upto(present, fetched, k);
        assert forall|j: int| 0 <= j < cur.len() implies {
            let e = #[trigger] cur[j];
            &&& e.0 matches ShardKey::OnChain(i) && i < k
            &&& (e.2 == ShardState::Materialized <==> present[e.0->OnChain_0 as int])
            &&& (e.2 == ShardState::Materialized || e.2 == ShardState::Missing)
        } by {
            if j < prev.len() {
                assert(cur[j] == prev[j]);
            } else {
                assert(cur[j].0 == ShardKey::OnChain((k - 1) as u64));
            }
        }
    }
}

/// Missing counts grow with the prefix.
pub proof fn lemma_count_missing_mono(present: Seq<bool>, k: int, k2: int)
    requires
        0 <= k <= k2,
    ensures
        count_missing(present, k) <= count_missing(present, k2),
    decreases k2 - k,
{
    if k < k2 {
        lemma_count_missing_mono(present, k + 1, k2);
    }
}

} // verus!
