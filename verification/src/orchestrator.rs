//! Retrieval orchestration: the per-shard materialization state machine.
//!
//! For every shard requiring materialization the orchestrator plans one
//! directory listing, then one download per listed file; each downloaded
//! archive's first entry is unpacked and handed back for writing.  A shard
//! becomes materialized only after every one of its files is unpacked
//! without error; any failure marks only that shard as failed and leaves
//! every other shard's state untouched.

use vstd::prelude::*;
use vstd::pervasive::unreached;

use crate::shards::{ShardDescriptor, ShardState};

verus! {

/// Retrieval state of one listed file.
#[derive(Clone, Copy, PartialEq, Eq, Structural, Debug)]
pub enum FileState {
    PendingFetch,
    Done,
}

/// One file of a shard's remote directory listing.
pub struct FileJob {
    pub name: String,
    pub content_id: String,
    pub state: FileState,
}

/// Retrieval state of one shard: its descriptor, its listed files once the
/// listing arrived, and whether any of its requests failed.
pub struct ShardRetrieval {
    pub desc: ShardDescriptor,
    pub files: Option<Vec<FileJob>>,
    pub failed: bool,
}

/// Every listed file of the shard is unpacked.
pub open spec fn all_files_done(fs: Seq<FileJob>) -> bool {
    forall|t: int| 0 <= t < fs.len() ==> (#[trigger] fs[t]).state == FileState::Done
}

/// A shard's retrieval state is consistent: no listing before it is
/// materializing, a listing once it is, and a materialized shard has no
/// failure and no file left pending.
pub open spec fn entry_wf(s: ShardRetrieval) -> bool {
    &&& (s.desc.state == ShardState::Missing ==> s.files is None)
    &&& (s.desc.state == ShardState::Materializing ==> s.files is Some)
    &&& (s.desc.state == ShardState::Materialized ==> !s.failed && (s.files matches Some(fs)
        ==> all_files_done(fs@)))
}

/// The first entry of the archive encoded in `data`, if `data` is a
/// readable archive with at least one entry.
pub uninterp spec fn tar_first_entry_of(data: Seq<u8>) -> Option<Seq<u8>>;

/// Relies on tar::Archive: an archive's entries are a function of its
/// bytes; the first entry's contents are returned.  Only the first entry is
/// read: the transport encodes one file per archive.
#[verifier::external_body]
fn untar_first_entry(data: &Vec<u8>) -> (r: Option<Vec<u8>>)
    ensures
        r.deep_view() == tar_first_entry_of(data@),
{
    let mut archive = tar::Archive::new(data.as_slice());
    let mut entries = match archive.entries() {
        Ok(es) => es,
        Err(_) => return None,
    };
    let mut first = match entries.next() {
        Some(Ok(e)) => e,
        _ => return None,
    };
    let mut buf: Vec<u8> = Vec::new();
    match std::io::Read::read_to_end(&mut first, &mut buf) {
        Ok(_) => Some(buf),
        Err(_) => None,
    }
}

/// The slots whose shards still need a directory listing among the first
/// `k`: missing, not failed, with their content identifiers.
pub open spec fn listing_plan(shards: Seq<ShardRetrieval>, k: int) -> Seq<(int, Seq<char>)>
    decreases k,
{
    if k <= 0 {
        Seq::empty()
    } else {
        let init = listing_plan(shards, k - 1);
        if shards[k - 1].desc.state == ShardState::Missing && !shards[k - 1].failed {
            init.push((k - 1, shards[k - 1].desc.content_id@))
        } else {
            init
        }
    }
}

/// Every planned listing is for a missing, unfailed shard, and every
/// missing, unfailed shard is planned: in particular, no network request is
/// ever planned for an already materialized shard.
pub proof fn lemma_listing_plan_props(shards: Seq<ShardRetrieval>, k: int)
    requires
        0 <= k <= shards.len(),
    ensures
        forall|j: int|
            0 <= j < listing_plan(shards, k).len() ==> {
                let (slot, cid) = #[trigger] listing_plan(shards, k)[j];
                &&& 0 <= slot < k
                &&& shards[slot].desc.state == ShardState::Missing
                &&& !shards[slot].failed
                &&& cid == shards[slot].desc.content_id@
            },
        forall|slot: int|
            0 <= slot < k && (#[trigger] shards[slot]).desc.state == ShardState::Missing
                && !shards[slot].failed ==> exists|j: int|
                0 <= j < listing_plan(shards, k).len() && listing_plan(shards, k)[j] == (
                slot,
                shards[slot].desc.content_id@,
            ),
    decreases k,
{
    if k > 0 {
        lemma_listing_plan_props(shards, k - 1);
        assert forall|slot: int|
            0 <= slot < k && (#[trigger] shards[slot]).desc.state == ShardState::Missing
                && !shards[slot].failed implies exists|j: int|
            0 <= j < listing_plan(shards, k).len() && listing_plan(shards, k)[j] == (
            slot,
            shards[slot].desc.content_id@,
        ) by {
            let plan = listing_plan(shards, k);
            if slot == k - 1 {
                assert(plan[plan.len() - 1] == (slot, shards[slot].desc.content_id@));
            } else {
                let j = choose|j: int|
                    0 <= j < listing_plan(shards, k - 1).len() && #[trigger] listing_plan(
                        shards,
                        k - 1,
                    )[j] == (slot, shards[slot].desc.content_id@);
                assert(plan[j] == (slot, shards[slot].desc.content_id@));
            }
        }
    }
}

/// The files of one listed shard still pending download among the first
/// `k`, with their content identifiers.
pub open spec fn download_plan(fs: Seq<FileJob>, k: int) -> Seq<(int, Seq<char>)>
    decreases k,
{
    if k <= 0 {
        Seq::empty()
    } else {
        let init = download_plan(fs, k - 1);
        if fs[k - 1].state == FileState::PendingFetch {
            init.push((k - 1, fs[k - 1].content_id@))
        } else {
            init
        }
    }
}

/// Drives the materialization of a fixed shard set.  Owns every shard's
/// state: nothing else may mutate it.
pub struct RetrievalOrchestrator {
    pub shards: Vec<ShardRetrieval>,
}

impl RetrievalOrchestrator {
    /// Every shard's retrieval state is consistent.
    pub open spec fn wf(&self) -> bool {
        forall|i: int| 0 <= i < self.shards@.len() ==> entry_wf(#[trigger] self.shards@[i])
    }

    /// Starts a retrieval run over the resolved shard set: no listings yet,
    /// no failures.
    pub fn new(descs: Vec<ShardDescriptor>) -> (r: RetrievalOrchestrator)
        requires
            forall|i: int|
                0 <= i < descs@.len() ==> (#[trigger] descs@[i]).state
                    != ShardState::Materializing,
        ensures
            r.wf(),
            r.shards@.len() == descs@.len(),
            forall|i: int|
                0 <= i < descs@.len() ==> {
                    &&& (#[trigger] r.shards@[i]).desc == descs@[i]
                    &&& r.shards@[i].files is None
                    &&& !r.shards@[i].failed
                },
    {
        let mut shards: Vec<ShardRetrieval> = Vec::new();
        let mut descs = descs;
        let ghost dv = descs@;
        proof {
            assert(descs@ =~= dv.subrange(0, dv.len() as int));
        }
        while descs.len() > 0
            invariant
                shards@.len() <= dv.len(),
                descs@ == dv.subrange(shards@.len() as int, dv.len() as int),
                forall|t: int|
                    0 <= t < shards@.len() ==> {
                        &&& (#[trigger] shards@[t]).desc == dv[t]
                        &&& shards@[t].files is None
                        &&& !shards@[t].failed
                    },
            decreases descs@.len(),
        {
            let d: ShardDescriptor = descs.remove(0);
            shards.push(ShardRetrieval { desc: d, files: None, failed: false });
            proof {
                assert(descs@ =~= dv.subrange(shards@.len() as int, dv.len() as int));
            }
        }
        RetrievalOrchestrator { shards }
    }

    /// Plans the directory listings for this run: one request per shard
    /// still missing and not failed.  No request is planned for an already
    /// materialized shard.
    pub fn listing_requests(&self) -> (r: Vec<(usize, String)>)
        ensures
            r@.map_values(|p: (usize, String)| (p.0 as int, p.1@)) == listing_plan(
                self.shards@,
                self.shards@.len() as int,
            ),
    {
        let mut out: Vec<(usize, String)> = Vec::new();
        let mut i: usize = 0;
        proof {
            assert(out@.map_values(|p: (usize, String)| (p.0 as int, p.1@)) =~= listing_plan(
                self.shards@,
                0,
            ));
        }
        while i < self.shards.len()
            invariant
                i <= self.shards@.len(),
                out@.map_values(|p: (usize, String)| (p.0 as int, p.1@)) == listing_plan(
                    self.shards@,
                    i as int,
                ),
            decreases self.shards@.len() - i,
        {
            let ghost pre = out@;
            let entry = &self.shards[i];
            let is_missing: bool = match entry.desc.state {
                ShardState::Missing => true,
                ShardState::Materializing => false,
                ShardState::Materialized => false,
            };
            if is_missing && !entry.failed {
                out.push((i, entry.desc.content_id.clone()));
            }
            proof {
                assert(out@.map_values(|p: (usize, String)| (p.0 as int, p.1@)) =~= listing_plan(
                    self.shards@,
                    i + 1,
                ));
            }
            i = i + 1;
        }
        out
    }

    /// Records a shard's directory listing: the shard moves to
    /// materializing with one pending file per listed (name, content
    /// identifier) link.  Every other shard is untouched.
    pub fn record_listing(&mut self, slot: usize, listing: &Vec<(String, String)>)
        requires
            old(self).wf(),
            slot < old(self).shards@.len(),
            old(self).shards@[slot as int].desc.state == ShardState::Missing,
            !old(self).shards@[slot as int].failed,
        ensures
            final(self).wf(),
            final(self).shards@.len() == old(self).shards@.len(),
            forall|t: int|
                0 <= t < old(self).shards@.len() && t != slot ==> final(self).shards@[t] == old(
                    self,
                ).shards@[t],
            ({
                let e = final(self).shards@[slot as int];
                &&& e.desc.key == old(self).shards@[slot as int].desc.key
                &&& e.desc.content_id == old(self).shards@[slot as int].desc.content_id
                &&& e.desc.state == ShardState::Materializing
                &&& !e.failed
                &&& e.files matches Some(fs) && fs@.len() == listing@.len() && forall|j: int|
                    0 <= j < listing@.len() ==> (#[trigger] fs@[j]).name == listing@[j].0
                        && fs@[j].content_id == listing@[j].1 && fs@[j].state
                        == FileState::PendingFetch
            }),
    {
        let mut jobs: Vec<FileJob> = Vec::new();
        let mut j: usize = 0;
        while j < listing.len()
            invariant
                j <= listing@.len(),
                jobs@.len() == j,
                forall|t: int|
                    0 <= t < j ==> (#[trigger] jobs@[t]).name == listing@[t].0
                        && jobs@[t].content_id == listing@[t].1 && jobs@[t].state
                        == FileState::PendingFetch,
            decreases listing@.len() - j,
        {
            jobs.push(
                FileJob {
                    name: listing[j].0.clone(),
                    content_id: listing[j].1.clone(),
                    state: FileState::PendingFetch,
                },
            );
            j = j + 1;
        }
        let mut entry: ShardRetrieval = self.shards.remove(slot);
        entry.desc.state = ShardState::Materializing;
        entry.files = Some(jobs);
        self.shards.insert(slot, entry);
        proof {
            assert(final(self).shards@ =~= old(self).shards@.update(
                slot as int,
                final(self).shards@[slot as int],
            ));
        }
    }

    /// Records that a shard's directory listing failed: the shard is marked
    /// failed and stays missing.  Every other shard is untouched.
    pub fn record_listing_failure(&mut self, slot: usize)
        requires
            old(self).wf(),
            slot < old(self).shards@.len(),
            old(self).shards@[slot as int].desc.state == ShardState::Missing,
        ensures
            final(self).wf(),
            final(self).shards@.len() == old(self).shards@.len(),
            forall|t: int|
                0 <= t < old(self).shards@.len() && t != slot ==> final(self).shards@[t] == old(
                    self,
                ).shards@[t],
            ({
                let e = final(self).shards@[slot as int];
                &&& e.desc == old(self).shards@[slot as int].desc
                &&& e.desc.state == ShardState::Missing
                &&& e.files == old(self).shards@[slot as int].files
                &&& e.failed
            }),
    {
        let mut entry: ShardRetrieval = self.shards.remove(slot);
        entry.failed = true;
        self.shards.insert(slot, entry);
        proof {
            assert(final(self).shards@ =~= old(self).shards@.update(
                slot as int,
                final(self).shards@[slot as int],
            ));
        }
    }

    /// Plans the downloads still pending for one materializing shard.
    pub fn pending_downloads(&self, slot: usize) -> (r: Vec<(usize, String)>)
        requires
            self.wf(),
            slot < self.shards@.len(),
            self.shards@[slot as int].desc.state == ShardState::Materializing,
        ensures
            self.shards@[slot as int].files matches Some(fs) && r@.map_values(
                |p: (usize, String)| (p.0 as int, p.1@),
            ) == download_plan(fs@, fs@.len() as int),
    {
        assert(entry_wf(self.shards@[slot as int]));
        let files: &Vec<FileJob> = match &self.shards[slot].files {
            Some(fs) => fs,
            None => unreached(),
        };
        let mut out: Vec<(usize, String)> = Vec::new();
        let mut j: usize = 0;
        proof {
            assert(out@.map_values(|p: (usize, String)| (p.0 as int, p.1@)) =~= download_plan(
                files@,
                0,
            ));
        }
        while j < files.len()
            invariant
                j <= files@.len(),
                out@.map_values(|p: (usize, String)| (p.0 as int, p.1@)) == download_plan(
                    files@,
                    j as int,
                ),
            decreases files@.len() - j,
        {
            let is_pending: bool = match files[j].state {
                FileState::PendingFetch => true,
                FileState::Done => false,
            };
            if is_pending {
                out.push((j, files[j].content_id.clone()));
            }
            proof {
                assert(out@.map_values(|p: (usize, String)| (p.0 as int, p.1@)) =~= download_plan(
                    files@,
                    j + 1,
                ));
            }
            j = j + 1;
        }
        out
    }

    /// Consumes the outcome of one file download for a materializing
    /// shard.  `body` is the downloaded archive, or `None` when the
    /// download failed.  On success the archive's first entry is unpacked
    /// and returned for writing to the shard's folder, and the file is
    /// done; a failed download or an unreadable archive marks the shard
    /// failed.  The shard is never marked materialized here, and every
    /// other shard is untouched.
    pub fn process_download(&mut self, slot: usize, file_idx: usize, body: Option<Vec<u8>>) -> (w:
        Option<Vec<u8>>)
        requires
            old(self).wf(),
            slot < old(self).shards@.len(),
            old(self).shards@[slot as int].desc.state == ShardState::Materializing,
            !old(self).shards@[slot as int].failed,
            old(self).shards@[slot as int].files matches Some(fs) && file_idx < fs@.len()
                && fs@[file_idx as int].state == FileState::PendingFetch,
        ensures
            final(self).wf(),
            final(self).shards@.len() == old(self).shards@.len(),
            forall|t: int|
                0 <= t < old(self).shards@.len() && t != slot ==> final(self).shards@[t] == old(
                    self,
                ).shards@[t],
            final(self).shards@[slot as int].desc == old(self).shards@[slot as int].desc,
            ({
                let e = final(self).shards@[slot as int];
                let old_files = old(self).shards@[slot as int].files.unwrap();
                match body {
                    None => e.failed && w is None && e.files == old(
                        self,
                    ).shards@[slot as int].files,
                    Some(bytes) => match tar_first_entry_of(bytes@) {
                        None => e.failed && w is None && e.files == old(
                            self,
                        ).shards@[slot as int].files,
                        Some(content) => {
                            &&& w matches Some(out) && out@ == content
                            &&& !e.failed
                            &&& e.files matches Some(fs2) && fs2@.len() == old_files@.len()
                                && fs2@[file_idx as int].name == old_files@[file_idx as int].name
                                && fs2@[file_idx as int].content_id
                                == old_files@[file_idx as int].content_id
                                && fs2@[file_idx as int].state == FileState::Done && forall|t: int|
                                0 <= t < old_files@.len() && t != file_idx
                                    ==> fs2@[t] == old_files@[t]
                        },
                    },
                }
            }),
    {
        let mut entry: ShardRetrieval = self.shards.remove(slot);
        let mut result: Option<Vec<u8>> = None;
        match body {
            None => {
                entry.failed = true;
            },
            Some(bytes) => {
                match untar_first_entry(&bytes) {
                    None => {
                        entry.failed = true;
                    },
                    Some(content) => {
                        let files: Vec<FileJob> = match entry.files {
                            Some(fs) => fs,
                            None => unreached(),
                        };
                        let mut files = files;
                        let name: String = files[file_idx].name.clone();
                        let cid: String = files[file_idx].content_id.clone();
                        files.set(
                            file_idx,
                            FileJob { name, content_id: cid, state: FileState::Done },
                        );
                        entry.files = Some(files);
                        result = Some(content);
                    },
                }
            },
        }
        self.shards.insert(slot, entry);
        proof {
            assert(final(self).shards@ =~= old(self).shards@.update(
                slot as int,
                final(self).shards@[slot as int],
            ));
        }
        result
    }

    /// Marks a shard materialized exactly when it is materializing, has not
    /// failed, and every one of its files is unpacked; otherwise changes
    /// nothing.  Every other shard is untouched.
    #[verifier::loop_isolation(false)]
    pub fn finalize_shard(&mut self, slot: usize) -> (done: bool)
        requires
            old(self).wf(),
            slot < old(self).shards@.len(),
        ensures
            final(self).wf(),
            final(self).shards@.len() == old(self).shards@.len(),
            forall|t: int|
                0 <= t < old(self).shards@.len() && t != slot ==> final(self).shards@[t] == old(
                    self,
                ).shards@[t],
            done == ({
                let e = old(self).shards@[slot as int];
                e.desc.state == ShardState::Materializing && !e.failed && (e.files matches Some(fs)
                    && all_files_done(fs@))
            }),
            done ==> {
                let e = final(self).shards@[slot as int];
                &&& e.desc.key == old(self).shards@[slot as int].desc.key
                &&& e.desc.content_id == old(self).shards@[slot as int].desc.content_id
                &&& e.desc.state == ShardState::Materialized
                &&& e.files == old(self).shards@[slot as int].files
                &&& !e.failed
            },
            !done ==> final(self).shards@[slot as int] == old(self).shards@[slot as int],
    {
        let is_materializing: bool = match self.shards[slot].desc.state {
            ShardState::Materializing => true,
            ShardState::Missing => false,
            ShardState::Materialized => false,
        };
        if !is_materializing || self.shards[slot].failed {
            return false;
        }
        assert(entry_wf(self.shards@[slot as int]));
        let files: &Vec<FileJob> = match &self.shards[slot].files {
            Some(fs) => fs,
            None => unreached(),
        };
        let mut j: usize = 0;
        while j < files.len()
            invariant
                j <= files@.len(),
                forall|t: int| 0 <= t < j ==> (#[trigger] files@[t]).state == FileState::Done,
            decreases files@.len() - j,
        {
            let is_done: bool = match files[j].state {
                FileState::Done => true,
                FileState::PendingFetch => false,
            };
            if !is_done {
                assert(files@[j as int].state != FileState::Done);
                return false;
            }
            j = j + 1;
        }
        assert(all_files_done(files@));
        let mut entry: ShardRetrieval = self.shards.remove(slot);
        entry.desc.state = ShardState::Materialized;
        self.shards.insert(slot, entry);
        proof {
            assert(final(self).shards@ =~= old(self).shards@.update(
                slot as int,
                final(self).shards@[slot as int],
            ));
        }
        true
    }

    /// The slots of the materialized shards, in stored (deterministic)
    /// order: ascending on-chain index, pending proposal last, as the
    /// resolver built them.
    pub fn materialized_slots(&self) -> (r: Vec<usize>)
        ensures
            r@.map_values(|s: usize| s as int) == materialized_plan(
                self.shards@,
                self.shards@.len() as int,
            ),
    {
        let mut out: Vec<usize> = Vec::new();
        let mut i: usize = 0;
        proof {
            assert(out@.map_values(|s: usize| s as int) =~= materialized_plan(self.shards@, 0));
        }
        while i < self.shards.len()
            invariant
                i <= self.shards@.len(),
                out@.map_values(|s: usize| s as int) == materialized_plan(self.shards@, i as int),
            decreases self.shards@.len() - i,
        {
            let is_done: bool = match self.shards[i].desc.state {
                ShardState::Materialized => true,
                ShardState::Missing => false,
                ShardState::Materializing => false,
            };
            if is_done {
                out.push(i);
            }
            proof {
                assert(out@.map_values(|s: usize| s as int) =~= materialized_plan(
                    self.shards@,
                    i + 1,
                ));
            }
            i = i + 1;
        }
        out
    }
}

/// The requests of all the batches, in batch order.
pub open spec fn concat_batches<T>(bs: Seq<Vec<T>>) -> Seq<T>
    decreases bs.len(),
{
    if bs.len() == 0 {
        Seq::empty()
    } else {
        concat_batches(bs.drop_last()) + bs.last()@
    }
}

/// Splits planned requests into batches of at most `limit`: the fan-out of
/// concurrent requests is bounded by the configured width, and joining the
/// batches in order gives back exactly the planned requests.
pub fn bounded_batches<T>(requests: Vec<T>, limit: usize) -> (r: Vec<Vec<T>>)
    requires
        limit >= 1,
    ensures
        concat_batches(r@) == requests@,
        forall|i: int| 0 <= i < r@.len() ==> 1 <= (#[trigger] r@[i])@.len() <= limit,
{
    let ghost rv = requests@;
    let mut requests = requests;
    let mut batches: Vec<Vec<T>> = Vec::new();
    let mut cur: Vec<T> = Vec::new();
    proof {
        assert(requests@ =~= rv.subrange(0, rv.len() as int));
        assert(concat_batches(batches@) + cur@ =~= rv.subrange(0, 0));
    }
    while requests.len() > 0
        invariant
            limit >= 1,
            requests@.len() <= rv.len(),
            requests@ == rv.subrange((rv.len() - requests@.len()) as int, rv.len() as int),
            concat_batches(batches@) + cur@ == rv.subrange(0, (rv.len() - requests@.len()) as int),
            cur@.len() < limit,
            forall|i: int| 0 <= i < batches@.len() ==> 1 <= (#[trigger] batches@[i])@.len() <= limit,
        decreases requests@.len(),
    {
        let ghost done = rv.len() - requests@.len();
        let ghost pre_batches = batches@;
        let ghost pre_cur = cur@;
        let x: T = requests.remove(0);
        proof {
            assert(requests@ =~= rv.subrange(done + 1, rv.len() as int));
        }
        cur.push(x);
        proof {
            assert(x == rv[done]);
            assert(cur@ =~= pre_cur.push(x));
            assert(concat_batches(batches@) + pre_cur == rv.subrange(0, done));
            assert(rv.subrange(0, done + 1) =~= rv.subrange(0, done).push(rv[done]));
            assert(concat_batches(batches@) + cur@ =~= (concat_batches(batches@)
                + pre_cur).push(x));
            assert(concat_batches(batches@) + cur@ == rv.subrange(0, done + 1));
        }
        if cur.len() == limit {
            let full: Vec<T> = cur;
            cur = Vec::new();
            batches.push(full);
            proof {
                assert(batches@.drop_last() =~= pre_batches);
                assert(concat_batches(batches@) == concat_batches(batches@.drop_last())
                    + batches@.last()@);
                assert(concat_batches(batches@) + cur@ =~= rv.subrange(0, done + 1));
            }
        }
    }
    proof {
        assert(rv.subrange(0, rv.len() as int) =~= rv);
    }
    if cur.len() > 0 {
        let ghost pre_batches = batches@;
        batches.push(cur);
        proof {
            assert(batches@.drop_last() =~= pre_batches);
            assert(concat_batches(batches@) == concat_batches(batches@.drop_last())
                + batches@.last()@);
            assert(concat_batches(batches@) =~= rv);
        }
    } else {
        proof {
            assert(concat_batches(batches@) + cur@ =~= concat_batches(batches@));
            assert(concat_batches(batches@) =~= rv);
        }
    }
    batches
}

/// The slots among the first `k` whose shards are materialized, ascending.
pub open spec fn materialized_plan(shards: Seq<ShardRetrieval>, k: int) -> Seq<int>
    decreases k,
{
    if k <= 0 {
        Seq::empty()
    } else {
        let init = materialized_plan(shards, k - 1);
        if shards[k - 1].desc.state == ShardState::Materialized {
            init.push(k - 1)
        } else {
            init
        }
    }
}

} // verus!
