use shard_pipeline::attribution::ShardKey;
use shard_pipeline::controller::{
    PipelineController, PipelineFailure, PipelineState, StageTag,
};
use shard_pipeline::decoder::DecodeError;
use shard_pipeline::orchestrator::{bounded_batches, FileState, RetrievalOrchestrator};
use shard_pipeline::retry::RetryPolicy;
use shard_pipeline::shards::{
    plan_shard_queries, resolve_shards, shard_folder_name, shard_is_valid, ShardDescriptor,
    ShardState,
};

fn addr(b: u8) -> Vec<u8> {
    let mut a = vec![0u8; 20];
    a[19] = b;
    a
}

#[test]
fn only_absent_indices_are_queried() {
    let present = vec![true, false, true, false];
    assert_eq!(plan_shard_queries(&present), vec![1, 3]);
    assert_eq!(plan_shard_queries(&vec![]), Vec::<u64>::new());
}

#[test]
fn zero_address_marks_an_invalid_shard() {
    assert!(shard_is_valid(&addr(1)));
    assert!(!shard_is_valid(&vec![0u8; 20]));
}

#[test]
fn resolver_builds_ordered_shard_set_with_pending_last() {
    let present = vec![true, false, false];
    let fetched = vec![(addr(1), "cid1".to_string()), (vec![0u8; 20], "dead".to_string())];
    let descs = resolve_shards(&present, &fetched, "pcid".to_string());
    // Index 0 is present (materialized), index 1 fetched and valid
    // (missing), index 2 fetched with the zero address (dropped), and the
    // pending proposal comes last, always to be re-fetched.
    assert_eq!(descs.len(), 3);
    assert_eq!(descs[0].key, ShardKey::OnChain(0));
    assert_eq!(descs[0].state, ShardState::Materialized);
    assert_eq!(descs[1].key, ShardKey::OnChain(1));
    assert_eq!(descs[1].content_id, "cid1");
    assert_eq!(descs[1].state, ShardState::Missing);
    assert_eq!(descs[2].key, ShardKey::Pending);
    assert_eq!(descs[2].content_id, "pcid");
    assert_eq!(descs[2].state, ShardState::Missing);
}

#[test]
fn shard_folders_are_namespaced_by_key() {
    assert_eq!(shard_folder_name(ShardKey::OnChain(0)), "shard_0");
    assert_eq!(shard_folder_name(ShardKey::OnChain(17)), "shard_17");
    assert_eq!(shard_folder_name(ShardKey::OnChain(90210)), "shard_90210");
    assert_eq!(shard_folder_name(ShardKey::Pending), "new_shard");
}

fn tar_with(name: &str, content: &[u8]) -> Vec<u8> {
    let mut builder = tar::Builder::new(Vec::new());
    let mut header = tar::Header::new_gnu();
    header.set_size(content.len() as u64);
    header.set_cksum();
    builder.append_data(&mut header, name, content).unwrap();
    builder.into_inner().unwrap()
}

fn three_shard_set() -> Vec<ShardDescriptor> {
    vec![
        ShardDescriptor {
            key: ShardKey::OnChain(0),
            content_id: String::new(),
            state: ShardState::Materialized,
        },
        ShardDescriptor {
            key: ShardKey::OnChain(1),
            content_id: "cid_b".to_string(),
            state: ShardState::Missing,
        },
        ShardDescriptor {
            key: ShardKey::Pending,
            content_id: "cid_p".to_string(),
            state: ShardState::Missing,
        },
    ]
}

#[test]
fn no_requests_for_materialized_shards() {
    // Shard set {A: materialized, B: missing, proposal P}: listings are
    // planned for B and P only, never for A.
    let orch = RetrievalOrchestrator::new(three_shard_set());
    let reqs = orch.listing_requests();
    let slots: Vec<usize> = reqs.iter().map(|p| p.0).collect();
    assert_eq!(slots, vec![1, 2]);
    assert_eq!(reqs[0].1, "cid_b");
    assert_eq!(reqs[1].1, "cid_p");
}

#[test]
fn shard_materializes_only_after_every_file_unpacks() {
    let mut orch = RetrievalOrchestrator::new(three_shard_set());
    let listing = vec![
        ("f0".to_string(), "h0".to_string()),
        ("f1".to_string(), "h1".to_string()),
    ];
    orch.record_listing(1, &listing);
    assert_eq!(orch.shards[1].desc.state, ShardState::Materializing);
    let dls = orch.pending_downloads(1);
    assert_eq!(dls.len(), 2);

    let w0 = orch.process_download(1, 0, Some(tar_with("f0", b"alpha")));
    assert_eq!(w0, Some(b"alpha".to_vec()));
    // One file still pending: the shard must not finalize yet.
    assert!(!orch.finalize_shard(1));
    assert_eq!(orch.shards[1].desc.state, ShardState::Materializing);

    let w1 = orch.process_download(1, 1, Some(tar_with("f1", b"beta")));
    assert_eq!(w1, Some(b"beta".to_vec()));
    assert!(orch.finalize_shard(1));
    assert_eq!(orch.shards[1].desc.state, ShardState::Materialized);
}

#[test]
fn unpack_reads_the_first_archive_entry() {
    let mut orch = RetrievalOrchestrator::new(three_shard_set());
    orch.record_listing(1, &vec![("f".to_string(), "h".to_string())]);
    let archive = tar_with("inner.csv", b"1,2,3,4,9\n");
    let w = orch.process_download(1, 0, Some(archive.clone()));
    // The write is the entry's contents, not the archive bytes.
    assert_eq!(w, Some(b"1,2,3,4,9\n".to_vec()));
    assert!(w.unwrap().len() < archive.len());
}

#[test]
fn unreadable_archive_fails_the_shard() {
    let mut orch = RetrievalOrchestrator::new(three_shard_set());
    orch.record_listing(1, &vec![("f".to_string(), "h".to_string())]);
    let w = orch.process_download(1, 0, Some(b"not a tar archive".to_vec()));
    assert_eq!(w, None);
    assert!(orch.shards[1].failed);
    assert!(!orch.finalize_shard(1));
}

#[test]
fn failed_download_leaves_other_shards_unaffected() {
    // One file download for shard B fails: B stays unmaterialized while the
    // proposal shard P still completes.
    let mut orch = RetrievalOrchestrator::new(three_shard_set());
    orch.record_listing(1, &vec![("fb".to_string(), "hb".to_string())]);
    orch.record_listing(2, &vec![("fp".to_string(), "hp".to_string())]);

    let wb = orch.process_download(1, 0, None);
    assert_eq!(wb, None);
    assert!(orch.shards[1].failed);
    assert!(!orch.finalize_shard(1));
    assert_eq!(orch.shards[1].desc.state, ShardState::Materializing);

    let wp = orch.process_download(2, 0, Some(tar_with("fp", b"pending data")));
    assert_eq!(wp, Some(b"pending data".to_vec()));
    assert!(orch.finalize_shard(2));
    assert_eq!(orch.shards[2].desc.state, ShardState::Materialized);
}

#[test]
fn listing_failure_keeps_shard_missing() {
    let mut orch = RetrievalOrchestrator::new(three_shard_set());
    orch.record_listing_failure(1);
    assert!(orch.shards[1].failed);
    assert_eq!(orch.shards[1].desc.state, ShardState::Missing);
    // A failed shard is not listed again within this run.
    let slots: Vec<usize> = orch.listing_requests().iter().map(|p| p.0).collect();
    assert_eq!(slots, vec![2]);
}

#[test]
fn materialized_slots_keep_stored_order() {
    let mut orch = RetrievalOrchestrator::new(three_shard_set());
    assert_eq!(orch.materialized_slots(), vec![0]);
    orch.record_listing(2, &vec![("fp".to_string(), "hp".to_string())]);
    orch.process_download(2, 0, Some(tar_with("fp", b"x")));
    assert!(orch.finalize_shard(2));
    assert_eq!(orch.materialized_slots(), vec![0, 2]);
}

#[test]
fn done_files_leave_the_download_plan() {
    let mut orch = RetrievalOrchestrator::new(three_shard_set());
    let listing = vec![
        ("f0".to_string(), "h0".to_string()),
        ("f1".to_string(), "h1".to_string()),
    ];
    orch.record_listing(1, &listing);
    orch.process_download(1, 0, Some(tar_with("f0", b"a")));
    let dls = orch.pending_downloads(1);
    assert_eq!(dls.len(), 1);
    assert_eq!(dls[0].0, 1);
    assert_eq!(dls[0].1, "h1");
    match orch.shards[1].files.as_ref().unwrap()[0].state {
        FileState::Done => {},
        FileState::PendingFetch => panic!("first file should be done"),
    }
}

#[test]
fn fan_out_is_bounded_by_the_configured_limit() {
    let reqs: Vec<u32> = (0..7).collect();
    let batches = bounded_batches(reqs.clone(), 3);
    assert_eq!(batches.len(), 3);
    for b in &batches {
        assert!(!b.is_empty() && b.len() <= 3);
    }
    let joined: Vec<u32> = batches.into_iter().flatten().collect();
    assert_eq!(joined, reqs);

    let empty = bounded_batches(Vec::<u32>::new(), 4);
    assert!(empty.is_empty());
}

#[test]
fn backoff_doubles_up_to_the_cap() {
    let policy = RetryPolicy { base_delay_ms: 100, cap_delay_ms: 1500, max_attempts: 5 };
    assert_eq!(policy.backoff_delay_ms(0), 100);
    assert_eq!(policy.backoff_delay_ms(1), 200);
    assert_eq!(policy.backoff_delay_ms(2), 400);
    assert_eq!(policy.backoff_delay_ms(3), 800);
    assert_eq!(policy.backoff_delay_ms(4), 1500);
    assert_eq!(policy.backoff_delay_ms(63), 1500);
    assert!(policy.should_retry(4, true));
    assert!(!policy.should_retry(5, true));
    assert!(!policy.should_retry(0, false));
}

#[test]
fn controller_walks_a_full_run_to_done() {
    let mut ctl = PipelineController::new();
    ctl.on_event(true);
    ctl.on_decoded(Ok(2));
    ctl.on_proposal_resolved(true);
    ctl.on_shards_resolved(true);
    ctl.on_retrieved(true);
    ctl.on_assembled(Ok(()));
    ctl.on_valuated(true);
    assert_eq!(ctl.state, PipelineState::Done);
}

#[test]
fn decode_failure_fails_the_run() {
    let mut ctl = PipelineController::new();
    ctl.on_event(true);
    ctl.on_decoded(Err(DecodeError::MalformedPayload));
    assert_eq!(
        ctl.state,
        PipelineState::Failed {
            stage: StageTag::DecodingEvent,
            cause: PipelineFailure::Decode(DecodeError::MalformedPayload),
        }
    );
}

#[test]
fn failed_proposal_materialization_fails_the_run() {
    let mut ctl = PipelineController::new();
    ctl.on_event(true);
    ctl.on_decoded(Ok(2));
    ctl.on_proposal_resolved(true);
    ctl.on_shards_resolved(true);
    ctl.on_retrieved(false);
    assert_eq!(
        ctl.state,
        PipelineState::Failed {
            stage: StageTag::Retrieving,
            cause: PipelineFailure::PartialShardFailure { shard: ShardKey::Pending },
        }
    );
}
