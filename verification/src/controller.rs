//! The pipeline controller: the state machine that sequences one
//! qualifying event from decoding through resolution, retrieval, assembly
//! and valuation.
//!
//! The caller performs the outside work of each stage (ledger queries,
//! storage-network requests, the valuation run) and reports each outcome;
//! the controller decides the next stage.

use vstd::prelude::*;

use crate::attribution::ShardKey;
use crate::data_loader::LoadError;
use crate::decoder::DecodeError;

verus! {

/// The decoded proposal `state` value that marks a shard-add proposal;
/// every other value ends the run as a no-op.
pub const SHARD_ADD_STATE: u64 = 2;

/// The stage a failure happened at.
#[derive(Clone, Copy, PartialEq, Eq, Structural, Debug)]
pub enum StageTag {
    DecodingEvent,
    ResolvingProposal,
    ResolvingShards,
    Retrieving,
    Assembling,
    Valuating,
}

/// Why a run failed.
#[derive(Debug, PartialEq, Eq)]
pub enum PipelineFailure {
    /// The event payload could not be decoded.
    Decode(DecodeError),
    /// The assembled inputs could not be loaded.
    Load(LoadError),
    /// A ledger or storage-network request failed.
    Network,
    /// A shard's materialization failed part-way.
    PartialShardFailure { shard: ShardKey },
    /// The valuation engine failed.
    Valuation,
}

/// State of one pipeline run.
#[derive(Debug, PartialEq, Eq)]
pub enum PipelineState {
    Idle,
    DecodingEvent,
    ResolvingProposal,
    ResolvingShards,
    Retrieving,
    Assembling,
    Valuating,
    Done,
    Failed { stage: StageTag, cause: PipelineFailure },
}

/// The state machine of one pipeline run.
pub struct PipelineController {
    pub state: PipelineState,
}

impl PipelineController {
    /// A fresh controller, idle until an event arrives.
    pub fn new() -> (r: PipelineController)
        ensures
            r.state == PipelineState::Idle,
    {
        PipelineController { state: PipelineState::Idle }
    }

    /// Consumes an incoming event's topic: an event whose topic matches the
    /// proposal-added topic starts decoding; any other topic is ignored and
    /// the controller stays idle.
    pub fn on_event(&mut self, topic_matches: bool)
        requires
            old(self).state == PipelineState::Idle,
        ensures
            final(self).state == if topic_matches {
                PipelineState::DecodingEvent
            } else {
                PipelineState::Idle
            },
    {
        if topic_matches {
            self.state = PipelineState::DecodingEvent;
        }
    }

    /// Consumes the decoded proposal `state` field: the shard-add value
    /// proceeds to proposal resolution, any other value ends the run as a
    /// no-op, and a decoding error fails the run.
    pub fn on_decoded(&mut self, decoded_state: Result<u64, DecodeError>)
        requires
            old(self).state == PipelineState::DecodingEvent,
        ensures
            final(self).state == match decoded_state {
                Ok(v) => if v == SHARD_ADD_STATE {
                    PipelineState::ResolvingProposal
                } else {
                    PipelineState::Done
                },
                Err(e) => PipelineState::Failed {
                    stage: StageTag::DecodingEvent,
                    cause: PipelineFailure::Decode(e),
                },
            },
    {
        match decoded_state {
            Ok(v) => {
                if v == SHARD_ADD_STATE {
                    self.state = PipelineState::ResolvingProposal;
                } else {
                    self.state = PipelineState::Done;
                }
            },
            Err(e) => {
                self.state = PipelineState::Failed {
                    stage: StageTag::DecodingEvent,
                    cause: PipelineFailure::Decode(e),
                };
            },
        }
    }

    /// Consumes the outcome of the proposal query: success proceeds to
    /// shard resolution, a failed query fails the run.
    pub fn on_proposal_resolved(&mut self, ok: bool)
        requires
            old(self).state == PipelineState::ResolvingProposal,
        ensures
            final(self).state == if ok {
                PipelineState::ResolvingShards
            } else {
                PipelineState::Failed {
                    stage: StageTag::ResolvingProposal,
                    cause: PipelineFailure::Network,
                }
            },
    {
        if ok {
            self.state = PipelineState::ResolvingShards;
        } else {
            self.state = PipelineState::Failed {
                stage: StageTag::ResolvingProposal,
                cause: PipelineFailure::Network,
            };
        }
    }

    /// Consumes the outcome of shard resolution: success proceeds to
    /// retrieval, a failed query fails the run.
    pub fn on_shards_resolved(&mut self, ok: bool)
        requires
            old(self).state == PipelineState::ResolvingShards,
        ensures
            final(self).state == if ok {
                PipelineState::Retrieving
            } else {
                PipelineState::Failed {
                    stage: StageTag::ResolvingShards,
                    cause: PipelineFailure::Network,
                }
            },
    {
        if ok {
            self.state = PipelineState::Retrieving;
        } else {
            self.state = PipelineState::Failed {
                stage: StageTag::ResolvingShards,
                cause: PipelineFailure::Network,
            };
        }
    }

    /// Consumes the outcome of retrieval.  The run needs the pending
    /// proposal's shard: if its materialization failed, the run fails; an
    /// on-chain shard that failed stays unmaterialized and is retried on a
    /// later run without failing this one.
    pub fn on_retrieved(&mut self, proposal_materialized: bool)
        requires
            old(self).state == PipelineState::Retrieving,
        ensures
            final(self).state == if proposal_materialized {
                PipelineState::Assembling
            } else {
                PipelineState::Failed {
                    stage: StageTag::Retrieving,
                    cause: PipelineFailure::PartialShardFailure { shard: ShardKey::Pending },
                }
            },
    {
        if proposal_materialized {
            self.state = PipelineState::Assembling;
        } else {
            self.state = PipelineState::Failed {
                stage: StageTag::Retrieving,
                cause: PipelineFailure::PartialShardFailure { shard: ShardKey::Pending },
            };
        }
    }

    /// Consumes the outcome of dataset assembly: a loaded dataset proceeds
    /// to valuation, a load error fails the run with that error.
    pub fn on_assembled(&mut self, outcome: Result<(), LoadError>)
        requires
            old(self).state == PipelineState::Assembling,
        ensures
            final(self).state == match outcome {
                Ok(()) => PipelineState::Valuating,
                Err(e) => PipelineState::Failed {
                    stage: StageTag::Assembling,
                    cause: PipelineFailure::Load(e),
                },
            },
    {
        match outcome {
            Ok(()) => {
                self.state = PipelineState::Valuating;
            },
            Err(e) => {
                self.state = PipelineState::Failed {
                    stage: StageTag::Assembling,
                    cause: PipelineFailure::Load(e),
                };
            },
        }
    }

    /// Consumes the outcome of the valuation run: success ends the run,
    /// an engine failure fails it with no partial credit.
    pub fn on_valuated(&mut self, ok: bool)
        requires
            old(self).state == PipelineState::Valuating,
        ensures
            final(self).state == if ok {
                PipelineState::Done
            } else {
                PipelineState::Failed { stage: StageTag::Valuating, cause: PipelineFailure::Valuation }
            },
    {
        if ok {
            self.state = PipelineState::Done;
        } else {
            self.state = PipelineState::Failed {
                stage: StageTag::Valuating,
                cause: PipelineFailure::Valuation,
            };
        }
    }
}

} // verus!
