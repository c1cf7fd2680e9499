//! Event-triggered shard retrieval and dataset-assembly pipeline.
//!
//! The crate decodes fixed-layout ledger event payloads, resolves which
//! dataset shards still need materialization, drives their retrieval from a
//! content-addressed storage network as a verified state machine, and
//! assembles the retrieved samples into a feature matrix, a label vector and
//! a shard-attribution index.

pub mod assembler;
pub mod attribution;
pub mod controller;
pub mod data_loader;
pub mod decoder;
pub mod numeric;
pub mod orchestrator;
pub mod retry;
pub mod shards;
