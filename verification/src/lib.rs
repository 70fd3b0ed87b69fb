//! Distributed search cluster: the verified core.
//!
//! The crate holds the logic of a horizontally scalable cluster node:
//! gossip membership, hash partitioning and replica placement, the local
//! partitioned key/value store, the lease-based task queue, tokenization and
//! ranking for full-text search, and the small request-routing rules around
//! them. Networking, timers and serialization live outside this crate.

pub mod keyed;
pub mod membership;
pub mod sys;
pub mod text;
pub mod storage;
pub mod executor;
pub mod search;
pub mod ingestion;
pub mod ui;
pub mod cli;
