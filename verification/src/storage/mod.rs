//! Distributed storage.
//!
//! A sharded, replicated key/value store in the "partitioned primary-backup"
//! style: keys hash to one of 256 partitions, each partition has a primary
//! owner that coordinates writes and backup owners that hold replicas, and
//! every node computes the same placement from the same set of live nodes.
//!
//! - `partitioner`: hashing of keys and placement of partitions.
//! - `memory`: the local store of a `DistributedMap` and the routing of reads
//!   and writes to owners.
//! - `protocol`: the messages exchanged between nodes.
//! - `handlers`: what the storage endpoints answer.

pub mod handlers;
pub mod laws;
pub mod memory;
pub mod partitioner;
pub mod protocol;
