//! Cluster membership.
//!
//! A gossip protocol in the style of SWIM: nodes probe each other, answer
//! probes with their view of the cluster, suspect nodes they have not heard
//! from, declare long-silent suspects dead, and refute suspicion of
//! themselves by raising their incarnation number. This module holds the
//! state and the decisions; sending and receiving datagrams happens outside.

pub mod laws;
pub mod service;
pub mod table;
pub mod types;
