//! Messages exchanged between nodes for storage operations, and the paths
//! of the storage endpoints.

use vstd::prelude::*;

use crate::sys::uuid_v4_string;

verus! {

/// Endpoint for copying a write from a primary to a backup.
pub const ENDPOINT_REPLICATE: &'static str = "/replicate";

/// Endpoint for forwarding a write from a non-owner to the primary.
pub const ENDPOINT_FORWARD_PUT: &'static str = "/forward_put";

/// Public endpoint for client writes.
pub const ENDPOINT_PUT: &'static str = "/put";

/// Public endpoint for client reads.
pub const ENDPOINT_GET: &'static str = "/get";

/// Internal endpoint for reading a key on the node that holds it.
pub const ENDPOINT_GET_INTERNAL: &'static str = "/internal/get";

/// Internal endpoint for transferring a whole partition.
pub const ENDPOINT_PARTITION_DUMP: &'static str = "/internal/partition";

/// A fresh operation id for a write sent to another node: a random UUID in
/// hyphenated form (36 characters).
pub fn new_op_id() -> (id: String)
    ensures
        id@.len() == 36,
{
    uuid_v4_string()
}

/// A write copied from a primary to a backup.
#[derive(Debug)]
pub struct ReplicateRequest {
    /// The partition the key belongs to.
    pub partition: u32,
    /// Operation id, for deduplication.
    pub op_id: String,
    /// The key.
    pub key: String,
    /// The value, as JSON text.
    pub value_json: String,
}

/// A write forwarded by a node that does not own the key to the primary.
#[derive(Debug)]
pub struct ForwardPutRequest {
    pub partition: u32,
    pub op_id: String,
    pub key: String,
    pub value_json: String,
}

/// A client write.
#[derive(Debug)]
pub struct PutRequest {
    pub op_id: String,
    pub key: String,
    pub value_json: String,
}

/// The answer to a read: the value as JSON text, or `None` when absent.
#[derive(Debug)]
pub struct GetResponse {
    pub value_json: Option<String>,
}

/// The answer to a write.
#[derive(Debug)]
pub struct PutResponse {
    pub success: bool,
}

/// One key/value pair of a partition transfer.
#[derive(Debug)]
pub struct KeyValueJson {
    pub key: String,
    pub value_json: String,
}

/// A whole partition, for bringing a lagging node up to date.
#[derive(Debug)]
pub struct PartitionDumpResponse {
    pub partition: u32,
    pub entries: Vec<KeyValueJson>,
}

} // verus!
