//! What the storage endpoints answer.
//!
//! The endpoints receive a key and a value as text; the caller parses them
//! and hands the results here (`None` for text that did not parse). These
//! functions decide the status code and the body, and perform the store
//! where the endpoint stores; network transfers are left to the caller.

use vstd::prelude::*;

use crate::membership::service::MembershipService;
use crate::storage::memory::{put_effect, DistributedMap, MapKey, WriteFollowUp};
use crate::storage::protocol::{GetResponse, PutResponse};

verus! {

/// HTTP 200.
pub const STATUS_OK: u16 = 200;

/// HTTP 201.
pub const STATUS_CREATED: u16 = 201;

/// HTTP 400.
pub const STATUS_BAD_REQUEST: u16 = 400;

/// HTTP 404.
pub const STATUS_NOT_FOUND: u16 = 404;

/// HTTP 500.
pub const STATUS_INTERNAL_SERVER_ERROR: u16 = 500;

/// A client write: a key or value that did not parse is a bad request and
/// changes nothing (`None`); otherwise the write is routed as by `put`, and
/// what remains to be sent is handed back.
pub fn handle_put<K: MapKey, V: Clone>(
    map: &mut DistributedMap<K, V>,
    key: Option<K>,
    value: Option<V>,
    membership: &MembershipService,
) -> (r: Option<WriteFollowUp<V>>)
    requires
        old(map).wf(),
        membership.wf(),
    ensures
        final(map).wf(),
        final(map).placement() == old(map).placement(),
        match (key, value) {
            (Some(k), Some(v)) => r matches Some(f) && put_effect(
                old(map).local_view(),
                final(map).local_view(),
                f,
                old(map).placement(),
                *membership,
                k@,
                v,
            ),
            _ => r is None && final(map).local_view() == old(map).local_view(),
        },
{
    match key {
        None => None,
        Some(k) => match value {
            None => None,
            Some(v) => Some(map.put(k, v, membership)),
        },
    }
}

/// The answer to a client write: `None` for a request that did not parse
/// (bad request); otherwise OK when the write was stored and every copy
/// the write called for was delivered, an internal error when not.
pub fn put_reply(delivered: Option<bool>) -> (r: (u16, PutResponse))
    ensures
        r == (match delivered {
            None => (STATUS_BAD_REQUEST, PutResponse { success: false }),
            Some(true) => (STATUS_OK, PutResponse { success: true }),
            Some(false) => (STATUS_INTERNAL_SERVER_ERROR, PutResponse { success: false }),
        }),
{
    match delivered {
        None => (STATUS_BAD_REQUEST, PutResponse { success: false }),
        Some(true) => (STATUS_OK, PutResponse { success: true }),
        Some(false) => (STATUS_INTERNAL_SERVER_ERROR, PutResponse { success: false }),
    }
}

/// What a distributed read of a key found, as JSON text.
#[derive(Debug)]
pub enum Fetched {
    /// The value, written as JSON.
    Value(String),
    /// No node has a value for the key.
    Absent,
    /// A value was found but could not be written as JSON.
    Unwritable,
}

/// A client read: a key that did not parse is a bad request; otherwise the
/// value found is returned (OK), its absence is not found, and a value that
/// could not be written as JSON is an internal error.
pub fn handle_get<K>(key: Option<K>, fetched: Fetched) -> (r: (u16, GetResponse))
    ensures
        r == (match key {
            None => (STATUS_BAD_REQUEST, GetResponse { value_json: None }),
            Some(_) => match fetched {
                Fetched::Value(j) => (STATUS_OK, GetResponse { value_json: Some(j) }),
                Fetched::Absent => (STATUS_NOT_FOUND, GetResponse { value_json: None }),
                Fetched::Unwritable => (STATUS_INTERNAL_SERVER_ERROR, GetResponse { value_json: None }),
            },
        }),
{
    match key {
        None => (STATUS_BAD_REQUEST, GetResponse { value_json: None }),
        Some(_) => match fetched {
            Fetched::Value(j) => (STATUS_OK, GetResponse { value_json: Some(j) }),
            Fetched::Absent => (STATUS_NOT_FOUND, GetResponse { value_json: None }),
            Fetched::Unwritable => (STATUS_INTERNAL_SERVER_ERROR, GetResponse { value_json: None }),
        },
    }
}

/// A forwarded write: stored here, in the partition the sender named, when
/// key and value parsed; a bad request otherwise.
pub fn handle_forward_put<K: MapKey, V: Clone>(
    map: &mut DistributedMap<K, V>,
    partition: u32,
    key: Option<K>,
    value: Option<V>,
) -> (r: (u16, PutResponse))
    requires
        old(map).wf(),
    ensures
        final(map).wf(),
        final(map).placement() == old(map).placement(),
        r.0 == (if key is Some && value is Some {
            STATUS_OK
        } else {
            STATUS_BAD_REQUEST
        }),
        r.1.success == (key is Some && value is Some),
        match (key, value) {
            (Some(k), Some(v)) => final(map).local_view() == old(map).local_view().insert(
                (partition, k@),
                v,
            ),
            _ => final(map).local_view() == old(map).local_view(),
        },
{
    match key {
        None => (STATUS_BAD_REQUEST, PutResponse { success: false }),
        Some(k) => match value {
            None => (STATUS_BAD_REQUEST, PutResponse { success: false }),
            Some(v) => {
                map.store_local(partition, k, v);
                (STATUS_OK, PutResponse { success: true })
            },
        },
    }
}

/// A replicated write from a primary: stored here, in the partition the
/// primary named, when key and value parsed; a bad request otherwise.
pub fn handle_replicate<K: MapKey, V: Clone>(
    map: &mut DistributedMap<K, V>,
    partition: u32,
    key: Option<K>,
    value: Option<V>,
) -> (r: (u16, PutResponse))
    requires
        old(map).wf(),
    ensures
        final(map).wf(),
        final(map).placement() == old(map).placement(),
        r.0 == (if key is Some && value is Some {
            STATUS_OK
        } else {
            STATUS_BAD_REQUEST
        }),
        r.1.success == (key is Some && value is Some),
        match (key, value) {
            (Some(k), Some(v)) => final(map).local_view() == old(map).local_view().insert(
                (partition, k@),
                v,
            ),
            _ => final(map).local_view() == old(map).local_view(),
        },
{
    handle_forward_put(map, partition, key, value)
}

} // verus!
