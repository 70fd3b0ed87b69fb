use distributed_cluster::storage::protocol::new_op_id;
use std::collections::HashMap;

use distributed_cluster::membership::service::MembershipService;
use distributed_cluster::membership::types::{GossipMessage, IpAddress, NetAddr, NodeId};
use distributed_cluster::storage::handlers::{
    handle_forward_put, handle_get, handle_put, handle_replicate, put_reply, Fetched,
    STATUS_BAD_REQUEST, STATUS_INTERNAL_SERVER_ERROR, STATUS_NOT_FOUND, STATUS_OK,
};
use distributed_cluster::storage::memory::{after_fetch, DistributedMap, FetchStep, ReadPlan, WriteFollowUp};
use distributed_cluster::storage::partitioner::{sort_ids, PartitionManager};

#[derive(Debug, Clone, PartialEq)]
struct TestBook {
    id: String,
    title: String,
    author: String,
}

fn addr(port: u16) -> NetAddr {
    NetAddr { ip: IpAddress::V4(0x7f00_0001), port }
}

fn id(s: &str) -> NodeId {
    NodeId(s.to_string())
}

fn single_node() -> MembershipService {
    MembershipService::new(NodeId::new(), addr(0), 0)
}

/// A membership view of `local` that has also heard from each of `peers`.
fn cluster(local: &str, peers: &[&str]) -> MembershipService {
    let mut m = MembershipService::new(id(local), addr(5000), 0);
    for (i, p) in peers.iter().enumerate() {
        m.handle_message(
            GossipMessage::Ping { from: id(p), incarnation: 1 },
            addr(5001 + i as u16),
            10,
        );
    }
    m
}

fn names(ids: &[NodeId]) -> Vec<String> {
    ids.iter().map(|n| n.0.clone()).collect()
}

#[test]
fn test_partition_deterministic() {
    let mamanger = PartitionManager::new();

    let p1 = mamanger.get_partition("book_100");
    let p2 = mamanger.get_partition("book_100");
    assert_eq!(p1, p2);

    assert!(p1 < 256);
}

#[test]
fn test_partition_is_deterministic() {
    let partitioner = PartitionManager::new();

    let p1 = partitioner.get_partition("book_100");
    let p2 = partitioner.get_partition("book_100");
    assert_eq!(p1, p2, "The same value should yield the same partition");
}

#[test]
fn test_partition_is_within_range() {
    let partitioner = PartitionManager::new();

    for i in 0..1000 {
        let key = format!("test_key_{}", i);
        let partition = partitioner.get_partition(&key);
        assert!(
            partition < partitioner.num_partitions,
            "Partition {} should be < {}",
            partition,
            partitioner.num_partitions
        );
    }
}

#[test]
fn test_partition_distribution() {
    let partitioner = PartitionManager::new();

    let mut partition_counts = HashMap::new();

    for i in 0..10000 {
        let key = format!("book_{}", i);
        let partition = partitioner.get_partition(&key);
        *partition_counts.entry(partition).or_insert(0) += 1;
    }

    assert!(
        partition_counts.len() > 100,
        "Should have more than 100 distinct partitions used, got: {}",
        partition_counts.len()
    );
}

#[test]
fn test_get_owners_returns_primary_and_backup() {
    let membership = single_node();
    let partitioner = PartitionManager::new();

    let owners = partitioner.get_owners(0, &membership);

    assert_eq!(owners.len(), 1);
}

#[test]
fn test_my_primary_partitions() {
    let membership = single_node();
    let partitioner = PartitionManager::new();

    let my_partitions = partitioner.my_primary_partitions(&membership);

    assert_eq!(
        my_partitions.len() as u32,
        partitioner.num_partitions,
        "Single node should be primary for all partitions"
    );
}

#[test]
fn test_distributed_map_store_and_get_local() {
    let partitioner = PartitionManager::new();
    let mut map: DistributedMap<String, TestBook> = DistributedMap::new(partitioner.clone());

    let book = TestBook {
        id: "book-001".to_string(),
        title: "Rust Programming".to_string(),
        author: "Steve".to_string(),
    };

    let partition = partitioner.get_partition("book-001");
    map.store_local(partition, "book-001".to_string(), book.clone());

    let retrieved = map.get_local(&"book-001".to_string());

    assert!(retrieved.is_some());
    assert_eq!(retrieved.unwrap(), book);
}

#[test]
fn test_distributed_map_get_nonexistent_key() {
    let partitioner = PartitionManager::new();
    let map: DistributedMap<String, TestBook> = DistributedMap::new(partitioner);

    let result = map.get_local(&"nonexistent".to_string());
    assert!(result.is_none());
}

#[test]
fn test_distributed_map_overwrite_value() {
    let partitioner = PartitionManager::new();
    let mut map: DistributedMap<String, TestBook> = DistributedMap::new(partitioner.clone());

    let book1 = TestBook {
        id: "book-001".to_string(),
        title: "Original Title".to_string(),
        author: "Author 1".to_string(),
    };

    let book2 = TestBook {
        id: "book-001".to_string(),
        title: "Updated Title".to_string(),
        author: "Author 2".to_string(),
    };

    let partition = partitioner.get_partition("book-001");

    map.store_local(partition, "book-001".to_string(), book1);
    map.store_local(partition, "book-001".to_string(), book2.clone());

    let retrieved = map.get_local(&"book-001".to_string());
    assert_eq!(retrieved.unwrap().title, "Updated Title");
}

#[test]
fn test_distributed_map_multiple_keys() {
    let partitioner = PartitionManager::new();
    let mut map: DistributedMap<String, TestBook> = DistributedMap::new(partitioner.clone());

    for i in 0..100 {
        let key = format!("book-{:03}", i);
        let book = TestBook {
            id: key.clone(),
            title: format!("Title {}", i),
            author: format!("Author {}", i),
        };

        let partition = partitioner.get_partition(&key);
        map.store_local(partition, key, book);
    }

    for i in 0..100 {
        let key = format!("book-{:03}", i);
        let retrieved = map.get_local(&key);
        assert!(retrieved.is_some(), "Book {} should exist", key);
        assert_eq!(retrieved.unwrap().title, format!("Title {}", i));
    }
}

#[test]
fn test_distributed_map_store_get_roundtrip() {
    let partitioner = PartitionManager::new();
    let mut map: DistributedMap<String, TestBook> = DistributedMap::new(partitioner.clone());

    let book = TestBook {
        id: "roundtrip-book".to_string(),
        title: "Roundtrip Test".to_string(),
        author: "Test Author".to_string(),
    };

    let partition = partitioner.get_partition("roundtrip-book");
    map.store_local(partition, "roundtrip-book".to_string(), book.clone());

    let retrieved = map.get_local(&"roundtrip-book".to_string());
    assert!(retrieved.is_some());
    assert_eq!(retrieved.unwrap(), book);
}

#[test]
fn test_distributed_map_with_vec_value() {
    let partitioner = PartitionManager::new();
    let mut map: DistributedMap<String, Vec<String>> = DistributedMap::new(partitioner.clone());

    let book_ids = vec![
        "book-001".to_string(),
        "book-002".to_string(),
        "book-003".to_string(),
    ];

    let partition = partitioner.get_partition("rust");
    map.store_local(partition, "rust".to_string(), book_ids.clone());

    let retrieved = map.get_local(&"rust".to_string());
    assert!(retrieved.is_some());
    assert_eq!(retrieved.unwrap(), book_ids);
}

#[test]
fn test_distributed_map_append_to_vec() {
    let partitioner = PartitionManager::new();
    let mut map: DistributedMap<String, Vec<String>> = DistributedMap::new(partitioner.clone());

    let partition = partitioner.get_partition("programming");

    map.store_local(partition, "programming".to_string(), vec![]);

    let mut books = map.get_local(&"programming".to_string()).unwrap_or_default();
    books.push("book-001".to_string());
    map.store_local(partition, "programming".to_string(), books);

    let mut books = map.get_local(&"programming".to_string()).unwrap_or_default();
    books.push("book-002".to_string());
    map.store_local(partition, "programming".to_string(), books);

    let final_books = map.get_local(&"programming".to_string()).unwrap();
    assert_eq!(final_books.len(), 2);
    assert!(final_books.contains(&"book-001".to_string()));
    assert!(final_books.contains(&"book-002".to_string()));
}

#[test]
fn replication_factor_is_at_least_one() {
    assert_eq!(PartitionManager::new_with_replication(0).replication_factor, 1);
    assert_eq!(PartitionManager::new_with_replication(3).replication_factor, 3);
    assert_eq!(PartitionManager::new().replication_factor, 2);
    assert_eq!(PartitionManager::new().num_partitions, 256);
}

#[test]
fn ring_is_sorted_by_id() {
    let ring = sort_ids(vec![id("c"), id("a"), id("b")]);
    assert_eq!(names(&ring), vec!["a", "b", "c"]);
    let m = cluster("node-b", &["node-c", "node-a"]);
    assert_eq!(names(&PartitionManager::alive_ring(&m)), vec!["node-a", "node-b", "node-c"]);
}

#[test]
fn owners_walk_the_ring_from_partition_mod_n() {
    let m = cluster("node-b", &["node-c", "node-a"]);
    let p = PartitionManager::new();
    assert_eq!(names(&p.get_owners(0, &m)), vec!["node-a", "node-b"]);
    assert_eq!(names(&p.get_owners(1, &m)), vec!["node-b", "node-c"]);
    assert_eq!(names(&p.get_owners(2, &m)), vec!["node-c", "node-a"]);
    assert_eq!(names(&p.get_owners(5, &m)), vec!["node-c", "node-a"]);
    let wide = PartitionManager::new_with_replication(5);
    assert_eq!(names(&wide.get_owners(4, &m)), vec!["node-b", "node-c", "node-a"]);
}

#[test]
fn nodes_with_the_same_view_agree_on_owners() {
    let a = cluster("node-a", &["node-b", "node-c"]);
    let c = cluster("node-c", &["node-a", "node-b"]);
    let p = PartitionManager::new();
    for part in 0..256 {
        assert_eq!(names(&p.get_owners(part, &a)), names(&p.get_owners(part, &c)));
    }
}

#[test]
fn primary_and_backup_partitions_of_a_node() {
    let m = cluster("node-b", &["node-a"]);
    let p = PartitionManager::new();
    let primary = p.my_primary_partitions(&m);
    let backup = p.my_backup_partitions(&m);
    assert_eq!(primary.len(), 128);
    assert_eq!(backup.len(), 128);
    assert_eq!(primary[0], 1);
    assert_eq!(backup[0], 0);
    assert!(primary.iter().all(|x| x % 2 == 1));
    assert!(backup.iter().all(|x| x % 2 == 0));

    let alone = single_node();
    assert!(p.my_backup_partitions(&alone).is_empty());
}

/// Finds a key whose partition has the given node as its primary.
fn key_owned_by(p: &PartitionManager, m: &MembershipService, owner: &str) -> String {
    (0..10_000)
        .map(|i| format!("key-{}", i))
        .find(|k| p.get_owners(p.get_partition(k), m)[0].0 == owner)
        .unwrap()
}

#[test]
fn put_on_a_single_node_is_done_locally() {
    let m = single_node();
    let mut map: DistributedMap<String, u32> = DistributedMap::new(PartitionManager::new());
    let r = map.put("k".to_string(), 7, &m);
    assert!(matches!(r, WriteFollowUp::Done));
    assert_eq!(map.get_local(&"k".to_string()), Some(7));
    assert!(matches!(map.plan_get(&"k".to_string(), &m), ReadPlan::Local(7)));
    assert!(matches!(map.plan_get(&"other".to_string(), &m), ReadPlan::Missing));
}

#[test]
fn put_as_primary_replicates_to_backup() {
    let m = cluster("node-a", &["node-b"]);
    let p = PartitionManager::new();
    let key = key_owned_by(&p, &m, "node-a");
    let part = p.get_partition(&key);
    let mut map: DistributedMap<String, u32> = DistributedMap::new(p);
    match map.put(key.clone(), 9, &m) {
        WriteFollowUp::Replicate { backups, partition, key: k, value } => {
            assert_eq!(backups, vec![id("node-b")]);
            assert_eq!(partition, part);
            assert_eq!(k, key);
            assert_eq!(value, 9);
        }
        _ => panic!("expected replication"),
    }
    assert_eq!(map.get_local(&key), Some(9));
}

#[test]
fn put_for_another_primary_is_forwarded_and_not_stored() {
    let m = cluster("node-a", &["node-b"]);
    let p = PartitionManager::new();
    let key = key_owned_by(&p, &m, "node-b");
    let part = p.get_partition(&key);
    let mut map: DistributedMap<String, u32> = DistributedMap::new(p);
    match map.put(key.clone(), 4, &m) {
        WriteFollowUp::Forward { primary, partition, key: k, value } => {
            assert_eq!(primary.0, "node-b");
            assert_eq!(partition, part);
            assert_eq!(k, key);
            assert_eq!(value, 4);
        }
        _ => panic!("expected forwarding"),
    }
    assert_eq!(map.get_local(&key), None);
    match map.plan_get(&key, &m) {
        ReadPlan::Remote { first, on_failure } => {
            assert_eq!(first.0, "node-b");
            assert_eq!(on_failure.unwrap().0, "node-a");
        }
        _ => panic!("expected a remote read"),
    }
}

#[test]
fn read_on_primary_without_value_asks_backup_only() {
    let m = cluster("node-a", &["node-b"]);
    let p = PartitionManager::new();
    let key = key_owned_by(&p, &m, "node-a");
    let map: DistributedMap<String, u32> = DistributedMap::new(p);
    match map.plan_get(&key, &m) {
        ReadPlan::Remote { first, on_failure } => {
            assert_eq!(first.0, "node-b");
            assert!(on_failure.is_none());
        }
        _ => panic!("expected a remote read"),
    }
}

#[test]
fn put_local_stores_in_the_keys_partition() {
    let m = single_node();
    let p = PartitionManager::new();
    let mut map: DistributedMap<String, u32> = DistributedMap::new(p);
    let r = map.put_local("x".to_string(), 1, &m);
    assert!(matches!(r, WriteFollowUp::Done));
    assert_eq!(map.get_local(&"x".to_string()), Some(1));
    assert_eq!(map.partition_of_key(&"x".to_string()), p.get_partition("x"));
}

#[test]
fn store_local_in_another_partition_is_not_found_by_key() {
    let p = PartitionManager::new();
    let mut map: DistributedMap<String, u32> = DistributedMap::new(p);
    let part = p.get_partition("k");
    map.store_local((part + 1) % 256, "k".to_string(), 3);
    assert_eq!(map.get_local(&"k".to_string()), None);
}

#[test]
fn storage_handlers_answer_by_parse_result() {
    let alone = single_node();
    let mut store: DistributedMap<String, u32> = DistributedMap::new(PartitionManager::new());
    assert!(handle_put(&mut store, Some("k".to_string()), None, &alone).is_none());
    assert!(handle_put(&mut store, None, Some(1), &alone).is_none());
    assert_eq!(store.get_local(&"k".to_string()), None);
    let f = handle_put(&mut store, Some("k".to_string()), Some(1u32), &alone);
    assert!(matches!(f, Some(WriteFollowUp::Done)));
    assert_eq!(store.get_local(&"k".to_string()), Some(1));
    assert_eq!(put_reply(Some(true)).0, STATUS_OK);
    assert!(put_reply(Some(true)).1.success);
    assert_eq!(put_reply(Some(false)).0, STATUS_INTERNAL_SERVER_ERROR);
    assert!(!put_reply(Some(false)).1.success);
    assert_eq!(put_reply(None).0, STATUS_BAD_REQUEST);

    let (code, body) = handle_get(Some("k".to_string()), Fetched::Value("1".to_string()));
    assert_eq!(code, STATUS_OK);
    assert_eq!(body.value_json, Some("1".to_string()));
    let (code, body) = handle_get(Some("k".to_string()), Fetched::Absent);
    assert_eq!(code, STATUS_NOT_FOUND);
    assert!(body.value_json.is_none());
    assert_eq!(handle_get(Some("k".to_string()), Fetched::Unwritable).0, STATUS_INTERNAL_SERVER_ERROR);
    assert_eq!(handle_get::<String>(None, Fetched::Absent).0, STATUS_BAD_REQUEST);

    let p = PartitionManager::new();
    let part = p.get_partition("k");
    let mut map: DistributedMap<String, u32> = DistributedMap::new(p);
    let (status, body) = handle_forward_put(&mut map, part, Some("k".to_string()), Some(5));
    assert_eq!(status, STATUS_OK);
    assert!(body.success);
    assert_eq!(map.get_local(&"k".to_string()), Some(5));
    let (status, body) = handle_replicate(&mut map, part, Some("k".to_string()), None);
    assert_eq!(status, STATUS_BAD_REQUEST);
    assert!(!body.success);
    assert_eq!(map.get_local(&"k".to_string()), Some(5));
    let (status, _) = handle_replicate(&mut map, part, Some("k".to_string()), Some(6));
    assert_eq!(status, STATUS_OK);
    assert_eq!(map.get_local(&"k".to_string()), Some(6));
}

#[test]
fn remote_read_outcomes_combine() {
    assert!(matches!(after_fetch::<u32>(Ok(Some(3)), Some(id("b"))), FetchStep::Found(Some(3))));
    assert!(matches!(after_fetch::<u32>(Ok(None), Some(id("b"))), FetchStep::Found(None)));
    match after_fetch::<u32>(Err(()), Some(id("b"))) {
        FetchStep::AskNext(n) => assert_eq!(n, id("b")),
        other => panic!("unexpected {:?}", other),
    }
    assert!(matches!(after_fetch::<u32>(Err(()), None), FetchStep::Found(None)));
}

#[test]
fn put_with_three_copies_replicates_to_both_backups() {
    let m = cluster("node-a", &["node-b", "node-c"]);
    let p = PartitionManager::new_with_replication(3);
    let key = key_owned_by(&p, &m, "node-a");
    let mut map: DistributedMap<String, u32> = DistributedMap::new(p);
    match map.put(key.clone(), 1, &m) {
        WriteFollowUp::Replicate { backups, .. } => {
            let mut names: Vec<String> = backups.into_iter().map(|n| n.0).collect();
            names.sort();
            assert_eq!(names, vec!["node-b".to_string(), "node-c".to_string()]);
        }
        _ => panic!("expected replication"),
    }
}

#[test]
fn op_ids_are_fresh() {
    let a = new_op_id();
    let b = new_op_id();
    assert_eq!(a.len(), 36);
    assert_ne!(a, b);
}
