use distributed_cluster::executor::types::{TaskId, TaskStatus};

#[test]
fn test_task_id_is_unique() {
    let id1 = TaskId::new();
    let id2 = TaskId::new();

    assert_ne!(id1.0, id2.0);
}

#[test]
fn test_task_status_equality() {
    assert_eq!(TaskStatus::Pending, TaskStatus::Pending);
    assert_eq!(TaskStatus::Running, TaskStatus::Running);
    assert_eq!(TaskStatus::Completed, TaskStatus::Completed);

    assert_ne!(TaskStatus::Pending, TaskStatus::Running);

    let failed1 = TaskStatus::Failed { error: "test".to_string() };
    let failed2 = TaskStatus::Failed { error: "test".to_string() };
    let failed3 = TaskStatus::Failed { error: "other".to_string() };

    assert_eq!(failed1, failed2);
    assert_ne!(failed1, failed3);
}

use distributed_cluster::executor::handlers::{
    handle_get_task_internal, handle_get_task_status, handle_get_task_status_internal,
    handle_internal_submit_task, handle_replicate_task, handle_task_partition_dump,
    remote_status_reply, task_status_response, StatusPlan,
};
use distributed_cluster::executor::protocol::{ForwardTaskRequest, ReplicateTaskRequest};
use distributed_cluster::executor::queue::{DistributedQueue, QueueError, SubmitFollowUp, LEASE_MS};
use distributed_cluster::executor::registry::{
    unknown_handler_message, TaskHandlerRegistry, UNKNOWN_HANDLER_PREFIX,
};
use distributed_cluster::executor::types::{millis_from_clock, now_ms, Task, TaskEntry};
use distributed_cluster::executor::worker::{
    renewal_step, worker_step, WorkerAction, CONTENDED_SLEEP_MS, IDLE_SLEEP_MS,
    LEASE_RENEWAL_INTERVAL_MS,
};
use distributed_cluster::membership::service::MembershipService;
use distributed_cluster::membership::types::{GossipMessage, IpAddress, NetAddr, NodeId};
use distributed_cluster::storage::handlers::{STATUS_NOT_FOUND, STATUS_OK};
use distributed_cluster::storage::partitioner::PartitionManager;

fn net(port: u16) -> NetAddr {
    NetAddr { ip: IpAddress::V4(0x7f00_0001), port }
}

fn node_id(s: &str) -> NodeId {
    NodeId(s.to_string())
}

fn lone(name: &str) -> MembershipService {
    MembershipService::new(node_id(name), net(5000), 0)
}

fn pair(local: &str, peer: &str) -> MembershipService {
    let mut m = lone(local);
    m.handle_message(GossipMessage::Ping { from: node_id(peer), incarnation: 1 }, net(5001), 10);
    m
}

fn work(name: &str) -> Task {
    Task::Execute { handler: name.to_string(), payload: serde_json::Value::from("data") }
}

fn handler_of(t: &Task) -> String {
    match t {
        Task::Execute { handler, .. } => handler.clone(),
    }
}

#[test]
fn submitted_task_on_single_node_is_pending_here() {
    let m = lone("solo");
    let mut q = DistributedQueue::new(&m, PartitionManager::new());
    let (id, follow_up) = q.submit(work("index_document"), &m, 1_000);
    assert!(matches!(follow_up, SubmitFollowUp::Done));
    assert_eq!(id.0.len(), 36);
    let e = q.get_task(&id).unwrap();
    assert_eq!(e.status, TaskStatus::Pending);
    assert_eq!(e.assigned_to, None);
    assert_eq!(e.created_at, 1_000);
    assert_eq!(e.lease_expires, None);
    assert_eq!(handler_of(&e.task), "index_document");
}

#[test]
fn worker_cycle_claim_renew_complete() {
    let m = lone("solo");
    let mut q = DistributedQueue::new(&m, PartitionManager::new());
    let (id, _) = q.submit(work("job"), &m, 5);

    let pending = q.my_pending_tasks(&m, 10);
    assert_eq!(pending.len(), 1);
    assert_eq!(pending[0].0, id);

    let (claimed_id, task) = q.claim_next(&pending, 10).unwrap();
    assert_eq!(claimed_id, id);
    assert_eq!(handler_of(&task), "job");
    let e = q.get_task(&id).unwrap();
    assert_eq!(e.status, TaskStatus::Running);
    assert_eq!(e.assigned_to, Some(node_id("solo")));
    assert_eq!(e.lease_expires, Some(10 + LEASE_MS));

    // A second claim of the same task fails.
    assert!(matches!(q.try_claim_task(&id, 11), Ok(false)));
    assert!(q.claim_next(&pending, 11).is_none());
    assert!(q.my_pending_tasks(&m, 12).is_empty());

    assert!(q.renew_lease(&id, 20_000).is_ok());
    assert_eq!(q.get_task(&id).unwrap().lease_expires, Some(20_000 + LEASE_MS));

    assert!(q.complete_task(&id, Ok(())).is_ok());
    let e = q.get_task(&id).unwrap();
    assert_eq!(e.status, TaskStatus::Completed);
    assert_eq!(e.lease_expires, None);
    assert_eq!(e.assigned_to, Some(node_id("solo")));

    match q.renew_lease(&id, 30_000) {
        Err(QueueError::TaskNotRunning { status }) => assert_eq!(status, TaskStatus::Completed),
        other => panic!("unexpected {:?}", other),
    }
}

#[test]
fn failed_task_records_error() {
    let m = lone("solo");
    let mut q = DistributedQueue::new(&m, PartitionManager::new());
    let (id, _) = q.submit(work("job"), &m, 0);
    assert!(matches!(q.try_claim_task(&id, 1), Ok(true)));
    assert!(q.complete_task(&id, Err("boom".to_string())).is_ok());
    assert_eq!(q.get_task(&id).unwrap().status, TaskStatus::Failed { error: "boom".to_string() });
    assert!(q.my_pending_tasks(&m, 1_000_000).is_empty());
}

#[test]
fn unknown_task_operations_report_not_found() {
    let m = lone("solo");
    let mut q = DistributedQueue::new(&m, PartitionManager::new());
    let missing = TaskId("no-such-task".to_string());
    assert!(matches!(q.try_claim_task(&missing, 0), Ok(false)));
    assert!(matches!(q.renew_lease(&missing, 0), Err(QueueError::TaskNotFound)));
    assert!(matches!(q.complete_task(&missing, Ok(())), Err(QueueError::TaskNotFound)));
    assert!(q.get_task(&missing).is_none());
    assert!(q.get_task_local(&missing).is_none());
    assert!(matches!(
        handle_get_task_status(&q, &m, missing.clone()),
        StatusPlan::Answer(STATUS_NOT_FOUND, None)
    ));
    let (status, body) = handle_get_task_internal(&q, missing);
    assert_eq!(status, STATUS_NOT_FOUND);
    assert!(body.task.is_none());
}

#[test]
fn expired_lease_makes_task_visible_again() {
    let m = lone("solo");
    let mut q = DistributedQueue::new(&m, PartitionManager::new());
    let (id, _) = q.submit(work("job"), &m, 0);
    assert!(matches!(q.try_claim_task(&id, 100), Ok(true)));
    let lease = 100 + LEASE_MS;
    assert!(q.my_pending_tasks(&m, lease).is_empty());
    let again = q.my_pending_tasks(&m, lease + 1);
    assert_eq!(again.len(), 1);
    assert_eq!(again[0].1.status, TaskStatus::Running);
    // The abandoned task is claimed again, with a fresh lease.
    let (claimed, _) = q.claim_next(&again, lease + 1).unwrap();
    assert_eq!(claimed, id);
    assert_eq!(q.get_task(&id).unwrap().lease_expires, Some(lease + 1 + LEASE_MS));
    assert!(matches!(q.try_claim_task(&id, lease + 2), Ok(false)));
}

#[test]
fn submit_forwards_to_another_primary() {
    let m = pair("node-a", "node-b");
    let mut q = DistributedQueue::new(&m, PartitionManager::new());
    let mut forwarded = None;
    for _ in 0..200 {
        let (id, follow_up) = q.submit(work("job"), &m, 7);
        match follow_up {
            SubmitFollowUp::Forward { primary, request } => {
                forwarded = Some((id, primary, request));
                break;
            }
            SubmitFollowUp::Replicate { backups, copy } => {
                // Stored here as primary, and copied to the backup.
                assert!(q.get_task(&id).is_some());
                assert_eq!(backups, vec![node_id("node-b")]);
                assert_eq!(copy.task_id, id);
                assert_eq!(copy.entry.status, TaskStatus::Pending);
                assert_eq!(copy.entry.created_at, 7);
            }
            SubmitFollowUp::Done => panic!("two live nodes: a backup exists"),
        }
    }
    let (id, primary, req) = forwarded.expect("some task belongs to node-b");
    assert_eq!(primary, node_id("node-b"));
    assert_eq!(req.task_id, id);
    assert_eq!(req.partition, PartitionManager::new().get_partition(&id.0));
    assert!(q.get_task(&id).is_none());

    // The primary stores it and hands back the copy for its backup.
    let b = pair("node-b", "node-a");
    let mut qb = DistributedQueue::new(&b, PartitionManager::new());
    let (resp, rep) = handle_internal_submit_task(&mut qb, req, &b, 9);
    assert_eq!(resp.task_id, id);
    let (backups, rep) = rep.unwrap();
    assert_eq!(backups, vec![node_id("node-a")]);
    assert_eq!(rep.task_id, id);
    assert_eq!(rep.entry.status, TaskStatus::Pending);
    assert_eq!(rep.entry.created_at, 9);
    let (status, st) = handle_get_task_status_internal(&qb, id.clone());
    assert_eq!(status, STATUS_OK);
    assert_eq!(st.unwrap().status, TaskStatus::Pending);

    // Node a does not hold the task: a status request there asks the primary.
    match handle_get_task_status(&q, &m, id.clone()) {
        StatusPlan::AskPrimary(n) => assert_eq!(n, node_id("node-b")),
        other => panic!("expected to ask the primary, got {:?}", other),
    }
    // Node b holds it and answers itself.
    match handle_get_task_status(&qb, &b, id.clone()) {
        StatusPlan::Answer(code, Some(r)) => {
            assert_eq!(code, STATUS_OK);
            assert_eq!(r.status, TaskStatus::Pending);
        }
        other => panic!("expected an answer, got {:?}", other),
    }
    let (code, body) = remote_status_reply(None);
    assert_eq!(code, STATUS_NOT_FOUND);
    assert!(body.is_none());

    // The backup stores the copy as sent.
    let part = rep.partition;
    assert_eq!(handle_replicate_task(&mut q, rep), STATUS_OK);
    assert_eq!(q.get_task(&id).unwrap().created_at, 9);
    // Holding a backup copy, node a still asks the primary for the status.
    match handle_get_task_status(&q, &m, id.clone()) {
        StatusPlan::AskPrimary(n) => assert_eq!(n, node_id("node-b")),
        other => panic!("a backup asks the primary, got {:?}", other),
    }
    let (status, dump) = handle_task_partition_dump(&q, part);
    assert_eq!(status, STATUS_OK);
    assert_eq!(dump.partition, part);
    assert!(dump.entries.iter().any(|e| e.task_id == id));
    assert!(dump.entries.iter().all(|e| PartitionManager::new().get_partition(&e.task_id.0) == part));
}

#[test]
fn replicate_and_dump_partition() {
    let m = lone("solo");
    let mut q = DistributedQueue::new(&m, PartitionManager::new());
    let entry = TaskEntry {
        task: work("copy"),
        status: TaskStatus::Running,
        assigned_to: Some(node_id("other")),
        created_at: 3,
        lease_expires: Some(4),
    };
    let req = ReplicateTaskRequest { partition: 17, task_id: TaskId("t-1".to_string()), entry };
    assert_eq!(handle_replicate_task(&mut q, req), STATUS_OK);
    let (_, dump) = handle_task_partition_dump(&q, 17);
    assert_eq!(dump.entries.len(), 1);
    assert_eq!(dump.entries[0].task_id, TaskId("t-1".to_string()));
    assert_eq!(dump.entries[0].entry.assigned_to, Some(node_id("other")));
    let (_, other) = handle_task_partition_dump(&q, 18);
    assert!(other.entries.is_empty());
    assert_eq!(q.dump_partition(17).len(), 1);
}

#[test]
fn internal_submit_on_single_node_has_no_backup() {
    let m = lone("solo");
    let mut q = DistributedQueue::new(&m, PartitionManager::new());
    let req = ForwardTaskRequest { partition: 3, task_id: TaskId("t-9".to_string()), task: work("x") };
    let (resp, rep) = handle_internal_submit_task(&mut q, req, &m, 42);
    assert_eq!(resp.task_id, TaskId("t-9".to_string()));
    assert!(rep.is_none());
    assert_eq!(q.dump_partition(3)[0].1.created_at, 42);
}

#[test]
fn status_response_copies_entry_fields() {
    let entry = TaskEntry {
        task: work("x"),
        status: TaskStatus::Completed,
        assigned_to: Some(node_id("n")),
        created_at: 77,
        lease_expires: None,
    };
    let r = task_status_response(TaskId("t".to_string()), entry);
    assert_eq!(r.task_id, TaskId("t".to_string()));
    assert_eq!(r.status, TaskStatus::Completed);
    assert_eq!(r.assigned_to, Some(node_id("n")));
    assert_eq!(r.created_at, 77);
}

#[test]
fn registry_registers_and_lists_in_order() {
    let mut reg: TaskHandlerRegistry<u32> = TaskHandlerRegistry::new();
    assert_eq!(reg.handler_count(), 0);
    reg.register("index_document", 1);
    reg.register("reindex", 2);
    reg.register("index_document", 3);
    assert_eq!(reg.handler_count(), 2);
    assert_eq!(reg.list_handlers(), vec!["index_document".to_string(), "reindex".to_string()]);
    assert_eq!(reg.lookup("index_document"), Some(&3));
    assert!(reg.has_handler("reindex"));
    assert!(!reg.has_handler("missing"));
    assert_eq!(reg.lookup("missing"), None);
    let d: TaskHandlerRegistry<u32> = TaskHandlerRegistry::default();
    assert!(d.list_handlers().is_empty());
}

#[test]
fn unknown_handler_error_names_the_handler() {
    assert_eq!(UNKNOWN_HANDLER_PREFIX, "Unknown task handler: ");
    assert_eq!(
        unknown_handler_message("non_existent_handler"),
        "Unknown task handler: non_existent_handler"
    );
}

#[test]
fn clock_reads_after_epoch() {
    assert!(now_ms().unwrap() > 1_600_000_000_000);
}

#[test]
fn worker_sleeps_claims_and_backs_off() {
    let m = lone("solo");
    let mut q = DistributedQueue::new(&m, PartitionManager::new());
    match worker_step(&mut q, &m, 0) {
        WorkerAction::Sleep { millis } => assert_eq!(millis, IDLE_SLEEP_MS),
        other => panic!("unexpected {:?}", other),
    }
    let (id, _) = q.submit(work("job"), &m, 0);
    match worker_step(&mut q, &m, 1) {
        WorkerAction::Execute { task_id, task } => {
            assert_eq!(task_id, id);
            assert_eq!(handler_of(&task), "job");
        }
        other => panic!("unexpected {:?}", other),
    }
    assert_eq!(q.get_task(&id).unwrap().status, TaskStatus::Running);
    // Nothing pending while the lease holds.
    match worker_step(&mut q, &m, 2) {
        WorkerAction::Sleep { millis } => assert_eq!(millis, IDLE_SLEEP_MS),
        other => panic!("unexpected {:?}", other),
    }
    // After the lease runs out the abandoned task is claimed again.
    match worker_step(&mut q, &m, 1 + LEASE_MS + 1) {
        WorkerAction::Execute { task_id, .. } => assert_eq!(task_id, id),
        other => panic!("unexpected {:?}", other),
    }
    q.complete_task(&id, Ok(())).unwrap();
    // A task kept under a partition other than its own is seen but cannot
    // be claimed there.
    let stray = TaskId("stray".to_string());
    let own = PartitionManager::new().get_partition(&stray.0);
    let entry = TaskEntry {
        task: work("job"),
        status: TaskStatus::Pending,
        assigned_to: None,
        created_at: 0,
        lease_expires: None,
    };
    q.store_local((own + 1) % 256, stray, entry);
    match worker_step(&mut q, &m, 100_000) {
        WorkerAction::Sleep { millis } => assert_eq!(millis, CONTENDED_SLEEP_MS),
        other => panic!("unexpected {:?}", other),
    }
}

#[test]
fn registry_resolves_task_handler_or_names_the_missing_one() {
    let mut reg: TaskHandlerRegistry<u32> = TaskHandlerRegistry::new();
    reg.register("index_document", 7);
    assert_eq!(reg.resolve(&work("index_document")), Ok(&7));
    assert_eq!(
        reg.resolve(&work("non_existent_handler")),
        Err("Unknown task handler: non_existent_handler".to_string())
    );
}

#[test]
fn clock_reading_converts_to_millis() {
    assert_eq!(millis_from_clock(None), None);
    assert_eq!(millis_from_clock(Some(1_700_000_000_123)), Some(1_700_000_000_123));
    assert_eq!(millis_from_clock(Some((1u128 << 64) + 5)), Some(5));
}

#[test]
fn lease_renewal_continues_while_the_task_runs() {
    assert_eq!(LEASE_RENEWAL_INTERVAL_MS, 10_000);
    let m = lone("solo");
    let mut q = DistributedQueue::new(&m, PartitionManager::new());
    let (id, _) = q.submit(work("job"), &m, 5);
    // Not yet running: renewal stops at once.
    assert!(!renewal_step(&mut q, &id, 6));
    assert_eq!(q.get_task(&id).unwrap().lease_expires, None);

    let pending = q.my_pending_tasks(&m, 10);
    q.claim_next(&pending, 10).unwrap();
    assert!(renewal_step(&mut q, &id, 10_010));
    assert_eq!(q.get_task(&id).unwrap().lease_expires, Some(10_010 + LEASE_MS));

    q.complete_task(&id, Ok(())).unwrap();
    assert!(!renewal_step(&mut q, &id, 20_010));
    assert!(!renewal_step(&mut q, &TaskId("missing".to_string()), 20_010));
}
