use oris_runtime::event::KernelError;
use oris_runtime::lease::{LeaseConfig, LeaseManager, RepositoryLeaseManager};
use oris_runtime::models::AttemptExecutionStatus;
use oris_runtime::repository::{InMemoryRuntimeRepository, RuntimeRepository};
use oris_runtime::scheduler::{SchedulerDecision, SkeletonScheduler};

const SECOND: i64 = 1_000;

fn wall_now() -> i64 {
    chrono::Utc::now().timestamp_millis()
}

fn has_lease(repo: &InMemoryRuntimeRepository, attempt_id: &str) -> bool {
    repo.get_lease_for_attempt(attempt_id).expect("get lease").is_some()
}

fn assert_dispatch_lease_requeue_contract(repo: &mut InMemoryRuntimeRepository, name: &str) {
    let run_id = format!("run-{}", name);
    let attempt_id = format!("attempt-{}", name);
    let now = wall_now();

    repo.enqueue_attempt(&attempt_id, &run_id).expect("enqueue attempt");
    let initial = repo.list_dispatchable_attempts(now, 10).expect("list dispatchable initial");
    assert!(initial.iter().any(|r| r.attempt_id == attempt_id));

    let lease = repo
        .upsert_lease(&attempt_id, "worker-a", now + SECOND)
        .expect("upsert lease");
    assert!(has_lease(repo, &attempt_id));

    let duplicate = repo.upsert_lease(&attempt_id, "worker-b", now + 2 * SECOND);
    assert!(duplicate.is_err());

    let hidden = repo.list_dispatchable_attempts(now, 10).expect("list dispatchable while leased");
    assert!(!hidden.iter().any(|r| r.attempt_id == attempt_id));

    RuntimeRepository::heartbeat_lease(repo, &lease.lease_id, now + 500, now + 2 * SECOND)
        .expect("heartbeat lease");

    let expired = RuntimeRepository::expire_leases_and_requeue(repo, now + 10 * SECOND)
        .expect("expire and requeue");
    assert_eq!(expired, 1);

    let available = repo
        .list_dispatchable_attempts(now + 10 * SECOND, 10)
        .expect("list dispatchable after requeue");
    assert!(available.iter().any(|r| r.attempt_id == attempt_id));

    assert_eq!(repo.latest_seq_for_run(&run_id).expect("latest seq"), 0);
}

#[test]
fn runtime_repository_contract_sqlite() {
    let mut repo = InMemoryRuntimeRepository::new();
    assert_dispatch_lease_requeue_contract(&mut repo, "sqlite");
}

#[test]
fn end_to_end_lease_scenario() {
    let mut repo = InMemoryRuntimeRepository::new();
    let t0: i64 = 1_700_000_000_000;
    repo.enqueue_attempt("A1", "R1").unwrap();
    let listed = repo.list_dispatchable_attempts(t0, 10).unwrap();
    assert!(listed.iter().any(|r| r.attempt_id == "A1"));

    let lease = repo.upsert_lease_at(t0, "A1", "worker-a", t0 + SECOND).unwrap();
    assert_eq!(lease.worker_id, "worker-a");
    assert_eq!(lease.lease_expires_at, t0 + SECOND);
    assert_eq!(lease.heartbeat_at, t0);
    assert_eq!(lease.version, 1);
    assert_eq!(lease.lease_id, "lease-A1-1");

    let second = repo.upsert_lease_at(t0, "A1", "worker-b", t0 + 2 * SECOND);
    assert!(matches!(second, Err(KernelError::Contention(_))));

    repo.heartbeat_lease(&lease.lease_id, t0 + 500, t0 + 2 * SECOND).unwrap();
    let after_beat = repo.get_lease_for_attempt("A1").unwrap().unwrap();
    assert_eq!(after_beat.lease_expires_at, t0 + 2 * SECOND);
    assert_eq!(after_beat.heartbeat_at, t0 + 500);
    assert_eq!(after_beat.version, 2);

    assert_eq!(repo.expire_leases_and_requeue(t0 + 10 * SECOND), Ok(1));
    let again = repo.list_dispatchable_attempts(t0 + 10 * SECOND, 10).unwrap();
    assert_eq!(again.len(), 1);
    assert_eq!(again[0].attempt_id, "A1");
    assert_eq!(again[0].status, AttemptExecutionStatus::Queued);
}

#[test]
fn second_lease_on_live_attempt_is_contention() {
    let mut repo = InMemoryRuntimeRepository::new();
    repo.enqueue_attempt("a", "r").unwrap();
    repo.upsert_lease_at(100, "a", "w1", 200).unwrap();
    for t in [100, 150, 200] {
        let r = repo.upsert_lease_at(t, "a", "w2", 400);
        assert!(matches!(r, Err(KernelError::Contention(_))));
    }
    let lease = repo.get_lease_for_attempt("a").unwrap().unwrap();
    assert_eq!(lease.worker_id, "w1");
}

#[test]
fn lease_on_unknown_or_running_attempt_is_contention() {
    let mut repo = InMemoryRuntimeRepository::new();
    assert!(matches!(repo.upsert_lease_at(0, "ghost", "w", 10), Err(KernelError::Contention(_))));
    repo.enqueue_attempt("a", "r").unwrap();
    repo.upsert_lease_at(0, "a", "w", 10).unwrap();
    repo.mark_running("a", Some(50)).unwrap();
    assert!(matches!(repo.upsert_lease_at(20, "a", "w2", 100), Err(KernelError::Contention(_))));
    assert!(repo.get_lease_for_attempt("a").unwrap().is_some());
}

#[test]
fn heartbeat_of_unknown_lease_is_contention() {
    let mut repo = InMemoryRuntimeRepository::new();
    let r = repo.heartbeat_lease("lease-none", 1, 2);
    assert!(matches!(r, Err(KernelError::Contention(_))));
}

#[test]
fn enqueue_is_idempotent_and_numbers_attempts_per_run() {
    let mut repo = InMemoryRuntimeRepository::new();
    repo.enqueue_attempt("a1", "r1").unwrap();
    repo.enqueue_attempt("a1", "r1").unwrap();
    repo.enqueue_attempt("a2", "r1").unwrap();
    repo.enqueue_attempt("b1", "r2").unwrap();
    let all = repo.list_dispatchable_attempts(0, 10).unwrap();
    assert_eq!(all.len(), 3);
    let no = |id: &str| all.iter().find(|r| r.attempt_id == id).unwrap().attempt_no;
    assert_eq!(no("a1"), 1);
    assert_eq!(no("a2"), 2);
    assert_eq!(no("b1"), 1);
}

#[test]
fn listing_orders_by_attempt_number_then_id_and_respects_limit() {
    let mut repo = InMemoryRuntimeRepository::new();
    repo.enqueue_attempt("z", "r1").unwrap();
    repo.enqueue_attempt("y", "r1").unwrap();
    repo.enqueue_attempt("b", "r2").unwrap();
    repo.enqueue_attempt("a", "r3").unwrap();
    let all = repo.list_dispatchable_attempts(0, 10).unwrap();
    let ids: Vec<&str> = all.iter().map(|r| r.attempt_id.as_str()).collect();
    assert_eq!(ids, vec!["a", "b", "z", "y"]);
    let two = repo.list_dispatchable_attempts(0, 2).unwrap();
    let ids2: Vec<&str> = two.iter().map(|r| r.attempt_id.as_str()).collect();
    assert_eq!(ids2, vec!["a", "b"]);
    assert!(repo.list_dispatchable_attempts(0, 0).unwrap().is_empty());
}

#[test]
fn leased_attempt_is_hidden_until_its_lease_expires() {
    let mut repo = InMemoryRuntimeRepository::new();
    repo.enqueue_attempt("a", "r").unwrap();
    repo.upsert_lease_at(0, "a", "w", 100).unwrap();
    assert!(repo.list_dispatchable_attempts(50, 10).unwrap().is_empty());
    assert_eq!(repo.expire_leases_and_requeue(100), Ok(0));
    assert!(repo.list_dispatchable_attempts(100, 10).unwrap().is_empty());
    assert_eq!(repo.expire_leases_and_requeue(101), Ok(1));
    assert_eq!(repo.list_dispatchable_attempts(101, 10).unwrap().len(), 1);
    let relet = repo.upsert_lease_at(101, "a", "w2", 300).unwrap();
    assert_eq!(relet.lease_id, "lease-a-2");
}

#[test]
fn terminal_attempts_are_not_requeued() {
    let mut repo = InMemoryRuntimeRepository::new();
    repo.enqueue_attempt("a", "r").unwrap();
    repo.upsert_lease_at(0, "a", "w", 100).unwrap();
    repo.finish_attempt("a", AttemptExecutionStatus::Completed).unwrap();
    assert!(repo.get_lease_for_attempt("a").unwrap().is_none());
    assert!(matches!(
        repo.finish_attempt("a", AttemptExecutionStatus::Failed),
        Err(KernelError::Contention(_))
    ));
    assert!(repo.list_dispatchable_attempts(1_000, 10).unwrap().is_empty());
}

#[test]
fn timed_out_running_attempts_fail() {
    let mut repo = InMemoryRuntimeRepository::new();
    repo.enqueue_attempt("a", "r").unwrap();
    repo.enqueue_attempt("b", "r").unwrap();
    repo.upsert_lease_at(0, "a", "w", 10_000).unwrap();
    repo.upsert_lease_at(0, "b", "w", 10_000).unwrap();
    repo.mark_running("a", Some(100)).unwrap();
    repo.mark_running("b", None).unwrap();
    assert_eq!(repo.transition_timed_out_attempts(100), Ok(0));
    assert_eq!(repo.transition_timed_out_attempts(101), Ok(1));
    assert_eq!(repo.transition_timed_out_attempts(200), Ok(0));
    assert!(matches!(repo.mark_running("a", None), Err(KernelError::Contention(_))));
}

#[test]
fn upsert_lease_stamps_heartbeat_with_wall_clock() {
    let mut repo = InMemoryRuntimeRepository::new();
    repo.enqueue_attempt("a", "r").unwrap();
    let before = wall_now();
    let lease = RuntimeRepository::upsert_lease(&mut repo, "a", "w", before + 60 * SECOND).unwrap();
    let after = wall_now();
    assert!(lease.heartbeat_at >= before && lease.heartbeat_at <= after);
    assert!(lease.heartbeat_at > 0);
}

#[test]
fn tick_applies_heartbeat_grace_before_requeueing() {
    let now = wall_now();
    let mut repo = InMemoryRuntimeRepository::new();
    for id in ["t1", "t2"] {
        repo.enqueue_attempt(id, "run").unwrap();
        repo.upsert_lease_at(now - 60 * SECOND, id, "w", now + 60 * SECOND).unwrap();
        repo.mark_running(id, Some(now - SECOND)).unwrap();
    }
    for id in ["e1", "e2", "e3"] {
        repo.enqueue_attempt(id, "run").unwrap();
        repo.upsert_lease_at(now - 60 * SECOND, id, "w", now - 8 * SECOND).unwrap();
    }
    repo.enqueue_attempt("grace", "run").unwrap();
    repo.upsert_lease_at(now - 60 * SECOND, "grace", "w", now - 3 * SECOND).unwrap();

    let config = LeaseConfig { lease_ttl_ms: 30 * SECOND, heartbeat_grace_ms: 7 * SECOND };
    let mut manager = RepositoryLeaseManager::new(repo, config);
    let result = LeaseManager::tick(&mut manager, now).expect("tick succeeds");

    assert_eq!(result.timed_out, 2);
    assert_eq!(result.expired_requeued, 3);
    let survivor = manager.repository_ref().get_lease_for_attempt("grace").unwrap();
    assert!(survivor.is_some());

    let later = manager.tick(now + 5 * SECOND).expect("second tick");
    assert_eq!(later.expired_requeued, 1);
    assert!(manager.repository_ref().get_lease_for_attempt("grace").unwrap().is_none());
}

#[test]
fn lease_config_defaults() {
    let c = LeaseConfig::default();
    assert_eq!(c.lease_ttl_ms, 30_000);
    assert_eq!(c.heartbeat_grace_ms, 5_000);
}

#[test]
fn scheduler_dispatches_first_attempt_in_order() {
    let mut repo = InMemoryRuntimeRepository::new();
    let scheduler = SkeletonScheduler::new();
    let now = wall_now();
    assert!(matches!(scheduler.dispatch_one(&mut repo, "w", now, 30 * SECOND), Ok(SchedulerDecision::Noop)));
    repo.enqueue_attempt("b", "r1").unwrap();
    repo.enqueue_attempt("a", "r2").unwrap();
    let picked = scheduler.pick(&repo, now, 5).unwrap();
    assert_eq!(picked.len(), 2);
    assert_eq!(picked[0].attempt_id, "a");
    match scheduler.dispatch_one(&mut repo, "w", now, 30 * SECOND).unwrap() {
        SchedulerDecision::Dispatched { attempt_id, worker_id, lease } => {
            assert_eq!(attempt_id, "a");
            assert_eq!(worker_id, "w");
            assert_eq!(lease.lease_expires_at, now + 30 * SECOND);
        },
        SchedulerDecision::Noop => panic!("expected a dispatch"),
    }
    let rest = scheduler.pick(&repo, now, 5).unwrap();
    assert_eq!(rest.len(), 1);
    assert_eq!(rest[0].attempt_id, "b");
}

#[test]
fn requeued_attempt_gets_a_fresh_lease_id() {
    let mut repo = InMemoryRuntimeRepository::new();
    repo.enqueue_attempt("a", "r").unwrap();
    repo.enqueue_attempt("a-1", "r").unwrap();
    let first = repo.upsert_lease_at(0, "a", "w1", 10).unwrap();
    repo.upsert_lease_at(0, "a-1", "w1", 1_000).unwrap();
    repo.finish_attempt("a-1", AttemptExecutionStatus::Cancelled).unwrap();
    assert_eq!(repo.expire_leases_and_requeue(11), Ok(1));
    let second = repo.upsert_lease_at(11, "a", "w2", 100).unwrap();
    assert_eq!(second.lease_id, "lease-a-3");
    assert_eq!(second.worker_id, "w2");
    assert_ne!(second.lease_id, first.lease_id);
}

#[test]
fn expired_lease_on_queued_attempt_does_not_block_a_grant() {
    let mut repo = InMemoryRuntimeRepository::new();
    repo.enqueue_attempt("a", "r").unwrap();
    repo.upsert_lease_at(0, "a", "w1", 10).unwrap();
    assert_eq!(repo.expire_leases_and_requeue(5), Ok(0));
    assert!(matches!(repo.upsert_lease_at(5, "a", "w2", 100), Err(KernelError::Contention(_))));
    assert_eq!(repo.expire_leases_and_requeue(11), Ok(1));
    let lease = repo.upsert_lease_at(11, "a", "w2", 100).unwrap();
    assert_eq!(lease.worker_id, "w2");
}
