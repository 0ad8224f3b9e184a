//! Picks the next dispatchable attempt and leases it to a worker.

use vstd::prelude::*;

use crate::event::KernelError;
use crate::models::{AttemptDispatchRecord, LeaseRecord};
use crate::repository::RuntimeRepository;

verus! {

/// What a dispatch attempt decided.
#[derive(Clone, Debug)]
pub enum SchedulerDecision {
    /// The attempt was leased to the worker.
    Dispatched { attempt_id: String, worker_id: String, lease: LeaseRecord },
    /// Nothing was dispatchable.
    Noop,
}

/// Hands out dispatchable attempts first by attempt number, then by attempt id.
#[derive(Clone, Copy, Debug)]
pub struct SkeletonScheduler {}

impl SkeletonScheduler {
    pub fn new() -> (r: SkeletonScheduler) {
        SkeletonScheduler {  }
    }

    /// Up to `limit` attempts dispatchable at `now`, in dispatch order.
    pub fn pick<R: RuntimeRepository>(&self, repo: &R, now: i64, limit: usize) -> (r: Result<Vec<AttemptDispatchRecord>, KernelError>)
        requires
            repo.inv(),
        ensures
            repo.lists_succeed(now, limit as nat) ==> r is Ok,
            r matches Ok(v) ==> v@.len() <= limit && repo.lists(now, limit as nat, v@),
    {
        repo.list_dispatchable_attempts(now, limit)
    }

    /// Leases the first dispatchable attempt at `now` to `worker_id` for
    /// `lease_ttl_ms`, or reports that nothing was dispatchable.
    pub fn dispatch_one<R: RuntimeRepository>(&self, repo: &mut R, worker_id: &str, now: i64, lease_ttl_ms: i64) -> (r: Result<SchedulerDecision, KernelError>)
        requires
            old(repo).inv(),
            i64::MIN <= now + lease_ttl_ms <= i64::MAX,
        ensures
            final(repo).inv(),
            match r {
                Ok(SchedulerDecision::Noop) => old(repo).lists(now, 1, Seq::empty()) && *final(repo) == *old(
                    repo,
                ),
                Ok(SchedulerDecision::Dispatched { attempt_id, worker_id: w, lease }) => {
                    &&& w@ == worker_id@
                    &&& exists|rec: AttemptDispatchRecord|
                        #[trigger] old(repo).lists(now, 1, seq![rec]) && rec.attempt_id@ == attempt_id@
                            && old(repo).upserted(*final(repo), attempt_id@, worker_id@, (now + lease_ttl_ms) as i64, Ok(lease))
                },
                Err(e) => (!old(repo).lists_succeed(now, 1) && *final(repo) == *old(repo)) || exists|rec: AttemptDispatchRecord|
                    #[trigger] old(repo).lists(now, 1, seq![rec]) && old(repo).upserted(
                        *final(repo),
                        rec.attempt_id@,
                        worker_id@,
                        (now + lease_ttl_ms) as i64,
                        Err(e),
                    ),
            },
    {
        let picked = repo.list_dispatchable_attempts(now, 1)?;
        if picked.len() == 0 {
            assert(picked@ =~= Seq::<AttemptDispatchRecord>::empty());
            return Ok(SchedulerDecision::Noop);
        }
        let rec = &picked[0];
        assert(picked@ =~= seq![*rec]);
        let ghost before = *repo;
        let leased = repo.upsert_lease(rec.attempt_id.as_str(), worker_id, now + lease_ttl_ms);
        match leased {
            Ok(lease) => {
                assert(before.lists(now, 1, seq![*rec]));
                Ok(SchedulerDecision::Dispatched {
                    attempt_id: rec.attempt_id.clone(),
                    worker_id: worker_id.to_owned(),
                    lease,
                })
            },
            Err(e) => {
                assert(before.lists(now, 1, seq![*rec]));
                Err(e)
            },
        }
    }
}

} // verus!
