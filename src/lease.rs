//! Periodic lease reconciliation: times out overdue attempts and reclaims
//! leases whose holders stopped heartbeating.

use vstd::prelude::*;

use crate::event::KernelError;
use crate::repository::{expire_row, timeout_row, InMemoryRuntimeRepository, RuntimeRepository};

verus! {

/// Lease tuning, in milliseconds.
#[derive(Clone, Copy, Debug)]
pub struct LeaseConfig {
    /// How long a newly granted lease lasts.
    pub lease_ttl_ms: i64,
    /// Slack given to a slow heartbeat before its lease is reclaimed.
    pub heartbeat_grace_ms: i64,
}

impl Default for LeaseConfig {
    /// A 30 s lease with a 5 s heartbeat grace.
    fn default() -> (r: LeaseConfig)
        ensures
            r.lease_ttl_ms == 30_000 && r.heartbeat_grace_ms == 5_000,
    {
        LeaseConfig { lease_ttl_ms: 30_000, heartbeat_grace_ms: 5_000 }
    }
}

/// What one tick did.
#[derive(Clone, Copy, Debug, Default, PartialEq, Eq, Structural)]
pub struct LeaseTickResult {
    /// Attempts moved out of flight because their execution window passed.
    pub timed_out: u64,
    /// Leases reclaimed, with their attempts requeued unless terminal.
    pub expired_requeued: u64,
}

/// A periodic reconciler of leases.
pub trait LeaseManager: Sized {
    /// The manager's well-formedness, kept by every tick.
    open spec fn inv(&self) -> bool {
        true
    }

    /// `after` and `r` can follow a tick at `now`; a manager that does not
    /// state it promises nothing.
    open spec fn ticked(&self, after: Self, now: i64, r: Result<LeaseTickResult, KernelError>) -> bool {
        true
    }

    /// Runs one reconciliation pass at time `now` (milliseconds).
    fn tick(&mut self, now: i64) -> (r: Result<LeaseTickResult, KernelError>)
        requires
            old(self).inv(),
        ensures
            final(self).inv(),
            old(self).ticked(*final(self), now, r),
    ;
}

/// The cutoff below which a lease counts as stale at `now`.
pub open spec fn stale_cutoff(now: i64, grace: i64) -> int {
    now - grace
}

/// Some intermediate repository was reached from `before` by a sweep at `now`
/// that failed `timed` attempts, and led to `after` by an expiry with
/// `cutoff` that reclaimed `expired` leases.
pub open spec fn swept_then_expired<R: RuntimeRepository>(
    before: R,
    after: R,
    now: i64,
    cutoff: i64,
    timed: u64,
    expired: u64,
) -> bool {
    exists|mid: R| #[trigger] before.swept(mid, now, Ok(timed)) && mid.expired(after, cutoff, Ok(expired))
}

/// The outcome of a tick at `now` with expiry cutoff `cutoff`, from
/// repository `before` to `after`: a timeout sweep at `now` and then, if it
/// succeeded, lease expiry with `cutoff`; the result reports both counts, or
/// the first error.
pub open spec fn tick_outcome<R: RuntimeRepository>(
    before: R,
    after: R,
    now: i64,
    cutoff: i64,
    r: Result<LeaseTickResult, KernelError>,
) -> bool {
    match r {
        Ok(t) => swept_then_expired(before, after, now, cutoff, t.timed_out, t.expired_requeued),
        Err(e) => before.swept(after, now, Err(e)) || exists|mid: R, n: u64|
            #[trigger] before.swept(mid, now, Ok(n)) && mid.expired(after, cutoff, Err(e)),
    }
}

/// A lease manager that reconciles through a [`RuntimeRepository`].
pub struct RepositoryLeaseManager<R: RuntimeRepository> {
    repository: R,
    config: LeaseConfig,
}

impl<R: RuntimeRepository> RepositoryLeaseManager<R> {
    pub fn new(repository: R, config: LeaseConfig) -> (r: Self)
        ensures
            r.repository() == repository,
            r.config() == config,
    {
        RepositoryLeaseManager { repository, config }
    }

    pub closed spec fn repository(&self) -> R {
        self.repository
    }

    pub closed spec fn config(&self) -> LeaseConfig {
        self.config
    }

    /// The repository, for inspection.
    pub fn repository_ref(&self) -> (r: &R)
        ensures
            *r == self.repository(),
    {
        &self.repository
    }

    /// The lease tuning in use.
    pub fn lease_config(&self) -> (r: LeaseConfig)
        ensures
            r == self.config(),
    {
        self.config
    }

    /// One pass at `now`: first the timeout sweep at `now`, then lease expiry
    /// with cutoff `now - heartbeat_grace`, so a lease is reclaimed only once
    /// the grace has elapsed past its expiry. Stops at the first error.
    pub fn tick(&mut self, now: i64) -> (r: Result<LeaseTickResult, KernelError>)
        requires
            old(self).repository().inv(),
            i64::MIN <= stale_cutoff(now, old(self).config().heartbeat_grace_ms) <= i64::MAX,
        ensures
            final(self).repository().inv(),
            final(self).config() == old(self).config(),
            tick_outcome(
                old(self).repository(),
                final(self).repository(),
                now,
                stale_cutoff(now, old(self).config().heartbeat_grace_ms) as i64,
                r,
            ),
    {
        let stale_before = now - self.config.heartbeat_grace_ms;
        let timed_out = match self.repository.transition_timed_out_attempts(now) {
            Ok(n) => n,
            Err(e) => {
                return Err(e);
            },
        };
        let ghost mid = self.repository;
        let expired = match self.repository.expire_leases_and_requeue(stale_before) {
            Ok(n) => n,
            Err(e) => {
                assert(old(self).repository().swept(mid, now, Ok(timed_out)) && mid.expired(
                    self.repository,
                    stale_before,
                    Err(e),
                ));
                assert(tick_outcome(old(self).repository(), self.repository, now, stale_before, Err(e)));
                return Err(e);
            },
        };
        let r = LeaseTickResult { timed_out, expired_requeued: expired };
        assert(old(self).repository().swept(mid, now, Ok(timed_out)) && mid.expired(
            self.repository,
            stale_before,
            Ok(expired),
        ));
        assert(swept_then_expired(old(self).repository(), self.repository, now, stale_before, timed_out, expired));
        assert(tick_outcome(old(self).repository(), self.repository, now, stale_before, Ok(r)));
        Ok(r)
    }
}

impl<R: RuntimeRepository> LeaseManager for RepositoryLeaseManager<R> {
    open spec fn inv(&self) -> bool {
        self.repository().inv()
    }

    /// When `now - heartbeat_grace` is representable, the tick is the sweep
    /// at `now` followed by expiry with that cutoff; otherwise it fails with a
    /// driver error and changes nothing. The configuration never changes.
    open spec fn ticked(&self, after: Self, now: i64, r: Result<LeaseTickResult, KernelError>) -> bool {
        let cutoff = stale_cutoff(now, self.config().heartbeat_grace_ms);
        &&& after.config() == self.config()
        &&& i64::MIN <= cutoff <= i64::MAX ==> tick_outcome(
            self.repository(),
            after.repository(),
            now,
            cutoff as i64,
            r,
        )
        &&& !(i64::MIN <= cutoff <= i64::MAX) ==> after.repository() == self.repository() && (r matches Err(
            KernelError::Driver(_),
        ))
    }

    /// Fails with a driver error, changing nothing, when `now - heartbeat_grace`
    /// is not a representable time.
    fn tick(&mut self, now: i64) -> (r: Result<LeaseTickResult, KernelError>) {
        let cutoff = (now as i128) - (self.config.heartbeat_grace_ms as i128);
        if cutoff < i64::MIN as i128 || cutoff > i64::MAX as i128 {
            return Err(KernelError::Driver("lease cutoff out of range".to_string()));
        }
        RepositoryLeaseManager::tick(self, now)
    }
}

/// A tick at `now` reclaims a lease only once the heartbeat grace has
/// elapsed past its expiry: a lease expiring at or after `now - grace`
/// survives the tick unchanged, and one expiring before it is dropped.
pub proof fn lemma_tick_respects_grace(
    before: InMemoryRuntimeRepository,
    after: InMemoryRuntimeRepository,
    now: i64,
    grace: i64,
    r: Result<LeaseTickResult, KernelError>,
    i: int,
)
    requires
        i64::MIN <= now - grace <= i64::MAX,
        tick_outcome(before, after, now, (now - grace) as i64, r),
        r is Ok,
        0 <= i < before.rows().len(),
        before.rows()[i].lease is Some,
    ensures
        after.rows().len() == before.rows().len(),
        before.rows()[i].lease->0.lease_expires_at >= now - grace ==> after.rows()[i].lease
            == before.rows()[i].lease,
        before.rows()[i].lease->0.lease_expires_at < now - grace ==> after.rows()[i].lease is None,
{
    let t = r->Ok_0;
    let mid = choose|mid: InMemoryRuntimeRepository|
        #[trigger] before.swept(mid, now, Ok(t.timed_out)) && mid.expired(
            after,
            (now - grace) as i64,
            Ok(t.expired_requeued),
        );
    assert(mid.rows()[i] == timeout_row(before.rows()[i], now));
    assert(after.rows()[i] == expire_row(mid.rows()[i], (now - grace) as i64));
}

} // verus!
