//! The attempt/lease repository held in memory, and the semantics of every
//! repository operation as functions on rows.
//!
//! A row holds one attempt and at most one lease on it, which is what keeps
//! "at most one lease per attempt" true in every state.

use vstd::prelude::*;

use crate::event::KernelError;
use crate::identity::{RunId, SeqNo};
use crate::models::{AttemptDispatchRecord, AttemptExecutionStatus, LeaseRecord};
use crate::clock::now_millis;
use crate::names::{decimal_spec, lemma_decimal_has_no_dash, lemma_decimal_injective, push_decimal};
use crate::order::{lemma_lex_irreflexive, lemma_lex_total, lemma_lex_transitive, lex_less, lex_lt};

verus! {

/// One stored attempt, its lease if any, and the deadline of its execution.
#[derive(Clone, Debug)]
pub struct AttemptRow {
    pub record: AttemptDispatchRecord,
    pub lease: Option<LeaseRecord>,
    pub deadline: Option<i64>,
}

/// The row's lease has not expired at `now`.
pub open spec fn lease_live(row: AttemptRow, now: i64) -> bool {
    match row.lease {
        Some(l) => l.lease_expires_at >= now,
        None => false,
    }
}

/// The row's lease expired strictly before `cutoff`.
pub open spec fn lease_expired(row: AttemptRow, cutoff: i64) -> bool {
    match row.lease {
        Some(l) => l.lease_expires_at < cutoff,
        None => false,
    }
}

/// The attempt can be handed to a worker at `now`: no live lease, and it is
/// queued, or in retry backoff with its retry time (if any) reached.
pub open spec fn dispatchable(row: AttemptRow, now: i64) -> bool {
    let retry_due = match row.record.retry_at {
        Some(t) => t <= now,
        None => true,
    };
    &&& !lease_live(row, now)
    &&& (row.record.status == AttemptExecutionStatus::Queued
        || (row.record.status == AttemptExecutionStatus::RetryBackoff && retry_due))
}

/// Dispatch order: by attempt number, then by attempt id.
pub open spec fn key_lt(a: AttemptDispatchRecord, b: AttemptDispatchRecord) -> bool {
    a.attempt_no < b.attempt_no || (a.attempt_no == b.attempt_no && lex_lt(a.attempt_id@, b.attempt_id@))
}

pub proof fn lemma_key_transitive(a: AttemptDispatchRecord, b: AttemptDispatchRecord, c: AttemptDispatchRecord)
    requires
        key_lt(a, b),
        key_lt(b, c),
    ensures
        key_lt(a, c),
{
    if a.attempt_no == b.attempt_no && b.attempt_no == c.attempt_no {
        lemma_lex_transitive(a.attempt_id@, b.attempt_id@, c.attempt_id@);
    }
}

pub proof fn lemma_key_irreflexive(a: AttemptDispatchRecord, b: AttemptDispatchRecord)
    requires
        a.attempt_no == b.attempt_no,
        a.attempt_id@ == b.attempt_id@,
    ensures
        !key_lt(a, b),
{
    lemma_lex_irreflexive(a.attempt_id@);
}

pub proof fn lemma_key_total(a: AttemptDispatchRecord, b: AttemptDispatchRecord)
    requires
        a.attempt_id@ != b.attempt_id@,
    ensures
        key_lt(a, b) || key_lt(b, a),
{
    lemma_lex_total(a.attempt_id@, b.attempt_id@);
}

/// How many rows hold a lease that expired before `cutoff`.
pub open spec fn count_expired(rows: Seq<AttemptRow>, cutoff: i64) -> nat
    decreases rows.len(),
{
    if rows.len() == 0 {
        0
    } else {
        count_expired(rows.drop_last(), cutoff) + if lease_expired(rows.last(), cutoff) {
            1nat
        } else {
            0nat
        }
    }
}

/// How many rows hold a running attempt whose deadline passed before `now`.
pub open spec fn count_timed_out(rows: Seq<AttemptRow>, now: i64) -> nat
    decreases rows.len(),
{
    if rows.len() == 0 {
        0
    } else {
        count_timed_out(rows.drop_last(), now) + if timed_out(rows.last(), now) {
            1nat
        } else {
            0nat
        }
    }
}

/// How many rows hold an attempt of run `run`.
pub open spec fn count_of_run(rows: Seq<AttemptRow>, run: Seq<char>) -> nat
    decreases rows.len(),
{
    if rows.len() == 0 {
        0
    } else {
        count_of_run(rows.drop_last(), run) + if rows.last().record.run_id@ == run {
            1nat
        } else {
            0nat
        }
    }
}

/// `rec` is the record of a row that is dispatchable at `now`.
pub open spec fn dispatchable_record(rows: Seq<AttemptRow>, now: i64, rec: AttemptDispatchRecord) -> bool {
    exists|i: int| 0 <= i < rows.len() && dispatchable(rows[i], now) && rows[i].record == rec
}

/// A valid result of listing dispatchable attempts: at most `limit` of them,
/// in strictly increasing dispatch order, and every dispatchable attempt left
/// out sorts after all that were listed, which only happens when `limit`
/// was reached.
pub open spec fn listing(rows: Seq<AttemptRow>, now: i64, limit: nat, v: Seq<AttemptDispatchRecord>) -> bool {
    &&& v.len() <= limit
    &&& forall|j: int| 0 <= j < v.len() ==> #[trigger] dispatchable_record(rows, now, v[j])
    &&& forall|j: int, k: int| 0 <= j < k < v.len() ==> key_lt(v[j], v[k])
    &&& forall|i: int|
        0 <= i < rows.len() && dispatchable(rows[i], now) && !(exists|j: int|
            0 <= j < v.len() && v[j] == rows[i].record) ==> {
            &&& v.len() == limit
            &&& forall|j: int| 0 <= j < v.len() ==> key_lt(v[j], rows[i].record)
        }
}

/// The identifier given to the `n`-th lease granted on `attempt`.
pub open spec fn lease_id_spec(attempt: Seq<char>, n: u64) -> Seq<char> {
    "lease-"@ + attempt + "-"@ + decimal_spec(n as nat)
}

/// Lease identifiers of different attempts never coincide: the digits after
/// the last dash hold no dash, so the attempt part is fixed by the identifier.
pub proof fn lemma_lease_id_names_attempt(a: Seq<char>, n: u64, b: Seq<char>, m: u64)
    requires
        lease_id_spec(a, n) == lease_id_spec(b, m),
    ensures
        a == b,
        n == m,
{
    reveal_strlit("lease-");
    reveal_strlit("-");
    let s = lease_id_spec(a, n);
    let d1 = decimal_spec(n as nat);
    let d2 = decimal_spec(m as nat);
    lemma_decimal_has_no_dash(n as nat);
    lemma_decimal_has_no_dash(m as nat);
    let len = s.len() as int;
    assert(s.len() == 6 + a.len() + 1 + d1.len());
    assert(s.len() == 6 + b.len() + 1 + d2.len());
    assert(s[6 + a.len() as int] == '-');
    assert(s[6 + b.len() as int] == '-');
    if d1.len() < d2.len() {
        let i = 6 + a.len() as int;
        assert(s[i] == d2[i - (7 + b.len() as int)]);
    } else if d2.len() < d1.len() {
        let i = 6 + b.len() as int;
        assert(s[i] == d1[i - (7 + a.len() as int)]);
    }
    assert(a.len() == b.len());
    assert forall|i: int| 0 <= i < a.len() implies a[i] == b[i] by {
        assert(s[6 + i] == a[i]);
        assert(lease_id_spec(b, m)[6 + i] == b[i]);
    }
    assert(a =~= b);
    assert(d1 =~= s.subrange(7 + a.len() as int, len));
    assert(d2 =~= s.subrange(7 + b.len() as int, len));
    lemma_decimal_injective(n as nat, m as nat);
}

/// Some row holds attempt `a`.
pub open spec fn has_attempt(rows: Seq<AttemptRow>, a: Seq<char>) -> bool {
    exists|i: int| 0 <= i < rows.len() && rows[i].record.attempt_id@ == a
}

/// Attempt `a` holds a lease that has not expired at `now`.
pub open spec fn live_lease_for(rows: Seq<AttemptRow>, a: Seq<char>, now: i64) -> bool {
    exists|i: int| 0 <= i < rows.len() && rows[i].record.attempt_id@ == a && lease_live(rows[i], now)
}

/// Attempt `a` exists and its status lets it be leased.
pub open spec fn leasable(rows: Seq<AttemptRow>, a: Seq<char>) -> bool {
    exists|i: int|
        0 <= i < rows.len() && rows[i].record.attempt_id@ == a && (rows[i].record.status
            == AttemptExecutionStatus::Queued || rows[i].record.status
            == AttemptExecutionStatus::RetryBackoff)
}

/// A lease on attempt `a` is granted at `now`: no live lease on it, and the
/// attempt exists with a leasable status.
pub open spec fn upsert_allowed(rows: Seq<AttemptRow>, a: Seq<char>, now: i64) -> bool {
    !live_lease_for(rows, a, now) && leasable(rows, a)
}

/// The row after lease `l` was granted on it.
pub open spec fn leased_row(row: AttemptRow, l: LeaseRecord) -> AttemptRow {
    AttemptRow {
        record: AttemptDispatchRecord { status: AttemptExecutionStatus::Leased, ..row.record },
        lease: Some(l),
        deadline: row.deadline,
    }
}

/// The rows after lease `l` was granted on attempt `a`.
pub open spec fn rows_after_upsert(rows: Seq<AttemptRow>, a: Seq<char>, l: LeaseRecord) -> Seq<AttemptRow> {
    rows.map_values(|row: AttemptRow| if row.record.attempt_id@ == a { leased_row(row, l) } else { row })
}

/// The row holds the lease `id`.
pub open spec fn holds_lease(row: AttemptRow, id: Seq<char>) -> bool {
    match row.lease {
        Some(l) => l.lease_id@ == id,
        None => false,
    }
}

/// The lease counter after a lease was granted; it stops at its maximum.
/// Lease ids stay unique across attempts whatever the counter, since an id
/// names its attempt.
pub open spec fn bump(n: u64) -> u64 {
    if n < u64::MAX {
        (n + 1) as u64
    } else {
        n
    }
}

/// The outcome of granting attempt `a` to worker `w` until `expires` at time
/// `now`, from rows `rows` and lease counter `next` to `rows2` and `next2`:
/// success exactly when the grant is allowed, with the new lease in place;
/// otherwise a contention error and nothing changed.
pub open spec fn upsert_outcome(
    rows: Seq<AttemptRow>,
    next: u64,
    rows2: Seq<AttemptRow>,
    next2: u64,
    now: i64,
    a: Seq<char>,
    w: Seq<char>,
    expires: i64,
    r: Result<LeaseRecord, KernelError>,
) -> bool {
    &&& r is Ok <==> upsert_allowed(rows, a, now)
    &&& r matches Ok(l) ==> {
        &&& l.lease_id@ == lease_id_spec(a, next)
        &&& l.attempt_id@ == a
        &&& l.worker_id@ == w
        &&& l.lease_expires_at == expires
        &&& l.heartbeat_at == now
        &&& l.version == 1
        &&& rows2 == rows_after_upsert(rows, a, l)
        &&& next2 == bump(next)
    }
    &&& r is Err ==> {
        &&& rows2 == rows
        &&& next2 == next
        &&& (r matches Err(KernelError::Contention(_)))
    }
}

/// The outcome of a heartbeat on lease `id` at `at`, extending it to
/// `expires`, from rows `rows` to `rows2`.
pub open spec fn heartbeat_outcome(
    rows: Seq<AttemptRow>,
    rows2: Seq<AttemptRow>,
    id: Seq<char>,
    at: i64,
    expires: i64,
    r: Result<(), KernelError>,
) -> bool {
    &&& r is Ok <==> heartbeat_allowed(rows, id)
    &&& r is Ok ==> rows2 == rows.map_values(|row: AttemptRow| heartbeat_row(row, id, at, expires))
    &&& r is Err ==> rows2 == rows
    &&& !lease_held(rows, id) ==> (r matches Err(KernelError::Contention(_)))
    &&& lease_held(rows, id) && r is Err ==> (r matches Err(KernelError::Driver(_)))
}

/// Some row holds the lease `id`.
pub open spec fn lease_held(rows: Seq<AttemptRow>, id: Seq<char>) -> bool {
    exists|i: int| 0 <= i < rows.len() && #[trigger] holds_lease(rows[i], id)
}

/// Some row holds the lease `id`, and its version can still grow.
pub open spec fn heartbeat_allowed(rows: Seq<AttemptRow>, id: Seq<char>) -> bool {
    exists|i: int|
        0 <= i < rows.len() && #[trigger] holds_lease(rows[i], id) && rows[i].lease->0.version
            < u64::MAX
}

/// The row after a heartbeat on lease `id`.
pub open spec fn heartbeat_row(row: AttemptRow, id: Seq<char>, at: i64, expires: i64) -> AttemptRow {
    match row.lease {
        Some(l) => if l.lease_id@ == id {
            AttemptRow {
                lease: Some(
                    LeaseRecord {
                        heartbeat_at: at,
                        lease_expires_at: expires,
                        version: (l.version + 1) as u64,
                        ..l
                    },
                ),
                ..row
            }
        } else {
            row
        },
        None => row,
    }
}

/// The row after leases that expired before `cutoff` were removed: its lease
/// is dropped and, unless the attempt is terminal, it is queued again.
pub open spec fn expire_row(row: AttemptRow, cutoff: i64) -> AttemptRow {
    if lease_expired(row, cutoff) {
        AttemptRow {
            record: if row.record.status.terminal() {
                row.record
            } else {
                AttemptDispatchRecord { status: AttemptExecutionStatus::Queued, ..row.record }
            },
            lease: None,
            deadline: row.deadline,
        }
    } else {
        row
    }
}

/// The attempt is running and its deadline passed before `now`.
pub open spec fn timed_out(row: AttemptRow, now: i64) -> bool {
    row.record.status == AttemptExecutionStatus::Running && match row.deadline {
        Some(d) => d < now,
        None => false,
    }
}

/// The row after the timeout sweep at `now`: a timed-out attempt fails.
pub open spec fn timeout_row(row: AttemptRow, now: i64) -> AttemptRow {
    if timed_out(row, now) {
        AttemptRow {
            record: AttemptDispatchRecord { status: AttemptExecutionStatus::Failed, ..row.record },
            ..row
        }
    } else {
        row
    }
}

/// The row's lease, if any, names the row's attempt, and its identifier is
/// one this repository generates for that attempt.
pub open spec fn lease_names_row(row: AttemptRow) -> bool {
    match row.lease {
        Some(l) => l.attempt_id@ == row.record.attempt_id@ && exists|n: u64|
            l.lease_id@ == #[trigger] lease_id_spec(l.attempt_id@, n),
        None => true,
    }
}

/// The row after its attempt started running with an optional deadline.
pub open spec fn started_row(row: AttemptRow, deadline: Option<i64>) -> AttemptRow {
    AttemptRow {
        record: AttemptDispatchRecord { status: AttemptExecutionStatus::Running, ..row.record },
        lease: row.lease,
        deadline,
    }
}

/// The row after its attempt reached terminal status `status`; its lease is
/// released.
pub open spec fn finished_row(row: AttemptRow, status: AttemptExecutionStatus) -> AttemptRow {
    AttemptRow { record: AttemptDispatchRecord { status, ..row.record }, lease: None, deadline: row.deadline }
}

/// Attempt `a` exists with status `status`.
pub open spec fn has_status(rows: Seq<AttemptRow>, a: Seq<char>, status: AttemptExecutionStatus) -> bool {
    exists|i: int| 0 <= i < rows.len() && rows[i].record.attempt_id@ == a && rows[i].record.status == status
}

/// Attempt `a` exists and has not reached a terminal status.
pub open spec fn in_flight(rows: Seq<AttemptRow>, a: Seq<char>) -> bool {
    exists|i: int| 0 <= i < rows.len() && rows[i].record.attempt_id@ == a && !rows[i].record.status.terminal()
}

/// The row's lease, if any, carries a number the counter `next` has passed
/// (any number once the counter has stopped at its maximum).
pub open spec fn lease_numbered(row: AttemptRow, next: u64) -> bool {
    row.lease is Some ==> exists|n: u64| #[trigger] numbered_as(row.lease->0, next, n)
}

/// Lease `l` carries number `n`, which the counter `next` has passed.
pub open spec fn numbered_as(l: LeaseRecord, next: u64, n: u64) -> bool {
    (n < next || next == u64::MAX) && l.lease_id@ == lease_id_spec(l.attempt_id@, n)
}

/// Every lease carries a number the counter `next` has passed.
pub open spec fn leases_numbered(rows: Seq<AttemptRow>, next: u64) -> bool {
    forall|i: int| 0 <= i < rows.len() ==> #[trigger] lease_numbered(rows[i], next)
}

/// While the lease counter has not stopped, the next identifier for
/// attempt `a` differs from every lease identifier held now, including one
/// that `a` itself held before.
pub proof fn lemma_next_lease_id_fresh(rows: Seq<AttemptRow>, next: u64, a: Seq<char>)
    requires
        leases_numbered(rows, next),
        next < u64::MAX,
    ensures
        forall|k: int|
            0 <= k < rows.len() && rows[k].lease is Some ==> rows[k].lease->0.lease_id@ != lease_id_spec(a, next),
{
    assert forall|k: int| 0 <= k < rows.len() && rows[k].lease is Some implies rows[k].lease->0.lease_id@
        != lease_id_spec(a, next) by {
        assert(lease_numbered(rows[k], next));
        let l = rows[k].lease->0;
        let n = choose|n: u64| numbered_as(l, next, n);
        if l.lease_id@ == lease_id_spec(a, next) {
            lemma_lease_id_names_attempt(l.attempt_id@, n, a, next);
        }
    }
}

proof fn lemma_grant_keeps_names(
    old_rows: Seq<AttemptRow>,
    new_rows: Seq<AttemptRow>,
    i: int,
    lease: LeaseRecord,
    next0: u64,
)
    requires
        forall|k: int| 0 <= k < old_rows.len() ==> #[trigger] lease_names_row(old_rows[k]),
        new_rows.len() == old_rows.len(),
        0 <= i < old_rows.len(),
        new_rows[i].lease == Some(lease),
        new_rows[i].record.attempt_id@ == lease.attempt_id@,
        lease.lease_id@ == lease_id_spec(lease.attempt_id@, next0),
        forall|k: int| 0 <= k < new_rows.len() && k != i ==> new_rows[k] == old_rows[k],
    ensures
        forall|k: int| 0 <= k < new_rows.len() ==> #[trigger] lease_names_row(new_rows[k]),
{
    assert forall|k: int| 0 <= k < new_rows.len() implies #[trigger] lease_names_row(new_rows[k]) by {
        if k == i {
            assert(new_rows[k].lease->0 == lease);
            assert(lease.lease_id@ == lease_id_spec(lease.attempt_id@, next0));
        } else {
            assert(lease_names_row(old_rows[k]));
        }
    }
}

proof fn lemma_grant_keeps_numbering(
    old_rows: Seq<AttemptRow>,
    new_rows: Seq<AttemptRow>,
    i: int,
    lease: LeaseRecord,
    next0: u64,
    next1: u64,
)
    requires
        leases_numbered(old_rows, next0),
        new_rows.len() == old_rows.len(),
        0 <= i < old_rows.len(),
        new_rows[i].lease == Some(lease),
        lease.lease_id@ == lease_id_spec(lease.attempt_id@, next0),
        forall|k: int| 0 <= k < new_rows.len() && k != i ==> new_rows[k] == old_rows[k],
        next1 == bump(next0),
    ensures
        leases_numbered(new_rows, next1),
{
    assert forall|k: int| 0 <= k < new_rows.len() implies #[trigger] lease_numbered(new_rows[k], next1) by {
        if k == i {
            assert(next0 < next1 || next1 == u64::MAX);
            assert(numbered_as(lease, next1, next0));
            assert(new_rows[k].lease->0 == lease);
            assert(numbered_as(new_rows[k].lease->0, next1, next0));
            assert(lease_numbered(new_rows[k], next1));
        } else {
            assert(lease_numbered(old_rows[k], next0));
            if old_rows[k].lease is Some {
                let l = old_rows[k].lease->0;
                let n = choose|n: u64| numbered_as(l, next0, n);
                assert(numbered_as(l, next1, n));
                assert(lease_numbered(new_rows[k], next1));
            }
        }
    }
}

/// Attempt ids are unique, each lease names its row's attempt, and lease
/// ids are unique.
pub open spec fn rows_wf(rows: Seq<AttemptRow>) -> bool {
    &&& forall|i: int, j: int|
        0 <= i < rows.len() && 0 <= j < rows.len() && i != j ==> rows[i].record.attempt_id@
            != rows[j].record.attempt_id@
    &&& forall|i: int| 0 <= i < rows.len() ==> #[trigger] lease_names_row(rows[i])
    &&& forall|i: int, j: int|
        0 <= i < rows.len() && 0 <= j < rows.len() && i != j && rows[i].lease is Some
            && rows[j].lease is Some ==> rows[i].lease->0.lease_id@ != rows[j].lease->0.lease_id@
}

/// Row `k` is dispatchable and sorts after the last listed row, if any.
pub open spec fn after_last(rows: Seq<AttemptRow>, now: i64, last: Option<usize>, k: int) -> bool {
    dispatchable(rows[k], now) && match last {
        Some(l) => key_lt(rows[l as int].record, rows[k].record),
        None => true,
    }
}

fn row_dispatchable(row: &AttemptRow, now: i64) -> (r: bool)
    ensures
        r == dispatchable(*row, now),
{
    let live = match &row.lease {
        Some(l) => l.lease_expires_at >= now,
        None => false,
    };
    if live {
        return false;
    }
    match row.record.status {
        AttemptExecutionStatus::Queued => true,
        AttemptExecutionStatus::RetryBackoff => match row.record.retry_at {
            Some(t) => t <= now,
            None => true,
        },
        _ => false,
    }
}

fn record_key_less(a: &AttemptDispatchRecord, b: &AttemptDispatchRecord) -> (r: bool)
    ensures
        r == key_lt(*a, *b),
{
    a.attempt_no < b.attempt_no || (a.attempt_no == b.attempt_no && lex_less(
        a.attempt_id.as_str(),
        b.attempt_id.as_str(),
    ))
}

/// Attempt and lease state held in memory.
pub struct InMemoryRuntimeRepository {
    rows: Vec<AttemptRow>,
    next_lease_no: u64,
}

impl InMemoryRuntimeRepository {
    /// The stored rows, in insertion order.
    pub closed spec fn rows(&self) -> Seq<AttemptRow> {
        self.rows@
    }

    /// The number that the next granted lease's identifier carries.
    pub closed spec fn next_lease_no(&self) -> u64 {
        self.next_lease_no
    }

    /// The rows are well formed, and every lease carries a number the lease
    /// counter has passed.
    pub open spec fn wf(&self) -> bool {
        rows_wf(self.rows()) && leases_numbered(self.rows(), self.next_lease_no())
    }

    /// An empty repository.
    pub fn new() -> (r: InMemoryRuntimeRepository)
        ensures
            r.wf(),
            r.rows() == Seq::<AttemptRow>::empty(),
            r.next_lease_no() == 1,
    {
        InMemoryRuntimeRepository { rows: Vec::new(), next_lease_no: 1 }
    }

    fn find_attempt(&self, a: &String) -> (r: Option<usize>)
        requires
            self.wf(),
        ensures
            match r {
                Some(i) => i < self.rows@.len() && self.rows@[i as int].record.attempt_id@ == a@,
                None => !has_attempt(self.rows@, a@),
            },
    {
        for i in 0..self.rows.len()
            invariant
                forall|k: int| 0 <= k < i ==> self.rows@[k].record.attempt_id@ != a@,
        {
            if self.rows[i].record.attempt_id == *a {
                return Some(i);
            }
        }
        None
    }

    /// Adds a queued attempt of run `run_id` unless attempt `attempt_id`
    /// already exists, in which case nothing changes. Attempt numbers count
    /// up from 1 within each run.
    pub fn enqueue_attempt(&mut self, attempt_id: &str, run_id: &str) -> (r: Result<(), KernelError>)
        requires
            old(self).wf(),
        ensures
            final(self).wf(),
            final(self).next_lease_no() == old(self).next_lease_no(),
            has_attempt(old(self).rows(), attempt_id@) ==> r is Ok && final(self).rows() == old(self).rows(),
            !has_attempt(old(self).rows(), attempt_id@) ==> {
                &&& r is Ok <==> count_of_run(old(self).rows(), run_id@) < u32::MAX
                &&& r is Ok ==> {
                    let rows = final(self).rows();
                    let last = rows.last().record;
                    &&& rows.len() == old(self).rows().len() + 1
                    &&& rows.drop_last() == old(self).rows()
                    &&& last.attempt_id@ == attempt_id@
                    &&& last.run_id@ == run_id@
                    &&& last.attempt_no == count_of_run(old(self).rows(), run_id@) + 1
                    &&& last.status == AttemptExecutionStatus::Queued
                    &&& last.retry_at is None
                    &&& rows.last().lease is None
                    &&& rows.last().deadline is None
                }
                &&& r is Err ==> final(self).rows() == old(self).rows() && r matches Err(KernelError::Driver(_))
            },
    {
        let a = attempt_id.to_owned();
        if self.find_attempt(&a).is_some() {
            return Ok(());
        }
        let run = run_id.to_owned();
        let n = self.rows.len();
        let mut same_run: u64 = 0;
        for i in 0..n
            invariant
                n == self.rows@.len(),
                same_run == count_of_run(self.rows@.take(i as int), run@),
                same_run <= i,
        {
            if self.rows[i].record.run_id == run {
                same_run = same_run + 1;
            }
            assert(self.rows@.take(i + 1).drop_last() =~= self.rows@.take(i as int));
        }
        assert(self.rows@.take(n as int) =~= self.rows@);
        if same_run >= u32::MAX as u64 {
            return Err(KernelError::Driver("attempt number overflow".to_string()));
        }
        let row = AttemptRow {
            record: AttemptDispatchRecord {
                attempt_id: a,
                run_id: run,
                attempt_no: (same_run + 1) as u32,
                status: AttemptExecutionStatus::Queued,
                retry_at: None,
            },
            lease: None,
            deadline: None,
        };
        let ghost old_rows = self.rows@;
        self.rows.push(row);
        assert(self.rows@.drop_last() =~= old_rows);
        Ok(())
    }

    /// The lease currently held on attempt `attempt_id`, expired or not.
    pub fn get_lease_for_attempt(&self, attempt_id: &str) -> (r: Result<Option<LeaseRecord>, KernelError>)
        requires
            self.wf(),
        ensures
            r matches Ok(found) && match found {
                Some(l) => exists|i: int|
                    0 <= i < self.rows().len() && self.rows()[i].record.attempt_id@ == attempt_id@
                        && self.rows()[i].lease == Some(l),
                None => forall|i: int|
                    0 <= i < self.rows().len() && self.rows()[i].record.attempt_id@ == attempt_id@
                        ==> self.rows()[i].lease is None,
            },
    {
        let a = attempt_id.to_owned();
        match self.find_attempt(&a) {
            Some(i) => match &self.rows[i].lease {
                Some(l) => {
                    let c = l.duplicate();
                    assert(self.rows()[i as int].lease == Some(c));
                    Ok(Some(c))
                },
                None => Ok(None),
            },
            None => Ok(None),
        }
    }

    /// Drops every lease that expired before `cutoff` and queues its attempt
    /// again unless the attempt is terminal, as one unit. Returns how many
    /// leases were dropped.
    pub fn expire_leases_and_requeue(&mut self, cutoff: i64) -> (r: Result<u64, KernelError>)
        requires
            old(self).wf(),
        ensures
            final(self).wf(),
            final(self).next_lease_no() == old(self).next_lease_no(),
            final(self).rows() == old(self).rows().map_values(|row: AttemptRow| expire_row(row, cutoff)),
            r == Ok::<u64, KernelError>(count_expired(old(self).rows(), cutoff) as u64),
    {
        let ghost old_rows = self.rows@;
        let n = self.rows.len();
        let mut count: u64 = 0;
        for i in 0..n
            invariant
                n == old_rows.len(),
                self.rows@.len() == n,
                self.next_lease_no == old(self).next_lease_no,
                old_rows == old(self).rows@,
                forall|k: int| 0 <= k < i ==> self.rows@[k] == expire_row(old_rows[k], cutoff),
                forall|k: int| i <= k < n ==> self.rows@[k] == old_rows[k],
                count == count_expired(old_rows.take(i as int), cutoff),
                count <= i,
        {
            let expired = match &self.rows[i].lease {
                Some(l) => l.lease_expires_at < cutoff,
                None => false,
            };
            if expired {
                let terminal = self.rows[i].record.status.is_terminal();
                let mut record = self.rows[i].record.duplicate();
                if !terminal {
                    record.status = AttemptExecutionStatus::Queued;
                }
                let deadline = self.rows[i].deadline;
                self.rows.set(i, AttemptRow { record, lease: None, deadline });
                count = count + 1;
            }
            assert(old_rows.take(i + 1).drop_last() =~= old_rows.take(i as int));
        }
        assert(old_rows.take(n as int) =~= old_rows);
        assert(self.rows@ =~= old_rows.map_values(|row: AttemptRow| expire_row(row, cutoff)));
        Ok(count)
    }

    /// Fails every running attempt whose deadline passed before `now`, as one
    /// unit. Returns how many attempts were failed.
    pub fn transition_timed_out_attempts(&mut self, now: i64) -> (r: Result<u64, KernelError>)
        requires
            old(self).wf(),
        ensures
            final(self).wf(),
            final(self).next_lease_no() == old(self).next_lease_no(),
            final(self).rows() == old(self).rows().map_values(|row: AttemptRow| timeout_row(row, now)),
            r == Ok::<u64, KernelError>(count_timed_out(old(self).rows(), now) as u64),
    {
        let ghost old_rows = self.rows@;
        let n = self.rows.len();
        let mut count: u64 = 0;
        for i in 0..n
            invariant
                n == old_rows.len(),
                self.rows@.len() == n,
                self.next_lease_no == old(self).next_lease_no,
                old_rows == old(self).rows@,
                forall|k: int| 0 <= k < i ==> self.rows@[k] == timeout_row(old_rows[k], now),
                forall|k: int|
                    0 <= k < n ==> self.rows@[k].record.attempt_id == old_rows[k].record.attempt_id
                        && self.rows@[k].lease == old_rows[k].lease,
                forall|k: int| i <= k < n ==> self.rows@[k] == old_rows[k],
                count == count_timed_out(old_rows.take(i as int), now),
                count <= i,
        {
            let late = self.rows[i].record.status == AttemptExecutionStatus::Running && match self.rows[i].deadline {
                Some(d) => d < now,
                None => false,
            };
            if late {
                let mut record = self.rows[i].record.duplicate();
                record.status = AttemptExecutionStatus::Failed;
                let lease = match &self.rows[i].lease {
                    Some(l) => Some(l.duplicate()),
                    None => None,
                };
                let deadline = self.rows[i].deadline;
                self.rows.set(i, AttemptRow { record, lease, deadline });
                count = count + 1;
            }
            assert(old_rows.take(i + 1).drop_last() =~= old_rows.take(i as int));
        }
        assert(old_rows.take(n as int) =~= old_rows);
        assert(self.rows@ =~= old_rows.map_values(|row: AttemptRow| timeout_row(row, now)));
        assert forall|k: int| 0 <= k < n implies #[trigger] lease_names_row(self.rows@[k]) by {
            assert(lease_names_row(old_rows[k]));
        }
        assert forall|k: int| 0 <= k < self.rows@.len() implies #[trigger] lease_numbered(
            self.rows@[k],
            self.next_lease_no,
        ) by {
            assert(lease_numbered(old_rows[k], self.next_lease_no));
        }
        Ok(count)
    }

    fn find_lease(&self, id: &String) -> (r: Option<usize>)
        requires
            self.wf(),
        ensures
            match r {
                Some(i) => i < self.rows@.len() && holds_lease(self.rows@[i as int], id@),
                None => !lease_held(self.rows@, id@),
            },
    {
        for i in 0..self.rows.len()
            invariant
                forall|k: int| 0 <= k < i ==> !holds_lease(self.rows@[k], id@),
        {
            let hit = match &self.rows[i].lease {
                Some(l) => l.lease_id == *id,
                None => false,
            };
            if hit {
                return Some(i);
            }
        }
        None
    }

    /// Records a heartbeat on lease `lease_id`: sets its heartbeat time and
    /// expiry and bumps its version. Fails with a contention error when no
    /// attempt holds that lease any more.
    pub fn heartbeat_lease(&mut self, lease_id: &str, heartbeat_at: i64, lease_expires_at: i64) -> (r: Result<(), KernelError>)
        requires
            old(self).wf(),
        ensures
            final(self).wf(),
            final(self).next_lease_no() == old(self).next_lease_no(),
            heartbeat_outcome(old(self).rows(), final(self).rows(), lease_id@, heartbeat_at, lease_expires_at, r),
    {
        let id = lease_id.to_owned();
        let j = match self.find_lease(&id) {
            Some(j) => j,
            None => {
                let mut m = "lease not found for heartbeat: ".to_owned();
                m.append(lease_id);
                return Err(KernelError::Contention(m));
            },
        };
        let ghost old_rows = self.rows@;
        let l = match &self.rows[j].lease {
            Some(l) => l.duplicate(),
            None => {
                return Err(KernelError::Driver("lease row vanished".to_string()));
            },
        };
        if l.version == u64::MAX {
            assert forall|k: int| 0 <= k < old_rows.len() && #[trigger] holds_lease(old_rows[k], lease_id@)
                implies old_rows[k].lease->0.version == u64::MAX by {
                if k != j {
                    assert(old_rows[k].lease->0.lease_id@ != old_rows[j as int].lease->0.lease_id@);
                }
            }
            return Err(KernelError::Driver("lease version overflow".to_string()));
        }
        let updated = LeaseRecord {
            lease_id: l.lease_id,
            attempt_id: l.attempt_id,
            worker_id: l.worker_id,
            lease_expires_at,
            heartbeat_at,
            version: l.version + 1,
        };
        let record = self.rows[j].record.duplicate();
        let deadline = self.rows[j].deadline;
        self.rows.set(j, AttemptRow { record, lease: Some(updated), deadline });
        assert forall|k: int| 0 <= k < old_rows.len() implies self.rows@[k] == heartbeat_row(
            old_rows[k],
            lease_id@,
            heartbeat_at,
            lease_expires_at,
        ) by {
            if k != j {
                if old_rows[k].lease is Some {
                    assert(old_rows[k].lease->0.lease_id@ != old_rows[j as int].lease->0.lease_id@);
                }
            }
        }
        assert(self.rows@ =~= old_rows.map_values(
            |row: AttemptRow| heartbeat_row(row, lease_id@, heartbeat_at, lease_expires_at),
        ));
        assert(holds_lease(old_rows[j as int], lease_id@));
        assert forall|k: int| 0 <= k < self.rows@.len() implies #[trigger] lease_names_row(self.rows@[k]) by {
            assert(lease_names_row(old_rows[k]));
        }
        assert forall|k: int| 0 <= k < self.rows@.len() implies #[trigger] lease_numbered(
            self.rows@[k],
            self.next_lease_no,
        ) by {
            assert(lease_numbered(old_rows[k], self.next_lease_no));
            if old_rows[k].lease is Some {
                let next = self.next_lease_no;
                let l = old_rows[k].lease->0;
                let n = choose|n: u64| numbered_as(l, next, n);
                assert(self.rows@[k].lease->0.lease_id == l.lease_id);
                assert(self.rows@[k].lease->0.attempt_id == l.attempt_id);
                assert(numbered_as(self.rows@[k].lease->0, next, n));
            }
        }
        Ok(())
    }

    /// Grants attempt `attempt_id` to worker `worker_id` until
    /// `lease_expires_at`, as one unit, at time `now`: a lease on the attempt
    /// that expired before `now` is dropped first; the grant fails with a
    /// contention error when a live lease remains, or when the attempt is
    /// missing or not queued or in retry backoff. On success the attempt
    /// becomes leased under a fresh identifier `lease-<attempt>-<n>`.
    pub fn upsert_lease_at(&mut self, now: i64, attempt_id: &str, worker_id: &str, lease_expires_at: i64) -> (r: Result<LeaseRecord, KernelError>)
        requires
            old(self).wf(),
        ensures
            final(self).wf(),
            r is Ok && old(self).next_lease_no() < u64::MAX ==> forall|k: int|
                0 <= k < old(self).rows().len() && old(self).rows()[k].lease is Some ==> old(
                    self,
                ).rows()[k].lease->0.lease_id@ != r->Ok_0.lease_id@,
            upsert_outcome(
                old(self).rows(),
                old(self).next_lease_no(),
                final(self).rows(),
                final(self).next_lease_no(),
                now,
                attempt_id@,
                worker_id@,
                lease_expires_at,
                r,
            ),
    {
        let a = attempt_id.to_owned();
        let mut lease_id = "lease-".to_owned();
        lease_id.append(attempt_id);
        lease_id.append("-");
        push_decimal(&mut lease_id, self.next_lease_no);
        let ghost id = lease_id_spec(attempt_id@, self.next_lease_no);
        assert(lease_id@ =~= id);
        let ghost old_rows = self.rows@;
        let found = self.find_attempt(&a);
        if let Some(i) = found {
            let live = match &self.rows[i].lease {
                Some(l) => l.lease_expires_at >= now,
                None => false,
            };
            if live {
                let mut m = "active lease already exists for attempt: ".to_owned();
                m.append(attempt_id);
                return Err(KernelError::Contention(m));
            }
            assert forall|k: int| 0 <= k < old_rows.len() && old_rows[k].record.attempt_id@ == attempt_id@
                implies !lease_live(old_rows[k], now) by {
                if k != i {
                    assert(old_rows[k].record.attempt_id@ != old_rows[i as int].record.attempt_id@);
                }
            }
        }
        let i = match found {
            Some(i) => i,
            None => {
                let mut m = "attempt is not dispatchable for lease: ".to_owned();
                m.append(attempt_id);
                return Err(KernelError::Contention(m));
            },
        };
        let status = self.rows[i].record.status;
        if !(status == AttemptExecutionStatus::Queued || status == AttemptExecutionStatus::RetryBackoff) {
            assert forall|k: int| 0 <= k < old_rows.len() && old_rows[k].record.attempt_id@ == attempt_id@
                implies !(old_rows[k].record.status == AttemptExecutionStatus::Queued
                    || old_rows[k].record.status == AttemptExecutionStatus::RetryBackoff) by {
                if k != i {
                    assert(old_rows[k].record.attempt_id@ != old_rows[i as int].record.attempt_id@);
                }
            }
            let mut m = "attempt is not dispatchable for lease: ".to_owned();
            m.append(attempt_id);
            return Err(KernelError::Contention(m));
        }
        let lease = LeaseRecord {
            lease_id,
            attempt_id: a,
            worker_id: worker_id.to_owned(),
            lease_expires_at,
            heartbeat_at: now,
            version: 1,
        };
        let mut record = self.rows[i].record.duplicate();
        record.status = AttemptExecutionStatus::Leased;
        let deadline = self.rows[i].deadline;
        self.rows.set(i, AttemptRow { record, lease: Some(lease.duplicate()), deadline });
        if self.next_lease_no < u64::MAX {
            self.next_lease_no = self.next_lease_no + 1;
        }
        assert forall|k: int| 0 <= k < old_rows.len() implies self.rows@[k] == (if old_rows[k].record.attempt_id@
            == attempt_id@ {
            leased_row(old_rows[k], lease)
        } else {
            old_rows[k]
        }) by {
            if k != i {
                assert(old_rows[k].record.attempt_id@ != old_rows[i as int].record.attempt_id@);
            }
        }
        assert(self.rows@ =~= rows_after_upsert(old_rows, attempt_id@, lease));
        assert forall|k: int| 0 <= k < self.rows@.len() && k != i implies self.rows@[k] == old_rows[k] by {
            assert(old_rows[k].record.attempt_id@ != old_rows[i as int].record.attempt_id@);
        }
        proof {
            lemma_grant_keeps_numbering(old_rows, self.rows@, i as int, lease, old(self).next_lease_no, self.next_lease_no);
            assert(self.rows@[i as int].record.attempt_id@ == attempt_id@);
            lemma_grant_keeps_names(old_rows, self.rows@, i as int, lease, old(self).next_lease_no);
            if old(self).next_lease_no < u64::MAX {
                lemma_next_lease_id_fresh(old_rows, old(self).next_lease_no, attempt_id@);
            }
        }
        assert forall|p: int, q: int|
            0 <= p < self.rows@.len() && 0 <= q < self.rows@.len() && p != q && self.rows@[p].lease is Some
                && self.rows@[q].lease is Some implies self.rows@[p].lease->0.lease_id@
            != self.rows@[q].lease->0.lease_id@ by {
            if p == i || q == i {
                let o = if p == i { q } else { p };
                assert(lease_names_row(old_rows[o]));
                let l = old_rows[o].lease->0;
                let n = choose|n: u64| l.lease_id@ == lease_id_spec(l.attempt_id@, n);
                assert(old_rows[o].record.attempt_id@ != old_rows[i as int].record.attempt_id@);
                if l.lease_id@ == id {
                    lemma_lease_id_names_attempt(attempt_id@, old(self).next_lease_no, l.attempt_id@, n);
                }
            }
        }
        Ok(lease)
    }

    /// Up to `limit` attempts dispatchable at `now`, in dispatch order
    /// (attempt number, then attempt id, ascending).
    pub fn list_dispatchable_attempts(&self, now: i64, limit: usize) -> (r: Result<Vec<AttemptDispatchRecord>, KernelError>)
        requires
            self.wf(),
        ensures
            r matches Ok(v) && listing(self.rows(), now, limit as nat, v@),
    {
        let rows = &self.rows;
        let n = rows.len();
        let mut out: Vec<AttemptDispatchRecord> = Vec::new();
        let ghost mut picked: Seq<int> = Seq::empty();
        let mut last: Option<usize> = None;
        let mut done = false;
        while out.len() < limit && !done
            invariant
                n == rows@.len(),
                rows_wf(rows@),
                out.len() == picked.len(),
                out.len() <= limit,
                forall|j: int|
                    0 <= j < picked.len() ==> 0 <= #[trigger] picked[j] < n && dispatchable(rows@[picked[j]], now)
                        && out@[j] == rows@[picked[j]].record,
                forall|j: int, k: int| 0 <= j < k < out.len() ==> key_lt(out@[j], out@[k]),
                last is None <==> out.len() == 0,
                last matches Some(l) ==> l < n && l == picked.last(),
                forall|i: int|
                    0 <= i < n && dispatchable(rows@[i], now) ==> (exists|j: int| 0 <= j < picked.len() && picked[j] == i)
                        || (!done && after_last(rows@, now, last, i)),
            decreases limit - out.len() + if done { 0int } else { 1int },
        {
            let mut best: Option<usize> = None;
            for i in 0..n
                invariant
                    n == rows@.len(),
                    rows_wf(rows@),
                    last matches Some(l) ==> l < n,
                    best matches Some(b) ==> b < i && after_last(rows@, now, last, b as int),
                    forall|k: int|
                        0 <= k < i && after_last(rows@, now, last, k) ==> (best matches Some(b) && (k == b
                            || key_lt(rows@[b as int].record, rows@[k].record))),
            {
                if row_dispatchable(&rows[i], now) {
                    let above = match last {
                        None => true,
                        Some(l) => record_key_less(&rows[l].record, &rows[i].record),
                    };
                    if above {
                        match best {
                            None => {
                                best = Some(i);
                            },
                            Some(b) => {
                                if record_key_less(&rows[i].record, &rows[b].record) {
                                    proof {
                                        assert forall|k: int|
                                            0 <= k < i && after_last(rows@, now, last, k) implies (k == i || key_lt(
                                                rows@[i as int].record,
                                                rows@[k].record,
                                            )) by {
                                            if k != b {
                                                lemma_key_transitive(
                                                    rows@[i as int].record,
                                                    rows@[b as int].record,
                                                    rows@[k].record,
                                                );
                                            }
                                        }
                                    }
                                    best = Some(i);
                                } else {
                                    proof {
                                        assert(rows@[i as int].record.attempt_id@ != rows@[b as int].record.attempt_id@);
                                        lemma_key_total(rows@[i as int].record, rows@[b as int].record);
                                    }
                                }
                            },
                        }
                    }
                }
            }
            match best {
                None => {
                    proof {
                        assert forall|i: int|
                            0 <= i < n && dispatchable(rows@[i], now) implies (exists|j: int|
                                0 <= j < picked.len() && picked[j] == i) by {
                            if !(exists|j: int| 0 <= j < picked.len() && picked[j] == i) {
                                assert(after_last(rows@, now, last, i));
                            }
                        }
                    }
                    done = true;
                },
                Some(b) => {
                    proof {
                        assert forall|j: int| 0 <= j < out.len() implies key_lt(out@[j], rows@[b as int].record) by {
                            if j < out.len() - 1 {
                                lemma_key_transitive(out@[j], out@[out.len() - 1], rows@[b as int].record);
                            }
                        }
                    }
                    let ghost old_picked = picked;
                    let ghost old_last = last;
                    out.push(rows[b].record.duplicate());
                    proof {
                        picked = picked.push(b as int);
                    }
                    last = Some(b);
                    proof {
                        assert forall|i: int|
                            0 <= i < n && dispatchable(rows@[i], now) implies (exists|j: int|
                                0 <= j < picked.len() && picked[j] == i) || (!done && after_last(rows@, now, last, i)) by {
                            if exists|j: int| 0 <= j < old_picked.len() && old_picked[j] == i {
                                let j = choose|j: int| 0 <= j < old_picked.len() && old_picked[j] == i;
                                assert(picked[j] == i);
                            } else if i == b {
                                assert(picked[old_picked.len() as int] == i);
                            } else {
                                assert(after_last(rows@, now, old_last, i));
                            }
                        }
                    }
                },
            }
        }
        proof {
            let v = out@;
            assert forall|j: int| 0 <= j < v.len() implies #[trigger] dispatchable_record(rows@, now, v[j]) by {
                assert(0 <= picked[j] < n);
            }
            assert forall|i: int|
                0 <= i < n && dispatchable(rows@[i], now) && !(exists|j: int| 0 <= j < v.len() && v[j] == rows@[i].record) implies {
                &&& v.len() == limit
                &&& forall|j: int| 0 <= j < v.len() ==> key_lt(v[j], rows@[i].record)
            } by {
                if exists|j: int| 0 <= j < picked.len() && picked[j] == i {
                    let j = choose|j: int| 0 <= j < picked.len() && picked[j] == i;
                    assert(v[j] == rows@[i].record);
                }
                assert(after_last(rows@, now, last, i));
                assert forall|j: int| 0 <= j < v.len() implies key_lt(v[j], rows@[i].record) by {
                    if j < v.len() - 1 {
                        lemma_key_transitive(v[j], v[v.len() - 1], rows@[i].record);
                    }
                }
            }
        }
        Ok(out)
    }

    /// Marks leased attempt `attempt_id` as running, with an optional
    /// execution deadline. Fails with a contention error when the attempt is
    /// not leased.
    pub fn mark_running(&mut self, attempt_id: &str, deadline: Option<i64>) -> (r: Result<(), KernelError>)
        requires
            old(self).wf(),
        ensures
            final(self).wf(),
            final(self).next_lease_no() == old(self).next_lease_no(),
            r is Ok <==> has_status(old(self).rows(), attempt_id@, AttemptExecutionStatus::Leased),
            r is Ok ==> final(self).rows() == old(self).rows().map_values(
                |row: AttemptRow| if row.record.attempt_id@ == attempt_id@ { started_row(row, deadline) } else { row },
            ),
            r is Err ==> final(self).rows() == old(self).rows() && r matches Err(KernelError::Contention(_)),
    {
        let a = attempt_id.to_owned();
        let ghost old_rows = self.rows@;
        let i = match self.find_attempt(&a) {
            Some(i) => i,
            None => {
                return Err(KernelError::Contention("attempt is not leased".to_string()));
            },
        };
        if self.rows[i].record.status != AttemptExecutionStatus::Leased {
            assert forall|k: int| 0 <= k < old_rows.len() && old_rows[k].record.attempt_id@ == attempt_id@
                implies old_rows[k].record.status != AttemptExecutionStatus::Leased by {
                if k != i {
                    assert(old_rows[k].record.attempt_id@ != old_rows[i as int].record.attempt_id@);
                }
            }
            return Err(KernelError::Contention("attempt is not leased".to_string()));
        }
        let mut record = self.rows[i].record.duplicate();
        record.status = AttemptExecutionStatus::Running;
        let lease = match &self.rows[i].lease {
            Some(l) => Some(l.duplicate()),
            None => None,
        };
        self.rows.set(i, AttemptRow { record, lease, deadline });
        assert forall|k: int| 0 <= k < old_rows.len() implies self.rows@[k] == (if old_rows[k].record.attempt_id@
            == attempt_id@ {
            started_row(old_rows[k], deadline)
        } else {
            old_rows[k]
        }) by {
            if k != i {
                assert(old_rows[k].record.attempt_id@ != old_rows[i as int].record.attempt_id@);
            }
        }
        assert(self.rows@ =~= old_rows.map_values(
            |row: AttemptRow| if row.record.attempt_id@ == attempt_id@ { started_row(row, deadline) } else { row },
        ));
        assert forall|k: int| 0 <= k < self.rows@.len() implies #[trigger] lease_names_row(self.rows@[k]) by {
            assert(lease_names_row(old_rows[k]));
        }
        assert forall|k: int| 0 <= k < self.rows@.len() implies #[trigger] lease_numbered(
            self.rows@[k],
            self.next_lease_no,
        ) by {
            assert(lease_numbered(old_rows[k], self.next_lease_no));
        }
        Ok(())
    }

    /// Moves attempt `attempt_id` to terminal status `status` and releases
    /// its lease. Fails with a contention error when the attempt is unknown or
    /// already terminal.
    pub fn finish_attempt(&mut self, attempt_id: &str, status: AttemptExecutionStatus) -> (r: Result<(), KernelError>)
        requires
            old(self).wf(),
            status.terminal(),
        ensures
            final(self).wf(),
            final(self).next_lease_no() == old(self).next_lease_no(),
            r is Ok <==> in_flight(old(self).rows(), attempt_id@),
            r is Ok ==> final(self).rows() == old(self).rows().map_values(
                |row: AttemptRow| if row.record.attempt_id@ == attempt_id@ { finished_row(row, status) } else { row },
            ),
            r is Err ==> final(self).rows() == old(self).rows() && r matches Err(KernelError::Contention(_)),
    {
        let a = attempt_id.to_owned();
        let ghost old_rows = self.rows@;
        let i = match self.find_attempt(&a) {
            Some(i) => i,
            None => {
                return Err(KernelError::Contention("attempt is not in flight".to_string()));
            },
        };
        if self.rows[i].record.status.is_terminal() {
            assert forall|k: int| 0 <= k < old_rows.len() && old_rows[k].record.attempt_id@ == attempt_id@
                implies old_rows[k].record.status.terminal() by {
                if k != i {
                    assert(old_rows[k].record.attempt_id@ != old_rows[i as int].record.attempt_id@);
                }
            }
            return Err(KernelError::Contention("attempt is not in flight".to_string()));
        }
        let mut record = self.rows[i].record.duplicate();
        record.status = status;
        let deadline = self.rows[i].deadline;
        self.rows.set(i, AttemptRow { record, lease: None, deadline });
        assert forall|k: int| 0 <= k < old_rows.len() implies self.rows@[k] == (if old_rows[k].record.attempt_id@
            == attempt_id@ {
            finished_row(old_rows[k], status)
        } else {
            old_rows[k]
        }) by {
            if k != i {
                assert(old_rows[k].record.attempt_id@ != old_rows[i as int].record.attempt_id@);
            }
        }
        assert(self.rows@ =~= old_rows.map_values(
            |row: AttemptRow| if row.record.attempt_id@ == attempt_id@ { finished_row(row, status) } else { row },
        ));
        assert forall|k: int| 0 <= k < self.rows@.len() implies #[trigger] lease_names_row(self.rows@[k]) by {
            assert(lease_names_row(old_rows[k]));
        }
        assert forall|k: int| 0 <= k < self.rows@.len() implies #[trigger] lease_numbered(
            self.rows@[k],
            self.next_lease_no,
        ) by {
            assert(lease_numbered(old_rows[k], self.next_lease_no));
        }
        Ok(())
    }
}

/// The storage contract shared by the scheduler and the lease manager. Each
/// operation's effect is stated by the implementation's spec functions; an
/// implementation that does not state them promises nothing.
pub trait RuntimeRepository: Sized {
    /// The implementation's well-formedness.
    open spec fn inv(&self) -> bool {
        true
    }

    /// `v` is a valid answer to listing up to `limit` dispatchable attempts at `now`.
    open spec fn lists(&self, now: i64, limit: nat, v: Seq<AttemptDispatchRecord>) -> bool {
        true
    }

    /// `after` and `r` can follow granting `attempt` to `worker` until `expires`.
    open spec fn upserted(&self, after: Self, attempt: Seq<char>, worker: Seq<char>, expires: i64, r: Result<LeaseRecord, KernelError>) -> bool {
        true
    }

    /// `after` and `r` can follow a heartbeat on lease `lease` at `at`, extending it to `expires`.
    open spec fn heartbeated(&self, after: Self, lease: Seq<char>, at: i64, expires: i64, r: Result<(), KernelError>) -> bool {
        true
    }

    /// `after` and `r` can follow expiring the leases that ended before `cutoff`.
    open spec fn expired(&self, after: Self, cutoff: i64, r: Result<u64, KernelError>) -> bool {
        true
    }

    /// `after` and `r` can follow the timeout sweep at `now`.
    open spec fn swept(&self, after: Self, now: i64, r: Result<u64, KernelError>) -> bool {
        true
    }

    /// A listing at `now` with `limit` is owed success; an implementation
    /// that does not state it promises none.
    open spec fn lists_succeed(&self, now: i64, limit: nat) -> bool {
        false
    }

    /// Attempts eligible for dispatch at `now`, at most `limit`, in dispatch order.
    fn list_dispatchable_attempts(&self, now: i64, limit: usize) -> (r: Result<Vec<AttemptDispatchRecord>, KernelError>)
        requires
            self.inv(),
        ensures
            self.lists_succeed(now, limit as nat) ==> r is Ok,
            r matches Ok(v) ==> v@.len() <= limit && self.lists(now, limit as nat, v@),
    ;

    /// Atomically acquires a lease on an attempt, or fails.
    fn upsert_lease(&mut self, attempt_id: &str, worker_id: &str, lease_expires_at: i64) -> (r: Result<LeaseRecord, KernelError>)
        requires
            old(self).inv(),
        ensures
            final(self).inv(),
            old(self).upserted(*final(self), attempt_id@, worker_id@, lease_expires_at, r),
    ;

    /// Refreshes the heartbeat of an existing lease.
    fn heartbeat_lease(&mut self, lease_id: &str, heartbeat_at: i64, lease_expires_at: i64) -> (r: Result<(), KernelError>)
        requires
            old(self).inv(),
        ensures
            final(self).inv(),
            old(self).heartbeated(*final(self), lease_id@, heartbeat_at, lease_expires_at, r),
    ;

    /// Expires stale leases and requeues their attempts.
    fn expire_leases_and_requeue(&mut self, now: i64) -> (r: Result<u64, KernelError>)
        requires
            old(self).inv(),
        ensures
            final(self).inv(),
            old(self).expired(*final(self), now, r),
    ;

    /// Moves running attempts whose execution window passed out of flight.
    fn transition_timed_out_attempts(&mut self, now: i64) -> (r: Result<u64, KernelError>)
        requires
            old(self).inv(),
        ensures
            final(self).inv(),
            old(self).swept(*final(self), now, r),
    ;

    /// `r` can be the answer to asking for the latest position of run `run`.
    open spec fn reports_latest(&self, run: Seq<char>, r: Result<SeqNo, KernelError>) -> bool {
        true
    }

    /// The latest persisted position of a run's log known to this repository.
    fn latest_seq_for_run(&self, run_id: &RunId) -> (r: Result<SeqNo, KernelError>)
        ensures
            self.reports_latest(run_id@, r),
    ;
}

impl RuntimeRepository for InMemoryRuntimeRepository {
    open spec fn inv(&self) -> bool {
        self.wf()
    }

    open spec fn lists(&self, now: i64, limit: nat, v: Seq<AttemptDispatchRecord>) -> bool {
        listing(self.rows(), now, limit, v)
    }

    /// Listing in memory always succeeds.
    open spec fn lists_succeed(&self, now: i64, limit: nat) -> bool {
        true
    }

    open spec fn upserted(&self, after: Self, attempt: Seq<char>, worker: Seq<char>, expires: i64, r: Result<LeaseRecord, KernelError>) -> bool {
        exists|now: i64|
            upsert_outcome(
                self.rows(),
                self.next_lease_no(),
                after.rows(),
                after.next_lease_no(),
                now,
                attempt,
                worker,
                expires,
                r,
            )
    }

    open spec fn heartbeated(&self, after: Self, lease: Seq<char>, at: i64, expires: i64, r: Result<(), KernelError>) -> bool {
        heartbeat_outcome(self.rows(), after.rows(), lease, at, expires, r) && after.next_lease_no()
            == self.next_lease_no()
    }

    open spec fn expired(&self, after: Self, cutoff: i64, r: Result<u64, KernelError>) -> bool {
        &&& after.rows() == self.rows().map_values(|row: AttemptRow| expire_row(row, cutoff))
        &&& after.next_lease_no() == self.next_lease_no()
        &&& r == Ok::<u64, KernelError>(count_expired(self.rows(), cutoff) as u64)
    }

    open spec fn swept(&self, after: Self, now: i64, r: Result<u64, KernelError>) -> bool {
        &&& after.rows() == self.rows().map_values(|row: AttemptRow| timeout_row(row, now))
        &&& after.next_lease_no() == self.next_lease_no()
        &&& r == Ok::<u64, KernelError>(count_timed_out(self.rows(), now) as u64)
    }

    open spec fn reports_latest(&self, run: Seq<char>, r: Result<SeqNo, KernelError>) -> bool {
        r == Ok::<SeqNo, KernelError>(0)
    }

    fn list_dispatchable_attempts(&self, now: i64, limit: usize) -> (r: Result<Vec<AttemptDispatchRecord>, KernelError>) {
        InMemoryRuntimeRepository::list_dispatchable_attempts(self, now, limit)
    }

    /// Grants the lease at the current wall-clock time.
    fn upsert_lease(&mut self, attempt_id: &str, worker_id: &str, lease_expires_at: i64) -> (r: Result<LeaseRecord, KernelError>) {
        let now = now_millis();
        self.upsert_lease_at(now, attempt_id, worker_id, lease_expires_at)
    }

    fn heartbeat_lease(&mut self, lease_id: &str, heartbeat_at: i64, lease_expires_at: i64) -> (r: Result<(), KernelError>) {
        InMemoryRuntimeRepository::heartbeat_lease(self, lease_id, heartbeat_at, lease_expires_at)
    }

    fn expire_leases_and_requeue(&mut self, now: i64) -> (r: Result<u64, KernelError>) {
        InMemoryRuntimeRepository::expire_leases_and_requeue(self, now)
    }

    fn transition_timed_out_attempts(&mut self, now: i64) -> (r: Result<u64, KernelError>) {
        InMemoryRuntimeRepository::transition_timed_out_attempts(self, now)
    }

    /// This repository holds attempts and leases only; the event store is
    /// the authority on log positions, so it reports 0.
    fn latest_seq_for_run(&self, run_id: &RunId) -> (r: Result<SeqNo, KernelError>) {
        Ok(0)
    }
}

/// In a well-formed state, an attempt has at most one lease that has not
/// expired at any instant.
pub proof fn lemma_single_live_lease(rows: Seq<AttemptRow>, now: i64, i: int, j: int)
    requires
        rows_wf(rows),
        0 <= i < rows.len(),
        0 <= j < rows.len(),
        lease_live(rows[i], now),
        lease_live(rows[j], now),
        rows[i].lease->0.attempt_id@ == rows[j].lease->0.attempt_id@,
    ensures
        i == j,
{
    assert(lease_names_row(rows[i]));
    assert(lease_names_row(rows[j]));
}

/// Once a lease is granted on an attempt, a second grant on the same attempt
/// at any time up to the first lease's expiry fails with a contention error
/// and changes nothing, whichever worker asks.
pub proof fn lemma_second_upsert_contends(
    rows: Seq<AttemptRow>,
    next: u64,
    rows2: Seq<AttemptRow>,
    next2: u64,
    t1: i64,
    a: Seq<char>,
    w1: Seq<char>,
    x1: i64,
    r1: Result<LeaseRecord, KernelError>,
    rows3: Seq<AttemptRow>,
    next3: u64,
    t2: i64,
    w2: Seq<char>,
    x2: i64,
    r2: Result<LeaseRecord, KernelError>,
)
    requires
        rows_wf(rows),
        upsert_outcome(rows, next, rows2, next2, t1, a, w1, x1, r1),
        r1 is Ok,
        t2 <= x1,
        upsert_outcome(rows2, next2, rows3, next3, t2, a, w2, x2, r2),
    ensures
        r2 matches Err(KernelError::Contention(_)),
        rows3 == rows2,
{
    let i = choose|i: int|
        0 <= i < rows.len() && rows[i].record.attempt_id@ == a && (rows[i].record.status
            == AttemptExecutionStatus::Queued || rows[i].record.status == AttemptExecutionStatus::RetryBackoff);
    assert(rows2[i] == leased_row(rows[i], r1->Ok_0));
    assert(live_lease_for(rows2, a, t2));
}

/// A freshly leased attempt is not dispatchable and is never listed; once
/// leases that expired before a time past its expiry are reclaimed, it is
/// dispatchable again at that time and listed whenever the listing's limit
/// is not reached.
pub proof fn lemma_lease_hides_then_requeue(
    rows: Seq<AttemptRow>,
    next: u64,
    rows2: Seq<AttemptRow>,
    next2: u64,
    t: i64,
    a: Seq<char>,
    w: Seq<char>,
    x: i64,
    r: Result<LeaseRecord, KernelError>,
    now: i64,
    v: Seq<AttemptDispatchRecord>,
    limit: nat,
    later: i64,
    v2: Seq<AttemptDispatchRecord>,
    limit2: nat,
)
    requires
        rows_wf(rows),
        upsert_outcome(rows, next, rows2, next2, t, a, w, x, r),
        r is Ok,
        listing(rows2, now, limit, v),
        later > x,
        listing(rows2.map_values(|row: AttemptRow| expire_row(row, later)), later, limit2, v2),
        v2.len() < limit2,
    ensures
        forall|j: int| 0 <= j < v.len() ==> v[j].attempt_id@ != a,
        exists|j: int| 0 <= j < v2.len() && v2[j].attempt_id@ == a,
{
    let i = choose|i: int|
        0 <= i < rows.len() && rows[i].record.attempt_id@ == a && (rows[i].record.status
            == AttemptExecutionStatus::Queued || rows[i].record.status == AttemptExecutionStatus::RetryBackoff);
    let l = r->Ok_0;
    assert(rows2[i] == leased_row(rows[i], l));
    assert forall|j: int| 0 <= j < v.len() implies v[j].attempt_id@ != a by {
        assert(dispatchable_record(rows2, now, v[j]));
        let k = choose|k: int| 0 <= k < rows2.len() && dispatchable(rows2[k], now) && rows2[k].record == v[j];
        if v[j].attempt_id@ == a {
            if k != i {
                assert(rows2[k] == rows[k]);
                assert(rows[k].record.attempt_id@ != rows[i].record.attempt_id@);
            }
        }
    }
    let rows3 = rows2.map_values(|row: AttemptRow| expire_row(row, later));
    assert(rows3[i] == expire_row(rows2[i], later));
    assert(dispatchable(rows3[i], later));
    if !(exists|j: int| 0 <= j < v2.len() && v2[j] == rows3[i].record) {
        assert(v2.len() == limit2);
    }
    let j = choose|j: int| 0 <= j < v2.len() && v2[j] == rows3[i].record;
    assert(v2[j].attempt_id@ == a);
}

} // verus!
