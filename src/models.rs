//! Attempt and lease records shared by the scheduler, the lease manager and
//! the repositories.

use vstd::prelude::*;

verus! {

/// Lifecycle status of an attempt.
#[derive(Clone, Copy, Debug, PartialEq, Eq, Structural)]
pub enum AttemptExecutionStatus {
    Queued,
    Leased,
    Running,
    RetryBackoff,
    Completed,
    Failed,
    Cancelled,
}

impl AttemptExecutionStatus {
    /// No further transition happens from a terminal status.
    pub open spec fn terminal(self) -> bool {
        self == AttemptExecutionStatus::Completed || self == AttemptExecutionStatus::Failed
            || self == AttemptExecutionStatus::Cancelled
    }

    /// Whether the status is terminal.
    pub fn is_terminal(&self) -> (r: bool)
        ensures
            r == self.terminal(),
    {
        match self {
            AttemptExecutionStatus::Completed
            | AttemptExecutionStatus::Failed
            | AttemptExecutionStatus::Cancelled => true,
            _ => false,
        }
    }

    /// The status's stored text.
    pub open spec fn text(self) -> Seq<char> {
        match self {
            AttemptExecutionStatus::Queued => "queued"@,
            AttemptExecutionStatus::Leased => "leased"@,
            AttemptExecutionStatus::Running => "running"@,
            AttemptExecutionStatus::RetryBackoff => "retry_backoff"@,
            AttemptExecutionStatus::Completed => "completed"@,
            AttemptExecutionStatus::Failed => "failed"@,
            AttemptExecutionStatus::Cancelled => "cancelled"@,
        }
    }

    /// The status's stored text, as written to a relational backend.
    pub fn as_str(&self) -> (r: &'static str)
        ensures
            r@ == self.text(),
    {
        match self {
            AttemptExecutionStatus::Queued => "queued",
            AttemptExecutionStatus::Leased => "leased",
            AttemptExecutionStatus::Running => "running",
            AttemptExecutionStatus::RetryBackoff => "retry_backoff",
            AttemptExecutionStatus::Completed => "completed",
            AttemptExecutionStatus::Failed => "failed",
            AttemptExecutionStatus::Cancelled => "cancelled",
        }
    }
}

/// The status that a stored text stands for; unknown text reads as queued.
pub open spec fn status_of_text(value: Seq<char>) -> AttemptExecutionStatus {
    if value == "leased"@ {
        AttemptExecutionStatus::Leased
    } else if value == "running"@ {
        AttemptExecutionStatus::Running
    } else if value == "retry_backoff"@ {
        AttemptExecutionStatus::RetryBackoff
    } else if value == "completed"@ {
        AttemptExecutionStatus::Completed
    } else if value == "failed"@ {
        AttemptExecutionStatus::Failed
    } else if value == "cancelled"@ {
        AttemptExecutionStatus::Cancelled
    } else {
        AttemptExecutionStatus::Queued
    }
}

/// Reads a stored status text; unknown text reads as queued.
pub fn parse_attempt_status(value: &str) -> (r: AttemptExecutionStatus)
    ensures
        r == status_of_text(value@),
{
    let v = value.to_owned();
    if v == "leased".to_owned() {
        AttemptExecutionStatus::Leased
    } else if v == "running".to_owned() {
        AttemptExecutionStatus::Running
    } else if v == "retry_backoff".to_owned() {
        AttemptExecutionStatus::RetryBackoff
    } else if v == "completed".to_owned() {
        AttemptExecutionStatus::Completed
    } else if v == "failed".to_owned() {
        AttemptExecutionStatus::Failed
    } else if v == "cancelled".to_owned() {
        AttemptExecutionStatus::Cancelled
    } else {
        AttemptExecutionStatus::Queued
    }
}

/// One schedulable unit of execution for a run. Times are milliseconds
/// since the Unix epoch.
#[derive(Clone, Debug, PartialEq, Eq)]
pub struct AttemptDispatchRecord {
    pub attempt_id: String,
    pub run_id: String,
    pub attempt_no: u32,
    pub status: AttemptExecutionStatus,
    pub retry_at: Option<i64>,
}

impl AttemptDispatchRecord {
    /// A field-by-field copy.
    pub fn duplicate(&self) -> (r: AttemptDispatchRecord)
        ensures
            r == *self,
    {
        AttemptDispatchRecord {
            attempt_id: self.attempt_id.clone(),
            run_id: self.run_id.clone(),
            attempt_no: self.attempt_no,
            status: self.status,
            retry_at: self.retry_at,
        }
    }
}

/// An exclusive, time-bounded claim by a worker on an attempt. Times are
/// milliseconds since the Unix epoch.
#[derive(Clone, Debug, PartialEq, Eq)]
pub struct LeaseRecord {
    pub lease_id: String,
    pub attempt_id: String,
    pub worker_id: String,
    pub lease_expires_at: i64,
    pub heartbeat_at: i64,
    pub version: u64,
}

impl LeaseRecord {
    /// A field-by-field copy.
    pub fn duplicate(&self) -> (r: LeaseRecord)
        ensures
            r == *self,
    {
        LeaseRecord {
            lease_id: self.lease_id.clone(),
            attempt_id: self.attempt_id.clone(),
            worker_id: self.worker_id.clone(),
            lease_expires_at: self.lease_expires_at,
            heartbeat_at: self.heartbeat_at,
            version: self.version,
        }
    }
}

} // verus!
