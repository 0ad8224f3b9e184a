//! Canonical execution log: the externally visible form of the event log.
//!
//! Entries are derived from sequenced events alone; nothing here mutates or
//! reorders the log, which stays the source of truth.

use vstd::prelude::*;

use crate::event::{scan_spec, Event, EventView, InMemoryEventStore, KernelError, SequencedEvent};
use crate::identity::{RunId, SeqNo, StepId};

verus! {

/// One canonical execution log entry: run, step, position, event, and an
/// optional advisory hash of the state after the event.
#[derive(Clone, Debug)]
pub struct ExecutionLog {
    /// Run (thread) this entry belongs to.
    pub thread_id: RunId,
    /// Step that produced the event, when the event carries one.
    pub step_id: Option<StepId>,
    /// Position of the event within the run.
    pub event_index: SeqNo,
    /// The event at this position.
    pub event: Event,
    /// Optional hash of the state after applying this event; never authoritative.
    pub state_hash: Option<[u8; 32]>,
}

/// The mathematical value of an [`ExecutionLog`].
pub struct ExecutionLogView {
    pub thread_id: String,
    pub step_id: Option<String>,
    pub event_index: SeqNo,
    pub event: EventView,
    pub state_hash: Option<[u8; 32]>,
}

impl View for ExecutionLog {
    type V = ExecutionLogView;

    open spec fn view(&self) -> ExecutionLogView {
        ExecutionLogView {
            thread_id: self.thread_id,
            step_id: self.step_id,
            event_index: self.event_index,
            event: self.event@,
            state_hash: self.state_hash,
        }
    }
}

/// The step an event is attributed to: only a state update carries one.
pub open spec fn step_id_of(e: EventView) -> Option<String> {
    match e {
        EventView::StateUpdated { step_id, .. } => step_id,
        _ => None,
    }
}

/// The entry derived from a sequenced event of run `run`.
pub open spec fn entry_spec(run: String, se: (SeqNo, EventView), hash: Option<[u8; 32]>) -> ExecutionLogView {
    ExecutionLogView {
        thread_id: run,
        step_id: step_id_of(se.1),
        event_index: se.0,
        event: se.1,
        state_hash: hash,
    }
}

/// The entries derived from a scan of run `run`, without state hashes.
pub open spec fn execution_log_spec(run: String, scanned: Seq<(SeqNo, EventView)>) -> Seq<ExecutionLogView> {
    scanned.map_values(|se: (SeqNo, EventView)| entry_spec(run, se, None))
}

/// The views of a list of entries, in order.
pub open spec fn logs_view(v: Seq<ExecutionLog>) -> Seq<ExecutionLogView> {
    v.map_values(|e: ExecutionLog| e@)
}

impl ExecutionLog {
    /// Builds an entry from a sequenced event of run `thread_id`.
    pub fn from_sequenced(thread_id: RunId, se: &SequencedEvent, state_hash: Option<[u8; 32]>) -> (r: ExecutionLog)
        ensures
            r@ == entry_spec(thread_id, se@, state_hash),
    {
        let step_id = step_id_from_event(&se.event);
        ExecutionLog {
            thread_id,
            step_id,
            event_index: se.seq,
            event: se.event.duplicate(),
            state_hash,
        }
    }
}

/// The step id carried by the event, if any.
pub fn step_id_from_event(event: &Event) -> (r: Option<StepId>)
    ensures
        r == step_id_of(event@),
{
    match event {
        Event::StateUpdated { step_id, .. } => match step_id {
            Some(id) => Some(id.clone()),
            None => None,
        },
        _ => None,
    }
}

/// Scans the run's events from position `from` and returns the canonical
/// execution log, in position order, with no state hashes.
pub fn scan_execution_log(store: &InMemoryEventStore, run_id: &RunId, from: SeqNo) -> (r: Result<Vec<ExecutionLog>, KernelError>)
    requires
        store.wf(),
    ensures
        r matches Ok(v) && logs_view(v@) == execution_log_spec(*run_id, scan_spec(store.log(run_id@), from as nat)),
{
    let sequenced = store.scan(run_id, from)?;
    let ghost scanned = scan_spec(store.log(run_id@), from as nat);
    assert(crate::event::sequenced_view(sequenced@) == scanned);
    let mut out: Vec<ExecutionLog> = Vec::new();
    for i in 0..sequenced.len()
        invariant
            crate::event::sequenced_view(sequenced@) == scanned,
            out.len() == i,
            forall|j: int| 0 <= j < i ==> out[j]@ == entry_spec(*run_id, scanned[j], None),
    {
        assert(sequenced[i as int]@ == scanned[i as int]);
        out.push(ExecutionLog::from_sequenced(run_id.clone(), &sequenced[i], None));
    }
    assert(logs_view(out@) =~= execution_log_spec(*run_id, scanned));
    Ok(out)
}

/// Scanning the execution log twice over an unchanged log gives identical
/// sequences: the result depends on the run's events alone.
pub proof fn lemma_scan_execution_log_idempotent(
    first: &InMemoryEventStore,
    second: &InMemoryEventStore,
    run_id: RunId,
    from: SeqNo,
)
    requires
        first.log(run_id@) == second.log(run_id@),
    ensures
        execution_log_spec(run_id, scan_spec(first.log(run_id@), from as nat))
            == execution_log_spec(run_id, scan_spec(second.log(run_id@), from as nat)),
{
}

} // verus!
