//! Events, sequenced events, kernel errors, and the in-memory event store.

use vstd::prelude::*;

use crate::identity::SeqNo;

verus! {

/// One field of a run's state set to a new value.
#[derive(Clone, Debug, PartialEq, Eq)]
pub struct FieldUpdate {
    pub field: String,
    pub value: String,
}

impl FieldUpdate {
    /// A field-by-field copy.
    pub fn duplicate(&self) -> (r: FieldUpdate)
        ensures
            r == *self,
    {
        FieldUpdate { field: self.field.clone(), value: self.value.clone() }
    }
}

/// Copies a list of field updates, element by element.
pub fn duplicate_updates(v: &Vec<FieldUpdate>) -> (r: Vec<FieldUpdate>)
    ensures
        r@ == v@,
{
    let mut r: Vec<FieldUpdate> = Vec::new();
    for i in 0..v.len()
        invariant
            r@ == v@.take(i as int),
    {
        r.push(v[i].duplicate());
        assert(r@ =~= v@.take(i + 1));
    }
    assert(v@.take(v.len() as int) =~= v@);
    r
}

/// What happened in a run. Events are immutable once appended.
#[derive(Clone, Debug, PartialEq, Eq)]
pub enum Event {
    /// A step produced a state update.
    StateUpdated { step_id: Option<String>, payload: Vec<FieldUpdate> },
    /// An action was handed to an executor.
    ActionRequested { action_id: String, input: String },
    /// An action finished with an output.
    ActionSucceeded { action_id: String, output: String },
    /// An action failed at the given time (milliseconds).
    ActionFailed { action_id: String, error: String, at_ms: u64 },
    /// The run suspended, waiting for a value under `key`.
    Interrupted { key: String, prompt: String },
    /// An interrupt was resolved with a value.
    Resumed { key: String, value: String },
    /// The run ended in failure.
    Failed { reason: String },
    /// Cancellation was requested; the run ends at its next advancement.
    Cancelled { reason: String },
    /// The run ended successfully.
    Completed,
}

/// The mathematical value of an [`Event`]: the same variants, with the
/// payload as a sequence.
pub enum EventView {
    StateUpdated { step_id: Option<String>, payload: Seq<FieldUpdate> },
    ActionRequested { action_id: String, input: String },
    ActionSucceeded { action_id: String, output: String },
    ActionFailed { action_id: String, error: String, at_ms: u64 },
    Interrupted { key: String, prompt: String },
    Resumed { key: String, value: String },
    Failed { reason: String },
    Cancelled { reason: String },
    Completed,
}

impl View for Event {
    type V = EventView;

    open spec fn view(&self) -> EventView {
        match self {
            Event::StateUpdated { step_id, payload } => EventView::StateUpdated {
                step_id: *step_id,
                payload: payload@,
            },
            Event::ActionRequested { action_id, input } => EventView::ActionRequested {
                action_id: *action_id,
                input: *input,
            },
            Event::ActionSucceeded { action_id, output } => EventView::ActionSucceeded {
                action_id: *action_id,
                output: *output,
            },
            Event::ActionFailed { action_id, error, at_ms } => EventView::ActionFailed {
                action_id: *action_id,
                error: *error,
                at_ms: *at_ms,
            },
            Event::Interrupted { key, prompt } => EventView::Interrupted {
                key: *key,
                prompt: *prompt,
            },
            Event::Resumed { key, value } => EventView::Resumed { key: *key, value: *value },
            Event::Failed { reason } => EventView::Failed { reason: *reason },
            Event::Cancelled { reason } => EventView::Cancelled { reason: *reason },
            Event::Completed => EventView::Completed,
        }
    }
}

/// The views of a list of events, in order.
pub open spec fn events_view(v: Seq<Event>) -> Seq<EventView> {
    v.map_values(|e: Event| e@)
}

impl Event {
    /// A variant-by-variant copy.
    pub fn duplicate(&self) -> (r: Event)
        ensures
            r@ == self@,
    {
        match self {
            Event::StateUpdated { step_id, payload } => {
                let s = match step_id {
                    Some(id) => Some(id.clone()),
                    None => None,
                };
                Event::StateUpdated { step_id: s, payload: duplicate_updates(payload) }
            },
            Event::ActionRequested { action_id, input } => Event::ActionRequested {
                action_id: action_id.clone(),
                input: input.clone(),
            },
            Event::ActionSucceeded { action_id, output } => Event::ActionSucceeded {
                action_id: action_id.clone(),
                output: output.clone(),
            },
            Event::ActionFailed { action_id, error, at_ms } => Event::ActionFailed {
                action_id: action_id.clone(),
                error: error.clone(),
                at_ms: *at_ms,
            },
            Event::Interrupted { key, prompt } => Event::Interrupted {
                key: key.clone(),
                prompt: prompt.clone(),
            },
            Event::Resumed { key, value } => Event::Resumed {
                key: key.clone(),
                value: value.clone(),
            },
            Event::Failed { reason } => Event::Failed { reason: reason.clone() },
            Event::Cancelled { reason } => Event::Cancelled { reason: reason.clone() },
            Event::Completed => Event::Completed,
        }
    }
}

/// Copies a list of events, element by element.
pub fn duplicate_events(v: &Vec<Event>) -> (r: Vec<Event>)
    ensures
        events_view(r@) == events_view(v@),
{
    let mut r: Vec<Event> = Vec::new();
    for i in 0..v.len()
        invariant
            r.len() == i,
            forall|j: int| 0 <= j < i ==> r[j]@ == v[j]@,
    {
        r.push(v[i].duplicate());
    }
    assert(events_view(r@) =~= events_view(v@));
    r
}

/// An event paired with the position the store assigned to it.
#[derive(Clone, Debug)]
pub struct SequencedEvent {
    pub seq: SeqNo,
    pub event: Event,
}

impl View for SequencedEvent {
    type V = (SeqNo, EventView);

    open spec fn view(&self) -> (SeqNo, EventView) {
        (self.seq, self.event@)
    }
}

/// The views of a list of sequenced events, in order.
pub open spec fn sequenced_view(v: Seq<SequencedEvent>) -> Seq<(SeqNo, EventView)> {
    v.map_values(|se: SequencedEvent| se@)
}

/// Errors surfaced by stores and repositories.
#[derive(Clone, Debug, PartialEq, Eq)]
pub enum KernelError {
    /// The storage medium is unreachable or rejected an operation.
    Driver(String),
    /// A lease or status precondition was violated by a concurrent actor.
    Contention(String),
}

/// Position at which a scan that starts at `from` begins, as an index into the log.
pub open spec fn scan_start(len: nat, from: nat) -> nat {
    if from == 0 {
        0
    } else if from - 1 <= len {
        (from - 1) as nat
    } else {
        len
    }
}

/// The entries that a scan from `from` returns over `log`: every event at
/// position `from` or later, paired with its 1-based position, in log order.
pub open spec fn scan_spec(log: Seq<EventView>, from: nat) -> Seq<(SeqNo, EventView)> {
    let start = scan_start(log.len(), from);
    Seq::new((log.len() - start) as nat, |j: int| ((start + j + 1) as u64, log[start + j]))
}

/// One run's log inside the store.
pub struct RunLog {
    run_id: String,
    events: Vec<Event>,
}

/// Append-only event store held in memory, one ordered log per run.
pub struct InMemoryEventStore {
    runs: Vec<RunLog>,
}

impl InMemoryEventStore {
    /// Run identifiers are unique and every log's positions fit in a `SeqNo`.
    pub closed spec fn wf(&self) -> bool {
        &&& forall|i: int, j: int|
            0 <= i < self.runs.len() && 0 <= j < self.runs.len() && i != j
                ==> self.runs[i].run_id@ != self.runs[j].run_id@
        &&& forall|i: int| 0 <= i < self.runs.len() ==> self.runs[i].events.len() <= u64::MAX
    }

    /// The events appended so far for `run`, in append order (empty for an unknown run).
    pub closed spec fn log(&self, run: Seq<char>) -> Seq<EventView> {
        if exists|i: int| 0 <= i < self.runs.len() && self.runs[i].run_id@ == run {
            let i = choose|i: int| 0 <= i < self.runs.len() && self.runs[i].run_id@ == run;
            events_view(self.runs[i].events@)
        } else {
            Seq::empty()
        }
    }

    /// Every log has at most `u64::MAX` events.
    pub proof fn lemma_log_fits(&self, run: Seq<char>)
        requires
            self.wf(),
        ensures
            self.log(run).len() <= u64::MAX,
    {
    }

    /// An empty store.
    pub fn new() -> (r: InMemoryEventStore)
        ensures
            r.wf(),
            forall|run: Seq<char>| r.log(run) == Seq::<EventView>::empty(),
    {
        InMemoryEventStore { runs: Vec::new() }
    }

    fn find_run(&self, run_id: &String) -> (r: Option<usize>)
        requires
            self.wf(),
        ensures
            match r {
                Some(i) => i < self.runs.len() && self.runs[i as int].run_id@ == run_id@
                    && self.log(run_id@) == events_view(self.runs[i as int].events@),
                None => forall|i: int|
                    0 <= i < self.runs.len() ==> self.runs[i].run_id@ != run_id@,
            },
            r is None ==> self.log(run_id@) == Seq::<EventView>::empty(),
    {
        for i in 0..self.runs.len()
            invariant
                self.wf(),
                forall|k: int| 0 <= k < i ==> self.runs[k].run_id@ != run_id@,
        {
            if self.runs[i].run_id == *run_id {
                return Some(i);
            }
        }
        None
    }

    /// Appends `events` to the run's log in input order, all or nothing.
    /// Returns the position of the last event of the log afterwards.
    pub fn append(&mut self, run_id: &String, events: &Vec<Event>) -> (r: Result<SeqNo, KernelError>)
        requires
            old(self).wf(),
        ensures
            final(self).wf(),
            r is Ok <==> old(self).log(run_id@).len() + events@.len() <= u64::MAX,
            r matches Ok(last) ==> {
                &&& final(self).log(run_id@) == old(self).log(run_id@) + events_view(events@)
                &&& last == final(self).log(run_id@).len()
                &&& forall|other: Seq<char>|
                    other != run_id@ ==> final(self).log(other) == old(self).log(other)
            },
            r is Err ==> {
                &&& *final(self) == *old(self)
                &&& r matches Err(KernelError::Driver(_))
            },
    {
        let found = self.find_run(run_id);
        let idx: usize = match found {
            Some(i) => i,
            None => {
                if events.len() as u64 > u64::MAX {
                    return Err(KernelError::Driver("event log capacity exceeded".to_string()));
                }
                self.runs.push(RunLog { run_id: run_id.clone(), events: Vec::new() });
                (self.runs.len() - 1) as usize
            },
        };
        let ghost before = self.runs[idx as int].events@;
        let ghost before_view = self.log(run_id@);
        let cur_len = self.runs[idx].events.len() as u64;
        if events.len() as u64 > u64::MAX - cur_len {
            return Err(KernelError::Driver("event log capacity exceeded".to_string()));
        }
        let mut batch = duplicate_events(events);
        let ghost batch_view_src = batch@;
        let ghost old_runs = self.runs@;
        let mut entry = self.runs.remove(idx);
        entry.events.append(&mut batch);
        let last = entry.events.len() as u64;
        self.runs.insert(idx, entry);
        assert(self.runs@ =~= old_runs.update(idx as int, self.runs[idx as int]));
        assert(self.runs[idx as int].events@ =~= before + batch_view_src);
        assert(events_view(self.runs[idx as int].events@) =~= before_view + events_view(events@));
        assert forall|other: Seq<char>| other != run_id@ implies self.log(other) == old(self).log(other) by {
            if exists|i: int| 0 <= i < self.runs.len() && self.runs[i].run_id@ == other {
                let i = choose|i: int| 0 <= i < self.runs.len() && self.runs[i].run_id@ == other;
                assert(i != idx);
                assert(0 <= i < old(self).runs.len() && old(self).runs[i].run_id@ == other);
            } else {
                assert forall|i: int| 0 <= i < old(self).runs.len() implies old(self).runs[i].run_id@ != other by {
                    assert(self.runs[i].run_id@ == old(self).runs[i].run_id@);
                }
            }
        }
        Ok(last)
    }

    /// Position of the run's last event (0 for a run with no events).
    pub fn latest_seq(&self, run_id: &String) -> (r: SeqNo)
        requires
            self.wf(),
        ensures
            r == self.log(run_id@).len(),
    {
        match self.find_run(run_id) {
            Some(i) => self.runs[i].events.len() as u64,
            None => 0,
        }
    }

    /// The run's events at position `from` or later, each with its position,
    /// in strictly increasing position order.
    pub fn scan(&self, run_id: &String, from: SeqNo) -> (r: Result<Vec<SequencedEvent>, KernelError>)
        requires
            self.wf(),
        ensures
            r matches Ok(v) && sequenced_view(v@) == scan_spec(self.log(run_id@), from as nat),
    {
        let mut out: Vec<SequencedEvent> = Vec::new();
        let idx = match self.find_run(run_id) {
            Some(i) => i,
            None => {
                assert(sequenced_view(out@) =~= scan_spec(self.log(run_id@), from as nat));
                return Ok(out);
            },
        };
        let events = &self.runs[idx].events;
        let n = events.len();
        let start: usize = if from == 0 {
            0
        } else if from - 1 <= n as u64 {
            (from - 1) as usize
        } else {
            n
        };
        let ghost spec_out = scan_spec(self.log(run_id@), from as nat);
        assert(start == scan_start(n as nat, from as nat));
        for k in start..n
            invariant
                n == events.len(),
                events == self.runs[idx as int].events,
                self.log(run_id@) == events_view(events@),
                spec_out == scan_spec(self.log(run_id@), from as nat),
                start == scan_start(n as nat, from as nat),
                n <= u64::MAX,
                start <= n,
                out.len() == k - start,
                forall|j: int| 0 <= j < out.len() ==> out[j]@ == spec_out[j],
        {
            out.push(SequencedEvent { seq: (k + 1) as u64, event: events[k].duplicate() });
        }
        assert(sequenced_view(out@) =~= spec_out);
        Ok(out)
    }

    /// A copy of the run's events, in log order.
    pub fn events_of(&self, run_id: &String) -> (r: Vec<Event>)
        requires
            self.wf(),
        ensures
            events_view(r@) == self.log(run_id@),
    {
        match self.find_run(run_id) {
            Some(i) => duplicate_events(&self.runs[i].events),
            None => {
                let r: Vec<Event> = Vec::new();
                assert(events_view(r@) =~= Seq::<EventView>::empty());
                r
            },
        }
    }
}

/// Appending a non-empty batch and scanning from position 1 yields the
/// whole log in strictly increasing position order, with no gaps, and the
/// batch occupies the last positions in its input order.
pub proof fn lemma_append_then_scan(log: Seq<EventView>, batch: Seq<EventView>)
    requires
        batch.len() > 0,
        log.len() + batch.len() <= u64::MAX,
    ensures
        ({
            let s = scan_spec(log + batch, 1);
            &&& s.len() == log.len() + batch.len()
            &&& forall|j: int| 0 <= j < s.len() ==> s[j].0 == j + 1
            &&& forall|j: int, k: int| 0 <= j < k < s.len() ==> s[j].0 < s[k].0
            &&& forall|j: int| 0 <= j < s.len() ==> s[j].1 == (log + batch)[j]
            &&& forall|j: int|
                0 <= j < batch.len() ==> s[log.len() + j] == ((log.len() + j + 1) as u64, batch[j])
        }),
{
    let s = scan_spec(log + batch, 1);
    assert forall|j: int| 0 <= j < batch.len() implies s[log.len() + j] == ((log.len() + j + 1) as u64, batch[j]) by {
        assert((log + batch)[log.len() + j] == batch[j]);
    }
}

} // verus!
