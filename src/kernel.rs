//! The kernel driver: advances one run by a cycle at a time, recording every
//! transition in the event log before reporting it, and the runner that
//! repeats cycles until the run settles.

use vstd::prelude::*;

use crate::event::{events_view, scan_spec, Event, EventView, FieldUpdate, InMemoryEventStore, KernelError};
use crate::identity::RunId;
use crate::policy::{Decision, Policy, PolicyCtx};
use crate::reducer::{lemma_replay_split, replay_spec, KernelState};
use crate::snapshot::InMemorySnapshotStore;

verus! {

/// A request for an external effect.
#[derive(Clone, Debug)]
pub struct Action {
    pub action_id: String,
    pub input: String,
}

/// What a step function asks for next.
#[derive(Clone, Debug)]
pub enum Next {
    /// Set these fields; recorded as a state update of the step.
    Emit { step_id: Option<String>, updates: Vec<FieldUpdate> },
    /// Perform an action.
    Do(Action),
    /// Suspend until a value for `key` is supplied.
    Interrupt { key: String, prompt: String },
    /// The run is finished.
    Complete,
}

/// The unit of computation the kernel advances. It must be a pure function
/// of the state it is given, so that replay reproduces a run.
pub trait StepFn: Sized {
    /// `n` is an answer this step function may give on `state`; a step
    /// function that does not state it promises nothing.
    open spec fn yields(&self, state: Seq<FieldUpdate>, n: Next) -> bool {
        true
    }

    /// What to do next, given the run's derived state.
    fn next(&self, state: &KernelState) -> (r: Next)
        ensures
            self.yields(state@, r),
    ;
}

/// Performs actions in process: the action's output, or an error message.
pub trait ActionExecutor {
    fn execute(&self, action: &Action) -> Result<String, String>;
}

/// A step function that completes at once.
#[derive(Clone, Copy, Debug)]
pub struct NoopStepFn {}

impl StepFn for NoopStepFn {
    open spec fn yields(&self, state: Seq<FieldUpdate>, n: Next) -> bool {
        n is Complete
    }

    fn next(&self, state: &KernelState) -> (r: Next) {
        Next::Complete
    }
}

/// An executor for kernels that run no actions: every action fails.
#[derive(Clone, Copy, Debug)]
pub struct NoopActionExecutor {}

impl ActionExecutor for NoopActionExecutor {
    fn execute(&self, action: &Action) -> Result<String, String> {
        Err("no action executor configured".to_string())
    }
}

/// Normal execution, or replay in which actions are never executed.
#[derive(Clone, Copy, Debug, PartialEq, Eq, Structural)]
pub enum KernelMode {
    Normal,
    Replay,
}

/// Why a run is blocked.
#[derive(Clone, Debug, PartialEq, Eq)]
pub enum BlockedInfo {
    /// Waiting for a value for `key`.
    Interrupt { key: String },
    /// Waiting for an action's result from outside the kernel.
    AwaitingAction { action_id: String },
    /// The policy asked to retry the action after this many milliseconds.
    RetryAfter { ms: u64 },
}

/// Where a run stands after a cycle.
#[derive(Clone, Debug, PartialEq, Eq)]
pub enum RunStatus {
    Running,
    Blocked(BlockedInfo),
    Completed,
    Failed(String),
}

/// The status a log already settles, whatever the step function would do:
/// a completed or failed run stays so, a cancelled run has failed with the
/// cancellation's reason, and an interrupted one stays blocked until it is
/// resumed.
pub open spec fn settled(log: Seq<EventView>) -> Option<RunStatus> {
    if log.len() == 0 {
        None
    } else {
        match log.last() {
            EventView::Completed => Some(RunStatus::Completed),
            EventView::Failed { reason } => Some(RunStatus::Failed(reason)),
            EventView::Cancelled { reason } => Some(RunStatus::Failed(reason)),
            EventView::Interrupted { key, .. } => Some(RunStatus::Blocked(BlockedInfo::Interrupt { key })),
            _ => None,
        }
    }
}

/// The events one cycle may append together with the status it reports:
/// a state update keeps the run going; completion, an interrupt or a policy
/// denial is recorded and reported; a retry delay, or an allowed action in
/// replay mode, blocks without appending; in normal mode an executed action
/// is recorded as requested and then succeeded or failed at `now`.
pub open spec fn cycle_ok(batch: Seq<EventView>, status: RunStatus, mode: KernelMode, now: u64) -> bool {
    ||| (batch.len() == 1 && batch[0] is StateUpdated && status == RunStatus::Running)
    ||| (batch == seq![EventView::Completed] && status == RunStatus::Completed)
    ||| (batch.len() == 1 && match batch[0] {
        EventView::Interrupted { key, .. } => status == RunStatus::Blocked(BlockedInfo::Interrupt { key }),
        EventView::Failed { reason } => status == RunStatus::Failed(reason),
        _ => false,
    })
    ||| (batch.len() == 0 && status matches RunStatus::Blocked(BlockedInfo::RetryAfter { .. }))
    ||| (batch.len() == 0 && mode == KernelMode::Replay && status matches RunStatus::Blocked(
        BlockedInfo::AwaitingAction { .. },
    ))
    ||| (mode == KernelMode::Normal && batch.len() == 2 && status == RunStatus::Running && match (batch[0], batch[1]) {
        (EventView::ActionRequested { action_id: a, .. }, EventView::ActionSucceeded { action_id: b, .. }) => a
            == b,
        (EventView::ActionRequested { action_id: a, .. }, EventView::ActionFailed { action_id: b, at_ms, .. }) => a
            == b && at_ms == now,
        _ => false,
    })
}

/// The log ends with an interrupt waiting for `key`.
pub open spec fn interrupted_on(log: Seq<EventView>, key: Seq<char>) -> bool {
    log.len() > 0 && match log.last() {
        EventView::Interrupted { key: k, .. } => k@ == key,
        _ => false,
    }
}

/// The log ends in a terminal event: the run completed, failed or was
/// cancelled.
pub open spec fn finished(log: Seq<EventView>) -> bool {
    log.len() > 0 && (log.last() is Completed || log.last() is Failed || log.last() is Cancelled)
}

/// The policy sanctioned the cycle: a retry delay, a denial, an executed
/// action and an action left awaiting are each what the policy decided on
/// the context of that action at `now` over `log`.
pub open spec fn policy_ok<P: Policy>(policy: P, log: Seq<EventView>, batch: Seq<EventView>, status: RunStatus, now: u64) -> bool {
    &&& status matches RunStatus::Blocked(BlockedInfo::RetryAfter { ms }) ==> exists|ctx: PolicyCtx|
        #[trigger] policy.decides(ctx, Decision::RetryAfter(ms)) && ctx_ok(ctx, log, ctx.action_id@, now)
    &&& batch.len() == 1 && batch[0] is Failed ==> exists|ctx: PolicyCtx|
        #[trigger] policy.decides(ctx, Decision::Deny(batch[0]->Failed_reason)) && ctx_ok(
            ctx,
            log,
            ctx.action_id@,
            now,
        )
    &&& batch.len() == 2 && batch[0] is ActionRequested ==> exists|ctx: PolicyCtx|
        #[trigger] policy.decides(ctx, Decision::Allow) && ctx_ok(ctx, log, batch[0]->ActionRequested_action_id@, now)
    &&& status matches RunStatus::Blocked(BlockedInfo::AwaitingAction { action_id }) ==> exists|ctx: PolicyCtx|
        #[trigger] policy.decides(ctx, Decision::Allow) && ctx_ok(ctx, log, action_id@, now)
}

/// The cycle's events and status are what answer `n` of the step function
/// calls for: its state update, its completion, its interrupt, or the
/// handling of its action (requested as asked, denied, delayed, or left
/// awaiting).
pub open spec fn next_matches(n: Next, batch: Seq<EventView>, status: RunStatus) -> bool {
    match n {
        Next::Emit { step_id, updates } => batch == seq![EventView::StateUpdated { step_id, payload: updates@ }]
            && status == RunStatus::Running,
        Next::Complete => batch == seq![EventView::Completed] && status == RunStatus::Completed,
        Next::Interrupt { key, prompt } => batch == seq![EventView::Interrupted { key, prompt }] && status
            == RunStatus::Blocked(BlockedInfo::Interrupt { key }),
        Next::Do(a) => {
            ||| (batch.len() == 2 && batch[0] == EventView::ActionRequested {
                action_id: a.action_id,
                input: a.input,
            })
            ||| (batch.len() == 1 && batch[0] is Failed)
            ||| (batch.len() == 0 && status matches RunStatus::Blocked(BlockedInfo::RetryAfter { .. }))
            ||| (batch.len() == 0 && status == RunStatus::Blocked(
                BlockedInfo::AwaitingAction { action_id: a.action_id },
            ))
        },
    }
}

/// The step function was asked about some state, which is the replay of
/// the log from the initial state whenever `faithful` holds, and the cycle
/// carried out its answer.
pub open spec fn stepped<S: StepFn>(
    step: S,
    faithful: bool,
    expected: Seq<FieldUpdate>,
    batch: Seq<EventView>,
    status: RunStatus,
) -> bool {
    exists|n: Next, st: Seq<FieldUpdate>|
        #[trigger] step.yields(st, n) && next_matches(n, batch, status) && (faithful ==> st == expected)
}

/// The event is a failure of action `id`.
pub open spec fn is_failure_of(e: EventView, id: Seq<char>) -> bool {
    e matches EventView::ActionFailed { action_id, .. } && action_id@ == id
}

/// The time recorded by a failure event.
pub open spec fn failure_at(e: EventView) -> u64 {
    match e {
        EventView::ActionFailed { at_ms, .. } => at_ms,
        _ => 0,
    }
}

/// How many times action `id` failed in `log`.
pub open spec fn failure_count(log: Seq<EventView>, id: Seq<char>) -> nat
    decreases log.len(),
{
    if log.len() == 0 {
        0
    } else {
        failure_count(log.drop_last(), id) + if is_failure_of(log.last(), id) {
            1nat
        } else {
            0nat
        }
    }
}

/// When action `id` first failed in `log`.
pub open spec fn first_failure(log: Seq<EventView>, id: Seq<char>) -> Option<u64>
    decreases log.len(),
{
    if log.len() == 0 {
        None
    } else {
        match first_failure(log.drop_last(), id) {
            Some(t) => Some(t),
            None => if is_failure_of(log.last(), id) {
                Some(failure_at(log.last()))
            } else {
                None
            },
        }
    }
}

/// When action `id` last failed in `log`.
pub open spec fn last_failure(log: Seq<EventView>, id: Seq<char>) -> Option<u64>
    decreases log.len(),
{
    if log.len() == 0 {
        None
    } else if is_failure_of(log.last(), id) {
        Some(failure_at(log.last()))
    } else {
        last_failure(log.drop_last(), id)
    }
}

/// Milliseconds from `since` (if any) to `now`, 0 when none or in the future.
pub open spec fn ms_since(since: Option<u64>, now: u64) -> u64 {
    match since {
        Some(t) => if t <= now { (now - t) as u64 } else { 0 },
        None => 0,
    }
}

/// The policy context of action `id` at `now` over `log`; the failure count
/// saturates at `u32::MAX`.
pub open spec fn ctx_ok(ctx: PolicyCtx, log: Seq<EventView>, id: Seq<char>, now: u64) -> bool {
    &&& ctx.action_id@ == id
    &&& ctx.failures == if failure_count(log, id) <= u32::MAX {
        failure_count(log, id) as u32
    } else {
        u32::MAX
    }
    &&& ctx.elapsed_ms == ms_since(first_failure(log, id), now)
    &&& ctx.waited_ms == ms_since(last_failure(log, id), now)
}

/// Builds the policy context of action `action_id` at `now` from the run's events.
pub fn policy_ctx(events: &Vec<Event>, action_id: &String, now: u64) -> (r: PolicyCtx)
    ensures
        ctx_ok(r, events_view(events@), action_id@, now),
{
    let ghost log = events_view(events@);
    let mut count: u32 = 0;
    let mut first: Option<u64> = None;
    let mut last: Option<u64> = None;
    for i in 0..events.len()
        invariant
            log == events_view(events@),
            count == if failure_count(log.take(i as int), action_id@) <= u32::MAX {
                failure_count(log.take(i as int), action_id@) as u32
            } else {
                u32::MAX
            },
            first == first_failure(log.take(i as int), action_id@),
            last == last_failure(log.take(i as int), action_id@),
    {
        assert(log.take(i + 1).drop_last() =~= log.take(i as int));
        assert(log.take(i + 1).last() == events@[i as int]@);
        match &events[i] {
            Event::ActionFailed { action_id: a, at_ms, .. } => {
                if *a == *action_id {
                    if count < u32::MAX {
                        count = count + 1;
                    }
                    if first.is_none() {
                        first = Some(*at_ms);
                    }
                    last = Some(*at_ms);
                }
            },
            _ => {},
        }
    }
    assert(log.take(events.len() as int) =~= log);
    let elapsed = match first {
        Some(t) => if t <= now { now - t } else { 0 },
        None => 0,
    };
    let waited = match last {
        Some(t) => if t <= now { now - t } else { 0 },
        None => 0,
    };
    PolicyCtx { action_id: action_id.clone(), failures: count, elapsed_ms: elapsed, waited_ms: waited }
}

/// Every snapshot of run `run` lies within `log` and holds the state that
/// replaying `log` up to its position from `initial` gives.
pub open spec fn snapshots_faithful(
    snaps: Option<InMemorySnapshotStore>,
    run: Seq<char>,
    initial: Seq<FieldUpdate>,
    log: Seq<EventView>,
) -> bool {
    match snaps {
        None => true,
        Some(store) => forall|i: int|
            0 <= i < store.snapshots().len() && (#[trigger] store.snapshots()[i]).run_id@ == run ==> {
                &&& store.snapshots()[i].seq <= log.len()
                &&& store.snapshots()[i].state@ == replay_spec(initial, log.take(store.snapshots()[i].seq as int))
            },
    }
}

/// Replaying a run's whole log from its initial state gives the same state
/// as starting from a valid snapshot (one that lies within the log and holds
/// the state of the prefix it covers) and replaying the remaining events.
pub proof fn lemma_snapshot_replay_equivalence(
    initial: Seq<FieldUpdate>,
    log: Seq<EventView>,
    snap_seq: nat,
    snap_state: Seq<FieldUpdate>,
)
    requires
        snap_seq <= log.len(),
        snap_state == replay_spec(initial, log.take(snap_seq as int)),
    ensures
        replay_spec(initial, log) == replay_spec(snap_state, log.skip(snap_seq as int)),
{
    lemma_replay_split(initial, log, snap_seq as int);
}

/// A scan from the position after a valid snapshot returns exactly the
/// events the snapshot does not cover, and replaying those from the
/// snapshot's state gives the state that replaying the whole log from the
/// initial state gives.
pub proof fn lemma_snapshot_plus_scan_is_full_replay(
    initial: Seq<FieldUpdate>,
    log: Seq<EventView>,
    k: nat,
    snap_state: Seq<FieldUpdate>,
)
    requires
        k <= log.len(),
        snap_state == replay_spec(initial, log.take(k as int)),
    ensures
        scan_spec(log, k + 1).map_values(|p: (u64, EventView)| p.1) == log.skip(k as int),
        replay_spec(initial, log) == replay_spec(
            snap_state,
            scan_spec(log, k + 1).map_values(|p: (u64, EventView)| p.1),
        ),
{
    assert(scan_spec(log, k + 1).map_values(|p: (u64, EventView)| p.1) =~= log.skip(k as int));
    lemma_replay_split(initial, log, k as int);
}

/// Ties together the event store, the optional snapshot store, the step
/// function, the action executor and the policy for advancing runs.
pub struct Kernel<S: StepFn, X: ActionExecutor, P: Policy> {
    pub events: InMemoryEventStore,
    pub snaps: Option<InMemorySnapshotStore>,
    pub step: S,
    pub executor: X,
    pub policy: P,
    pub mode: KernelMode,
}

impl<S: StepFn, X: ActionExecutor, P: Policy> Kernel<S, X, P> {
    pub open spec fn wf(&self) -> bool {
        &&& self.events.wf()
        &&& self.snaps matches Some(s) ==> s.wf()
    }

    /// A kernel over empty stores.
    pub fn new(step: S, executor: X, policy: P, mode: KernelMode, with_snapshots: bool) -> (r: Self)
        ensures
            r.wf(),
            r.mode == mode,
            forall|run: Seq<char>| r.events.log(run) == Seq::<EventView>::empty(),
            with_snapshots <==> r.snaps is Some,
            r.snaps matches Some(s) ==> s.snapshots() == Seq::<crate::snapshot::Snapshot>::empty(),
    {
        Kernel {
            events: InMemoryEventStore::new(),
            snaps: if with_snapshots {
                Some(InMemorySnapshotStore::new())
            } else {
                None
            },
            step,
            executor,
            policy,
            mode,
        }
    }

    /// The run's current state: the latest snapshot at or before the end of
    /// `events` plus the events after it, or a replay of all of `events`
    /// from `initial`. With faithful snapshots both give the same state.
    pub fn load_state(&self, run_id: &RunId, initial: &KernelState, events: &Vec<Event>) -> (r: KernelState)
        requires
            self.wf(),
            initial.wf(),
            events@.len() <= u64::MAX,
        ensures
            r.wf(),
            snapshots_faithful(self.snaps, run_id@, initial@, events_view(events@)) ==> r@ == replay_spec(
                initial@,
                events_view(events@),
            ),
    {
        let ghost log = events_view(events@);
        let len = events.len() as u64;
        match &self.snaps {
            Some(store) => {
                match store.get_latest_at_or_before(run_id, len) {
                    Some(snap) => {
                        let at = snap.seq as usize;
                        let mut st = snap.state;
                        st.replay(events, at);
                        proof {
                            if snapshots_faithful(self.snaps, run_id@, initial@, log) {
                                let i = choose|i: int|
                                    0 <= i < store.snapshots().len() && store.snapshots()[i].run_id == snap.run_id
                                        && store.snapshots()[i].seq == snap.seq && store.snapshots()[i].state@
                                        == snap.state@;
                                assert(store.snapshots()[i].run_id@ == run_id@);
                                lemma_replay_split(initial@, log, at as int);
                            }
                        }
                        return st;
                    },
                    None => {},
                }
            },
            None => {},
        }
        let mut st = initial.duplicate();
        st.replay(events, 0);
        assert(log.skip(0) =~= log);
        st
    }

    /// One cycle of run `run_id` at time `now` (milliseconds): a run whose
    /// log is settled reports that status unchanged; otherwise the step
    /// function sees the derived state, the policy governs any action it
    /// asks for, and the cycle's events are appended as one batch before the
    /// status is reported. A failed append leaves the log as it was.
    pub fn advance(&mut self, run_id: &RunId, initial: &KernelState, now: u64) -> (r: Result<RunStatus, KernelError>)
        requires
            old(self).wf(),
            initial.wf(),
        ensures
            final(self).wf(),
            final(self).mode == old(self).mode,
            final(self).step == old(self).step,
            final(self).policy == old(self).policy,
            final(self).executor == old(self).executor,
            forall|other: Seq<char>|
                other != run_id@ ==> final(self).events.log(other) == old(self).events.log(other),
            snapshots_faithful(old(self).snaps, run_id@, initial@, old(self).events.log(run_id@))
                ==> snapshots_faithful(final(self).snaps, run_id@, initial@, final(self).events.log(run_id@)),
            settled(old(self).events.log(run_id@)) matches Some(s) ==> {
                &&& r == Ok::<RunStatus, KernelError>(s)
                &&& final(self).events.log(run_id@) == old(self).events.log(run_id@)
            },
            settled(old(self).events.log(run_id@)) is None ==> match r {
                Ok(status) => exists|batch: Seq<EventView>|
                    #[trigger] cycle_ok(batch, status, old(self).mode, now) && policy_ok(
                        old(self).policy,
                        old(self).events.log(run_id@),
                        batch,
                        status,
                        now,
                    ) && stepped(
                        old(self).step,
                        snapshots_faithful(old(self).snaps, run_id@, initial@, old(self).events.log(run_id@)),
                        replay_spec(initial@, old(self).events.log(run_id@)),
                        batch,
                        status,
                    ) && final(self).events.log(run_id@) == old(self).events.log(run_id@) + batch,
                Err(_) => final(self).events.log(run_id@) == old(self).events.log(run_id@),
            },
            settled(old(self).events.log(run_id@)) is None && old(self).events.log(run_id@).len() + 2 <= u64::MAX
                ==> r is Ok,
    {
        let events = self.events.events_of(run_id);
        let ghost log = events_view(events@);
        proof {
            self.events.lemma_log_fits(run_id@);
        }
        if events.len() > 0 {
            let n = events.len();
            assert(log.last() == events@[n - 1]@);
            match &events[n - 1] {
                Event::Completed => {
                    return Ok(RunStatus::Completed);
                },
                Event::Failed { reason } => {
                    return Ok(RunStatus::Failed(reason.clone()));
                },
                Event::Cancelled { reason } => {
                    return Ok(RunStatus::Failed(reason.clone()));
                },
                Event::Interrupted { key, .. } => {
                    return Ok(RunStatus::Blocked(BlockedInfo::Interrupt { key: key.clone() }));
                },
                _ => {},
            }
        }
        let state = self.load_state(run_id, initial, &events);
        let next = self.step.next(&state);
        let ghost gnext = next;
        let mut batch: Vec<Event> = Vec::new();
        let status: RunStatus;
        match next {
            Next::Emit { step_id, updates } => {
                batch.push(Event::StateUpdated { step_id, payload: updates });
                status = RunStatus::Running;
            },
            Next::Complete => {
                batch.push(Event::Completed);
                status = RunStatus::Completed;
            },
            Next::Interrupt { key, prompt } => {
                let k = key.clone();
                batch.push(Event::Interrupted { key, prompt });
                status = RunStatus::Blocked(BlockedInfo::Interrupt { key: k });
            },
            Next::Do(action) => {
                let ctx = policy_ctx(&events, &action.action_id, now);
                let decision = self.policy.evaluate(&ctx);
                assert(ctx_ok(ctx, log, ctx.action_id@, now));
                match decision {
                    Decision::Deny(reason) => {
                        let r2 = reason.clone();
                        assert(self.policy.decides(ctx, Decision::Deny(r2)));
                        batch.push(Event::Failed { reason: r2 });
                        status = RunStatus::Failed(reason);
                        assert(events_view(batch@)[0] == batch@[0]@);
                    },
                    Decision::RetryAfter(ms) => {
                        assert(self.policy.decides(ctx, Decision::RetryAfter(ms)));
                        status = RunStatus::Blocked(BlockedInfo::RetryAfter { ms });
                    },
                    Decision::Allow => {
                        assert(self.policy.decides(ctx, Decision::Allow));
                        assert(ctx_ok(ctx, log, action.action_id@, now));
                        match self.mode {
                            KernelMode::Replay => {
                                status = RunStatus::Blocked(BlockedInfo::AwaitingAction { action_id: action.action_id });
                            },
                            KernelMode::Normal => {
                                let outcome = self.executor.execute(&action);
                                let id = action.action_id.clone();
                                batch.push(Event::ActionRequested { action_id: action.action_id, input: action.input });
                                match outcome {
                                    Ok(output) => {
                                        batch.push(Event::ActionSucceeded { action_id: id, output });
                                    },
                                    Err(error) => {
                                        batch.push(Event::ActionFailed { action_id: id, error, at_ms: now });
                                    },
                                }
                                status = RunStatus::Running;
                            },
                        }
                    },
                }
            },
        }
        let ghost bv = events_view(batch@);
        assert(bv.len() == batch@.len());
        assert(forall|k: int| 0 <= k < batch@.len() ==> bv[k] == batch@[k]@);
        proof {
            if bv.len() == 1 && bv[0] == EventView::Completed {
                assert(bv =~= seq![EventView::Completed]);
            }
        }
        assert(cycle_ok(bv, status, self.mode, now));
        proof {
            if status is Blocked && status->Blocked_0 is RetryAfter {
                let ms = status->Blocked_0->RetryAfter_ms;
                assert(exists|ctx: PolicyCtx|
                    #[trigger] self.policy.decides(ctx, Decision::RetryAfter(ms)) && ctx_ok(ctx, log, ctx.action_id@, now));
            }
            if status is Blocked && status->Blocked_0 is AwaitingAction {
                let action_id = status->Blocked_0->AwaitingAction_action_id;
                assert(exists|ctx: PolicyCtx|
                    #[trigger] self.policy.decides(ctx, Decision::Allow) && ctx_ok(ctx, log, action_id@, now));
            }
            if bv.len() == 1 && bv[0] is Failed {
                assert(exists|ctx: PolicyCtx|
                    #[trigger] self.policy.decides(ctx, Decision::Deny(bv[0]->Failed_reason)) && ctx_ok(
                        ctx,
                        log,
                        ctx.action_id@,
                        now,
                    ));
            }
            if bv.len() == 2 && bv[0] is ActionRequested {
                assert(exists|ctx: PolicyCtx|
                    #[trigger] self.policy.decides(ctx, Decision::Allow) && ctx_ok(
                        ctx,
                        log,
                        bv[0]->ActionRequested_action_id@,
                        now,
                    ));
            }
        }
        assert(policy_ok(self.policy, log, bv, status, now));
        proof {
            if gnext is Emit {
                assert(bv =~= seq![EventView::StateUpdated { step_id: gnext->Emit_step_id, payload: gnext->Emit_updates@ }]);
            }
            if gnext is Interrupt {
                assert(bv =~= seq![EventView::Interrupted { key: gnext->Interrupt_key, prompt: gnext->Interrupt_prompt }]);
            }
            assert(next_matches(gnext, bv, status));
            assert(self.step.yields(state@, gnext));
            assert(stepped(
                self.step,
                snapshots_faithful(self.snaps, run_id@, initial@, log),
                replay_spec(initial@, log),
                bv,
                status,
            ));
        }
        assert(batch.len() <= 2);
        if batch.len() > 0 {
            let appended = self.events.append(run_id, &batch);
            match appended {
                Err(e) => {
                    return Err(e);
                },
                Ok(last) => {
                    let ghost new_log = self.events.log(run_id@);
                    match &mut self.snaps {
                        Some(store) => {
                            let mut ns = state.duplicate();
                            ns.replay(&batch, 0);
                            proof {
                                assert(bv.skip(0) =~= bv);
                                assert(new_log.take(log.len() as int) =~= log);
                                assert(new_log.skip(log.len() as int) =~= bv);
                                lemma_replay_split(initial@, new_log, log.len() as int);
                                assert(new_log.take(last as int) =~= new_log);
                            }
                            store.put(run_id, last, &ns);
                        },
                        None => {},
                    }
                    proof {
                        if snapshots_faithful(old(self).snaps, run_id@, initial@, log) {
                            if self.snaps is Some {
                                {
                                    let store = self.snaps->0;
                                    let old_store = old(self).snaps->0;
                                    assert forall|i: int|
                                        0 <= i < store.snapshots().len() && (#[trigger] store.snapshots()[i]).run_id@
                                            == run_id@ implies {
                                        &&& store.snapshots()[i].seq <= new_log.len()
                                        &&& store.snapshots()[i].state@ == replay_spec(
                                            initial@,
                                            new_log.take(store.snapshots()[i].seq as int),
                                        )
                                    } by {
                                        if i < old_store.snapshots().len() {
                                            assert(store.snapshots()[i] == old_store.snapshots()[i]);
                                            assert(new_log.take(store.snapshots()[i].seq as int) =~= log.take(
                                                store.snapshots()[i].seq as int,
                                            ));
                                        }
                                    }
                                }
                            }
                        }
                    }
                    return Ok(status);
                },
            }
        }
        assert(log + bv =~= log);
        Ok(status)
    }

    /// Resolves the interrupt that run `run_id` is blocked on by recording
    /// `value` for `key`. Fails with a contention error, changing nothing,
    /// when the run is not interrupted on `key`.
    pub fn resume(&mut self, run_id: &RunId, key: &String, value: String) -> (r: Result<(), KernelError>)
        requires
            old(self).wf(),
        ensures
            final(self).wf(),
            final(self).mode == old(self).mode,
            final(self).snaps == old(self).snaps,
            forall|other: Seq<char>|
                other != run_id@ ==> final(self).events.log(other) == old(self).events.log(other),
            r is Ok ==> {
                &&& interrupted_on(old(self).events.log(run_id@), key@)
                &&& final(self).events.log(run_id@) == old(self).events.log(run_id@).push(
                    EventView::Resumed { key: *key, value },
                )
            },
            r is Err ==> final(self).events.log(run_id@) == old(self).events.log(run_id@),
            !interrupted_on(old(self).events.log(run_id@), key@) ==> r matches Err(KernelError::Contention(_)),
            interrupted_on(old(self).events.log(run_id@), key@) && old(self).events.log(run_id@).len() < u64::MAX
                ==> r is Ok,
    {
        let events = self.events.events_of(run_id);
        let ghost log = events_view(events@);
        let n = events.len();
        let waiting = if n == 0 {
            false
        } else {
            assert(log.last() == events@[n - 1]@);
            match &events[n - 1] {
                Event::Interrupted { key: k, .. } => *k == *key,
                _ => false,
            }
        };
        if !waiting {
            return Err(KernelError::Contention("run is not interrupted on this key".to_string()));
        }
        let ghost v = value;
        let mut batch: Vec<Event> = Vec::new();
        batch.push(Event::Resumed { key: key.clone(), value });
        assert(events_view(batch@) =~= seq![EventView::Resumed { key: *key, value: v }]);
        self.events.append(run_id, &batch)?;
        Ok(())
    }

    /// Requests cancellation of run `run_id`: records a cancellation event,
    /// so the run reports `Failed(reason)` from its next advancement on. No
    /// event is removed. Fails with a contention error, changing nothing,
    /// when the run has already finished.
    pub fn cancel(&mut self, run_id: &RunId, reason: String) -> (r: Result<(), KernelError>)
        requires
            old(self).wf(),
        ensures
            final(self).wf(),
            final(self).mode == old(self).mode,
            final(self).snaps == old(self).snaps,
            forall|other: Seq<char>|
                other != run_id@ ==> final(self).events.log(other) == old(self).events.log(other),
            r is Ok ==> {
                &&& !finished(old(self).events.log(run_id@))
                &&& final(self).events.log(run_id@) == old(self).events.log(run_id@).push(
                    EventView::Cancelled { reason },
                )
            },
            r is Err ==> final(self).events.log(run_id@) == old(self).events.log(run_id@),
            finished(old(self).events.log(run_id@)) ==> r matches Err(KernelError::Contention(_)),
            !finished(old(self).events.log(run_id@)) && old(self).events.log(run_id@).len() < u64::MAX ==> r is Ok,
    {
        let events = self.events.events_of(run_id);
        let ghost log = events_view(events@);
        let n = events.len();
        let done = if n == 0 {
            false
        } else {
            assert(log.last() == events@[n - 1]@);
            match &events[n - 1] {
                Event::Completed | Event::Failed { .. } | Event::Cancelled { .. } => true,
                _ => false,
            }
        };
        if done {
            return Err(KernelError::Contention("run has already finished".to_string()));
        }
        let ghost why = reason;
        let mut batch: Vec<Event> = Vec::new();
        batch.push(Event::Cancelled { reason });
        assert(events_view(batch@) =~= seq![EventView::Cancelled { reason: why }]);
        self.events.append(run_id, &batch)?;
        Ok(())
    }
}

/// One cycle took the log from `before` to `after` and reported `status`:
/// it appended a batch allowed for that status, sanctioned by the policy,
/// carrying out the step function's answer on the replayed state.
pub open spec fn one_cycle<S: StepFn, P: Policy>(
    step: S,
    policy: P,
    mode: KernelMode,
    faithful: bool,
    initial: Seq<FieldUpdate>,
    now: u64,
    before: Seq<EventView>,
    after: Seq<EventView>,
    status: RunStatus,
) -> bool {
    exists|batch: Seq<EventView>|
        #[trigger] cycle_ok(batch, status, mode, now) && policy_ok(policy, before, batch, status, now) && stepped(
            step,
            faithful,
            replay_spec(initial, before),
            batch,
            status,
        ) && after == before + batch
}

/// `logs` are the logs seen by successive cycles: each cycle started on an
/// unsettled log, reported `Running`, and left the next one.
pub open spec fn running_chain<S: StepFn, P: Policy>(
    step: S,
    policy: P,
    mode: KernelMode,
    faithful: bool,
    initial: Seq<FieldUpdate>,
    now: u64,
    logs: Seq<Seq<EventView>>,
) -> bool {
    forall|i: int|
        0 <= i < logs.len() - 1 ==> settled(#[trigger] logs[i]) is None && one_cycle(
            step,
            policy,
            mode,
            faithful,
            initial,
            now,
            logs[i],
            logs[i + 1],
            RunStatus::Running,
        )
}

/// `log` ends the way a cycle reporting `status` leaves it: the run was
/// already settled with that status, or the log ends with a batch that a
/// cycle reporting `status` appends.
pub open spec fn last_cycle_reported(log: Seq<EventView>, status: RunStatus, mode: KernelMode, now: u64) -> bool {
    settled(log) == Some(status) || exists|batch: Seq<EventView>|
        #[trigger] cycle_ok(batch, status, mode, now) && batch.len() <= log.len() && log.subrange(
            log.len() - batch.len(),
            log.len() as int,
        ) == batch
}

/// A runner's result: after some cycles that each reported `Running`, either
/// all `max_cycles` of them ran and it reports `Running`, or the log was
/// already settled with the reported status, or one more cycle reported it.
pub open spec fn runner_outcome<S: StepFn, P: Policy>(
    step: S,
    policy: P,
    mode: KernelMode,
    faithful: bool,
    initial: Seq<FieldUpdate>,
    now: u64,
    from: Seq<EventView>,
    to: Seq<EventView>,
    max_cycles: nat,
    status: RunStatus,
) -> bool {
    exists|logs: Seq<Seq<EventView>>|
        #[trigger] running_chain(step, policy, mode, faithful, initial, now, logs) && logs.len() >= 1 && logs[0]
            == from && logs.len() - 1 <= max_cycles && {
            let mid = logs.last();
            ||| (status is Running && logs.len() - 1 == max_cycles && to == mid)
            ||| (!(status is Running) && logs.len() - 1 < max_cycles && settled(mid) == Some(status) && to == mid)
            ||| (!(status is Running) && logs.len() - 1 < max_cycles && settled(mid) is None && one_cycle(
                step,
                policy,
                mode,
                faithful,
                initial,
                now,
                mid,
                to,
                status,
            ))
        }
}

/// Whether a runner goes on after a cycle that reported `status`, with
/// `cycles_done` of its `max_cycles` cycles spent: only while the run keeps
/// running and cycles remain. Every runner makes this decision the same way.
pub fn keep_running(status: &RunStatus, cycles_done: u64, max_cycles: u64) -> (r: bool)
    ensures
        r == (*status is Running && cycles_done < max_cycles),
{
    match status {
        RunStatus::Running => cycles_done < max_cycles,
        _ => false,
    }
}

/// Drives a kernel through cycles until a run settles.
pub struct KernelRunner<S: StepFn, X: ActionExecutor, P: Policy> {
    pub kernel: Kernel<S, X, P>,
}

impl<S: StepFn, X: ActionExecutor, P: Policy> KernelRunner<S, X, P> {
    pub fn new(kernel: Kernel<S, X, P>) -> (r: Self)
        ensures
            r.kernel == kernel,
    {
        KernelRunner { kernel }
    }

    /// Advances run `run_id` at time `now` until a cycle reports anything but
    /// `Running`, and returns that status; after `max_cycles` cycles that all
    /// reported `Running` it returns `Running`. Stops at the first error.
    /// Events are only ever appended, two at most per cycle, at least one per
    /// cycle that reported `Running`; the returned status is the one the last
    /// cycle reported, and the run succeeds while its log cannot overflow.
    pub fn run_until_blocked(&mut self, run_id: &RunId, initial: &KernelState, now: u64, max_cycles: u64) -> (r: Result<RunStatus, KernelError>)
        requires
            old(self).kernel.wf(),
            initial.wf(),
        ensures
            final(self).kernel.wf(),
            final(self).kernel.mode == old(self).kernel.mode,
            old(self).kernel.events.log(run_id@).len() <= final(self).kernel.events.log(run_id@).len(),
            final(self).kernel.events.log(run_id@).take(old(self).kernel.events.log(run_id@).len() as int)
                == old(self).kernel.events.log(run_id@),
            forall|other: Seq<char>|
                other != run_id@ ==> final(self).kernel.events.log(other) == old(self).kernel.events.log(other),
            snapshots_faithful(old(self).kernel.snaps, run_id@, initial@, old(self).kernel.events.log(run_id@))
                ==> snapshots_faithful(
                final(self).kernel.snaps,
                run_id@,
                initial@,
                final(self).kernel.events.log(run_id@),
            ),
            old(self).kernel.events.log(run_id@).len() + 2 * max_cycles <= u64::MAX ==> r is Ok,
            max_cycles > 0 && settled(old(self).kernel.events.log(run_id@)) is Some ==> r == Ok::<
                RunStatus,
                KernelError,
            >(settled(old(self).kernel.events.log(run_id@))->0),
            max_cycles == 0 ==> r == Ok::<RunStatus, KernelError>(RunStatus::Running)
                && final(self).kernel.events.log(run_id@) == old(self).kernel.events.log(run_id@),
            r == Ok::<RunStatus, KernelError>(RunStatus::Running) ==> old(self).kernel.events.log(run_id@).len()
                + max_cycles <= final(self).kernel.events.log(run_id@).len(),
            r is Ok && !(r->Ok_0 is Running) ==> last_cycle_reported(
                final(self).kernel.events.log(run_id@),
                r->Ok_0,
                old(self).kernel.mode,
                now,
            ),
            r matches Ok(s) ==> runner_outcome(
                old(self).kernel.step,
                old(self).kernel.policy,
                old(self).kernel.mode,
                snapshots_faithful(old(self).kernel.snaps, run_id@, initial@, old(self).kernel.events.log(run_id@)),
                initial@,
                now,
                old(self).kernel.events.log(run_id@),
                final(self).kernel.events.log(run_id@),
                max_cycles as nat,
                s,
            ),
    {
        let ghost log0 = self.kernel.events.log(run_id@);
        let ghost faithful0 = snapshots_faithful(self.kernel.snaps, run_id@, initial@, log0);
        if max_cycles == 0 {
            assert(running_chain(
                self.kernel.step,
                self.kernel.policy,
                self.kernel.mode,
                faithful0,
                initial@,
                now,
                seq![log0],
            ));
            return Ok(RunStatus::Running);
        }
        let mut cycles: u64 = 0;
        let ghost mut chain: Seq<Seq<EventView>> = seq![log0];
        loop
            invariant
                self.kernel.wf(),
                self.kernel.mode == old(self).kernel.mode,
                log0 == old(self).kernel.events.log(run_id@),
                faithful0 == snapshots_faithful(old(self).kernel.snaps, run_id@, initial@, log0),
                log0.len() + cycles <= self.kernel.events.log(run_id@).len(),
                self.kernel.events.log(run_id@).len() <= log0.len() + 2 * cycles,
                self.kernel.events.log(run_id@).take(log0.len() as int) == log0,
                forall|other: Seq<char>|
                    other != run_id@ ==> self.kernel.events.log(other) == old(self).kernel.events.log(other),
                faithful0 ==> snapshots_faithful(self.kernel.snaps, run_id@, initial@, self.kernel.events.log(run_id@)),
                cycles == 0 ==> self.kernel.events.log(run_id@) == log0,
                cycles < max_cycles,
                initial.wf(),
                settled(log0) is Some ==> cycles == 0,
                cycles > 0 ==> settled(self.kernel.events.log(run_id@)) is None,
                self.kernel.step == old(self).kernel.step,
                self.kernel.policy == old(self).kernel.policy,
                running_chain(
                    old(self).kernel.step,
                    old(self).kernel.policy,
                    old(self).kernel.mode,
                    faithful0,
                    initial@,
                    now,
                    chain,
                ),
                chain.len() == cycles + 1,
                chain[0] == log0,
                chain.last() == self.kernel.events.log(run_id@),
            decreases max_cycles - cycles,
        {
            let ghost before = self.kernel.events.log(run_id@);
            let ghost faithful_now = snapshots_faithful(self.kernel.snaps, run_id@, initial@, before);
            let status = self.kernel.advance(run_id, initial, now)?;
            proof {
                let after = self.kernel.events.log(run_id@);
                let step = old(self).kernel.step;
                let policy = old(self).kernel.policy;
                let mode = old(self).kernel.mode;
                if settled(before) is None {
                    let batch = choose|batch: Seq<EventView>|
                        #[trigger] cycle_ok(batch, status, mode, now) && policy_ok(policy, before, batch, status, now)
                            && stepped(step, faithful_now, replay_spec(initial@, before), batch, status) && after
                            == before + batch;
                    let (n, st) = choose|n: Next, st: Seq<FieldUpdate>|
                        #[trigger] step.yields(st, n) && next_matches(n, batch, status) && (faithful_now ==> st
                            == replay_spec(initial@, before));
                    assert(step.yields(st, n) && next_matches(n, batch, status) && (faithful0 ==> st == replay_spec(
                        initial@,
                        before,
                    )));
                    assert(stepped(step, faithful0, replay_spec(initial@, before), batch, status));
                    assert(one_cycle(step, policy, mode, faithful0, initial@, now, before, after, status));
                }
            }
            proof {
                let after = self.kernel.events.log(run_id@);
                if after != before {
                    let batch = choose|batch: Seq<EventView>|
                        #[trigger] cycle_ok(batch, status, old(self).kernel.mode, now) && after == before + batch;
                    assert(after.take(log0.len() as int) =~= before.take(log0.len() as int));
                    assert(after.subrange(after.len() - batch.len(), after.len() as int) =~= batch);
                } else if settled(before) is None {
                    let batch = choose|batch: Seq<EventView>|
                        #[trigger] cycle_ok(batch, status, old(self).kernel.mode, now) && after == before + batch;
                    assert(batch.len() == 0);
                    assert(after.subrange(after.len() - batch.len(), after.len() as int) =~= batch);
                }
            }
            let ghost old_chain = chain;
            proof {
                if status is Running {
                    chain = chain.push(self.kernel.events.log(run_id@));
                    assert forall|i: int| 0 <= i < chain.len() - 1 implies settled(#[trigger] chain[i]) is None
                        && one_cycle(
                        old(self).kernel.step,
                        old(self).kernel.policy,
                        old(self).kernel.mode,
                        faithful0,
                        initial@,
                        now,
                        chain[i],
                        chain[i + 1],
                        RunStatus::Running,
                    ) by {
                        if i < old_chain.len() - 1 {
                            assert(chain[i] == old_chain[i] && chain[i + 1] == old_chain[i + 1]);
                        }
                    }
                }
            }
            cycles = cycles + 1;
            if !keep_running(&status, cycles, max_cycles) {
                proof {
                    let step = old(self).kernel.step;
                    let policy = old(self).kernel.policy;
                    let mode = old(self).kernel.mode;
                    let after = self.kernel.events.log(run_id@);
                    if status is Running {
                        assert(chain.last() == after);
                        assert(running_chain(step, policy, mode, faithful0, initial@, now, chain));
                    } else {
                        assert(old_chain.last() == before);
                        assert(running_chain(step, policy, mode, faithful0, initial@, now, old_chain));
                        if settled(before) is None {
                            assert(one_cycle(step, policy, mode, faithful0, initial@, now, before, after, status));
                        } else {
                            assert(settled(before) == Some(status) && after == before);
                        }
                    }
                }
                return Ok(status);
            }
        }
    }
}

} // verus!
