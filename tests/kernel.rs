use oris_runtime::event::{Event, FieldUpdate, KernelError};
use oris_runtime::execution_log::scan_execution_log;
use oris_runtime::kernel::{
    keep_running, Action, ActionExecutor, BlockedInfo, Kernel, KernelMode, KernelRunner, Next, NoopActionExecutor,
    NoopStepFn, RunStatus, StepFn,
};
use oris_runtime::policy::{AllowAllPolicy, BudgetRules, RetryWithBackoffPolicy};
use oris_runtime::reducer::KernelState;

struct TwoStep;

impl StepFn for TwoStep {
    fn next(&self, state: &KernelState) -> Next {
        if state.get(&"step1".to_string()).is_some() {
            Next::Complete
        } else {
            Next::Emit {
                step_id: Some("step1".to_string()),
                updates: vec![FieldUpdate { field: "step1".to_string(), value: "done".to_string() }],
            }
        }
    }
}

struct FetchOnce;

impl StepFn for FetchOnce {
    fn next(&self, state: &KernelState) -> Next {
        if state.get(&"fetch".to_string()).is_some() {
            Next::Complete
        } else {
            Next::Do(Action { action_id: "fetch".to_string(), input: "x".to_string() })
        }
    }
}

struct Echo;

impl ActionExecutor for Echo {
    fn execute(&self, action: &Action) -> Result<String, String> {
        Ok(format!("{}!", action.input))
    }
}

struct AlwaysFails;

impl ActionExecutor for AlwaysFails {
    fn execute(&self, _action: &Action) -> Result<String, String> {
        Err("unreachable host".to_string())
    }
}

struct AskFirst;

impl StepFn for AskFirst {
    fn next(&self, state: &KernelState) -> Next {
        if state.get(&"answer".to_string()).is_some() {
            Next::Complete
        } else {
            Next::Interrupt { key: "answer".to_string(), prompt: "what?".to_string() }
        }
    }
}

#[test]
fn two_step_run_blocking_and_suspending_agree() {
    let run = "run-two".to_string();
    let initial = KernelState::new();

    let mut blocking =
        KernelRunner::new(Kernel::new(TwoStep, NoopActionExecutor {}, AllowAllPolicy {}, KernelMode::Normal, false));
    let status = blocking.run_until_blocked(&run, &initial, 0, 100).unwrap();
    assert_eq!(status, RunStatus::Completed);
    let log = scan_execution_log(&blocking.kernel.events, &run, 1).unwrap();
    assert_eq!(log.len(), 2);
    assert!(matches!(log[0].event, Event::StateUpdated { .. }));
    assert_eq!(log[0].step_id.as_deref(), Some("step1"));
    assert_eq!(log[1].event, Event::Completed);
    assert_eq!(log[1].step_id, None);

    let mut kernel = Kernel::new(TwoStep, NoopActionExecutor {}, AllowAllPolicy {}, KernelMode::Normal, false);
    let rt = tokio::runtime::Builder::new_current_thread().build().unwrap();
    let max_cycles: u64 = 100;
    let suspended = rt.block_on(async {
        let mut cycles: u64 = 0;
        loop {
            let s = kernel.advance(&run, &initial, 0).unwrap();
            cycles += 1;
            if !keep_running(&s, cycles, max_cycles) {
                break s;
            }
            tokio::task::yield_now().await;
        }
    });
    assert_eq!(suspended, RunStatus::Completed);
    let log2 = scan_execution_log(&kernel.events, &run, 1).unwrap();
    assert_eq!(log2.len(), log.len());
    for (a, b) in log.iter().zip(log2.iter()) {
        assert_eq!(a.event, b.event);
        assert_eq!(a.step_id, b.step_id);
        assert_eq!(a.event_index, b.event_index);
    }
}

#[test]
fn completed_run_stays_completed() {
    let run = "run-done".to_string();
    let mut runner =
        KernelRunner::new(Kernel::new(NoopStepFn {}, NoopActionExecutor {}, AllowAllPolicy {}, KernelMode::Normal, false));
    let initial = KernelState::new();
    assert_eq!(runner.run_until_blocked(&run, &initial, 0, 10), Ok(RunStatus::Completed));
    assert_eq!(runner.run_until_blocked(&run, &initial, 0, 10), Ok(RunStatus::Completed));
    assert_eq!(runner.kernel.events.latest_seq(&run), 1);
    assert_eq!(runner.run_until_blocked(&run, &initial, 0, 0), Ok(RunStatus::Running));
}

#[test]
fn snapshot_and_full_replay_agree() {
    let run = "run-snap".to_string();
    let initial = KernelState::new();
    let mut runner =
        KernelRunner::new(Kernel::new(FetchOnce, Echo, AllowAllPolicy {}, KernelMode::Normal, true));
    assert_eq!(runner.run_until_blocked(&run, &initial, 0, 10), Ok(RunStatus::Completed));
    let events = runner.kernel.events.events_of(&run);
    let with_snap = runner.kernel.load_state(&run, &initial, &events);
    let mut full = KernelState::new();
    full.replay(&events, 0);
    assert_eq!(with_snap.get(&"fetch".to_string()), Some("x!".to_string()));
    assert_eq!(full.get(&"fetch".to_string()), with_snap.get(&"fetch".to_string()));

    let mut prefix = KernelState::new();
    let cut = vec![events[0].clone(), events[1].clone()];
    prefix.replay(&cut, 0);
    prefix.replay(&events, 2);
    assert_eq!(prefix.get(&"fetch".to_string()), full.get(&"fetch".to_string()));
}

#[test]
fn executed_action_is_logged_and_reduced() {
    let run = "run-act".to_string();
    let mut runner = KernelRunner::new(Kernel::new(FetchOnce, Echo, AllowAllPolicy {}, KernelMode::Normal, false));
    let initial = KernelState::new();
    assert_eq!(runner.run_until_blocked(&run, &initial, 5, 10), Ok(RunStatus::Completed));
    let events = runner.kernel.events.events_of(&run);
    assert_eq!(
        events,
        vec![
            Event::ActionRequested { action_id: "fetch".into(), input: "x".into() },
            Event::ActionSucceeded { action_id: "fetch".into(), output: "x!".into() },
            Event::Completed,
        ]
    );
}

#[test]
fn retry_policy_backs_off_then_denies() {
    let run = "run-retry".to_string();
    let rules = BudgetRules { max_attempts: 2, max_elapsed_ms: 10_000, base_backoff_ms: 100, max_backoff_ms: 1_000 };
    let mut kernel = Kernel::new(FetchOnce, AlwaysFails, RetryWithBackoffPolicy::new(rules), KernelMode::Normal, false);
    let initial = KernelState::new();
    assert_eq!(kernel.advance(&run, &initial, 0), Ok(RunStatus::Running));
    assert_eq!(kernel.advance(&run, &initial, 40), Ok(RunStatus::Blocked(BlockedInfo::RetryAfter { ms: 60 })));
    assert_eq!(kernel.events.latest_seq(&run), 2);
    assert_eq!(kernel.advance(&run, &initial, 100), Ok(RunStatus::Running));
    let denied = kernel.advance(&run, &initial, 5_000).unwrap();
    assert_eq!(denied, RunStatus::Failed("retry budget exhausted".to_string()));
    let events = kernel.events.events_of(&run);
    assert_eq!(events.len(), 5);
    assert_eq!(
        events[3],
        Event::ActionFailed { action_id: "fetch".into(), error: "unreachable host".into(), at_ms: 100 }
    );
    assert_eq!(events[4], Event::Failed { reason: "retry budget exhausted".into() });
    assert_eq!(kernel.advance(&run, &initial, 6_000), Ok(denied));
}

#[test]
fn replay_mode_never_executes_actions() {
    let run = "run-replay".to_string();
    let mut kernel = Kernel::new(FetchOnce, Echo, AllowAllPolicy {}, KernelMode::Replay, false);
    let status = kernel.advance(&run, &KernelState::new(), 0).unwrap();
    assert_eq!(status, RunStatus::Blocked(BlockedInfo::AwaitingAction { action_id: "fetch".into() }));
    assert_eq!(kernel.events.latest_seq(&run), 0);
}

#[test]
fn interrupt_blocks_until_resumed() {
    let run = "run-ask".to_string();
    let initial = KernelState::new();
    let mut runner = KernelRunner::new(Kernel::new(AskFirst, NoopActionExecutor {}, AllowAllPolicy {}, KernelMode::Normal, false));
    let blocked = RunStatus::Blocked(BlockedInfo::Interrupt { key: "answer".into() });
    assert_eq!(runner.run_until_blocked(&run, &initial, 0, 10), Ok(blocked.clone()));
    assert_eq!(runner.run_until_blocked(&run, &initial, 0, 10), Ok(blocked));
    assert_eq!(runner.kernel.events.latest_seq(&run), 1);
    assert!(matches!(
        runner.kernel.resume(&run, &"other".to_string(), "1".to_string()),
        Err(KernelError::Contention(_))
    ));
    runner.kernel.resume(&run, &"answer".to_string(), "42".to_string()).unwrap();
    assert_eq!(runner.run_until_blocked(&run, &initial, 0, 10), Ok(RunStatus::Completed));
    let events = runner.kernel.events.events_of(&run);
    assert_eq!(events[1], Event::Resumed { key: "answer".into(), value: "42".into() });
}

#[test]
fn reducer_sets_and_replaces_fields() {
    let mut s = KernelState::new();
    s.set(FieldUpdate { field: "a".into(), value: "1".into() });
    s.set(FieldUpdate { field: "b".into(), value: "2".into() });
    s.set(FieldUpdate { field: "a".into(), value: "3".into() });
    assert_eq!(s.get(&"a".to_string()), Some("3".to_string()));
    assert_eq!(s.get(&"b".to_string()), Some("2".to_string()));
    assert_eq!(s.get(&"c".to_string()), None);
    s.apply(&Event::Completed);
    assert_eq!(s.get(&"a".to_string()), Some("3".to_string()));
}

#[test]
fn cancelled_run_fails_on_next_advance() {
    let run = "run-cancel".to_string();
    let initial = KernelState::new();
    let mut runner = KernelRunner::new(Kernel::new(AskFirst, NoopActionExecutor {}, AllowAllPolicy {}, KernelMode::Normal, false));
    runner.run_until_blocked(&run, &initial, 0, 10).unwrap();
    runner.kernel.cancel(&run, "operator stop".to_string()).unwrap();
    assert_eq!(runner.run_until_blocked(&run, &initial, 0, 10), Ok(RunStatus::Failed("operator stop".to_string())));
    let events = runner.kernel.events.events_of(&run);
    assert_eq!(events.len(), 2);
    assert_eq!(events[0], Event::Interrupted { key: "answer".into(), prompt: "what?".into() });
    assert_eq!(events[1], Event::Cancelled { reason: "operator stop".into() });
    assert!(matches!(runner.kernel.cancel(&run, "again".to_string()), Err(KernelError::Contention(_))));
}

#[test]
fn keep_running_only_while_running_with_cycles_left() {
    assert!(keep_running(&RunStatus::Running, 1, 2));
    assert!(!keep_running(&RunStatus::Running, 2, 2));
    assert!(!keep_running(&RunStatus::Completed, 0, 5));
    assert!(!keep_running(&RunStatus::Failed("x".into()), 0, 5));
}

#[test]
fn runner_stops_after_max_cycles_while_running() {
    let run = "run-cap".to_string();
    let mut runner =
        KernelRunner::new(Kernel::new(TwoStep, NoopActionExecutor {}, AllowAllPolicy {}, KernelMode::Normal, false));
    assert_eq!(runner.run_until_blocked(&run, &KernelState::new(), 0, 1), Ok(RunStatus::Running));
    assert_eq!(runner.kernel.events.latest_seq(&run), 1);
    assert_eq!(runner.run_until_blocked(&run, &KernelState::new(), 0, 1), Ok(RunStatus::Completed));
}
