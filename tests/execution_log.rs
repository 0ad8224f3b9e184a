use oris_runtime::event::{Event, FieldUpdate, InMemoryEventStore, SequencedEvent};
use oris_runtime::execution_log::{scan_execution_log, step_id_from_event, ExecutionLog};
use oris_runtime::identity::RunId;

fn payload_one() -> Vec<FieldUpdate> {
    vec![FieldUpdate { field: "value".to_string(), value: "[1]".to_string() }]
}

#[test]
fn scan_execution_log_returns_canonical_entries() {
    let mut store = InMemoryEventStore::new();
    let run_id: RunId = "run-scan".into();
    store
        .append(
            &run_id,
            &vec![
                Event::StateUpdated { step_id: Some("n1".into()), payload: payload_one() },
                Event::Completed,
            ],
        )
        .unwrap();
    let log = scan_execution_log(&store, &run_id, 1).unwrap();
    assert_eq!(log.len(), 2);
    assert_eq!(log[0].thread_id, run_id);
    assert_eq!(log[0].event_index, 1);
    assert_eq!(log[0].step_id.as_deref(), Some("n1"));
    assert_eq!(log[1].event_index, 2);
    assert!(matches!(log[1].event, Event::Completed));
}

#[test]
fn from_sequenced_state_updated_has_step_id() {
    let thread_id: RunId = "run-1".into();
    let se = SequencedEvent {
        seq: 1,
        event: Event::StateUpdated { step_id: Some("node-a".into()), payload: payload_one() },
    };
    let log = ExecutionLog::from_sequenced(thread_id.clone(), &se, None);
    assert_eq!(log.thread_id, thread_id);
    assert_eq!(log.step_id.as_deref(), Some("node-a"));
    assert_eq!(log.event_index, 1);
    assert!(log.state_hash.is_none());
}

#[test]
fn from_sequenced_completed_has_no_step_id() {
    let thread_id: RunId = "run-2".into();
    let se = SequencedEvent { seq: 2, event: Event::Completed };
    let log = ExecutionLog::from_sequenced(thread_id.clone(), &se, None);
    assert_eq!(log.step_id, None);
    assert_eq!(log.event_index, 2);
}

#[test]
fn from_sequenced_keeps_state_hash_and_event() {
    let se = SequencedEvent {
        seq: 7,
        event: Event::ActionSucceeded { action_id: "a".into(), output: "out".into() },
    };
    let log = ExecutionLog::from_sequenced("run-h".into(), &se, Some([9u8; 32]));
    assert_eq!(log.state_hash, Some([9u8; 32]));
    assert_eq!(log.step_id, None);
    assert_eq!(log.event, se.event);
}

#[test]
fn step_id_only_from_state_updates() {
    let with = Event::StateUpdated { step_id: Some("s".into()), payload: vec![] };
    let without = Event::StateUpdated { step_id: None, payload: vec![] };
    let other = Event::Interrupted { key: "k".into(), prompt: "p".into() };
    assert_eq!(step_id_from_event(&with), Some("s".to_string()));
    assert_eq!(step_id_from_event(&without), None);
    assert_eq!(step_id_from_event(&other), None);
}

#[test]
fn append_then_scan_is_ordered_without_gaps() {
    let mut store = InMemoryEventStore::new();
    let run: RunId = "run-order".into();
    let first = vec![
        Event::StateUpdated { step_id: Some("a".into()), payload: payload_one() },
        Event::ActionRequested { action_id: "x".into(), input: "i".into() },
        Event::ActionSucceeded { action_id: "x".into(), output: "o".into() },
    ];
    assert_eq!(store.append(&run, &first), Ok(3));
    let scanned = store.scan(&run, 1).unwrap();
    assert_eq!(scanned.len(), 3);
    for (i, se) in scanned.iter().enumerate() {
        assert_eq!(se.seq, i as u64 + 1);
        assert_eq!(se.event, first[i]);
    }
    let second = vec![Event::Completed, Event::Failed { reason: "late".into() }];
    assert_eq!(store.append(&run, &second), Ok(5));
    let tail = store.scan(&run, 4).unwrap();
    assert_eq!(tail.len(), 2);
    assert_eq!(tail[0].seq, 4);
    assert_eq!(tail[0].event, Event::Completed);
    assert_eq!(tail[1].seq, 5);
    assert_eq!(store.latest_seq(&run), 5);
    assert_eq!(store.scan(&run, 0).unwrap().len(), 5);
    assert_eq!(store.scan(&run, 9).unwrap().len(), 0);
}

#[test]
fn append_keeps_runs_apart() {
    let mut store = InMemoryEventStore::new();
    let a: RunId = "run-a".into();
    let b: RunId = "run-b".into();
    store.append(&a, &vec![Event::Completed]).unwrap();
    assert_eq!(store.append(&b, &vec![]), Ok(0));
    assert_eq!(store.latest_seq(&a), 1);
    assert_eq!(store.latest_seq(&b), 0);
    assert!(store.scan(&b, 1).unwrap().is_empty());
}

#[test]
fn scan_execution_log_twice_is_identical() {
    let mut store = InMemoryEventStore::new();
    let run: RunId = "run-twice".into();
    store
        .append(
            &run,
            &vec![
                Event::StateUpdated { step_id: Some("n1".into()), payload: payload_one() },
                Event::Completed,
            ],
        )
        .unwrap();
    let first = scan_execution_log(&store, &run, 1).unwrap();
    let second = scan_execution_log(&store, &run, 1).unwrap();
    assert_eq!(first.len(), second.len());
    for (x, y) in first.iter().zip(second.iter()) {
        assert_eq!(x.thread_id, y.thread_id);
        assert_eq!(x.step_id, y.step_id);
        assert_eq!(x.event_index, y.event_index);
        assert_eq!(x.event, y.event);
        assert_eq!(x.state_hash, y.state_hash);
    }
}
