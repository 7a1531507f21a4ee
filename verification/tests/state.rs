use meta_agents_server::model::{Event, TaskStatus, Transport};
use meta_agents_server::state::{
    event_acks, frame_payload, ingest_events, payload_ack, MAX_INGEST_BATCH_EVENTS,
    MAX_INGEST_PAYLOAD_BYTES,
};
use meta_agents_server::storage::{LruStorage, StorageConfig};

fn store() -> LruStorage {
    LruStorage::new(StorageConfig {
        max_agents: 8,
        events_per_agent: 8,
        recent_events: 16,
        sessions_per_agent: 4,
        max_tasks: 8,
        max_lessons: 8,
    })
}

fn heartbeat(agent: &str) -> Event {
    Event::Heartbeat { agent: agent.to_string() }
}

#[test]
fn invalid_batch_is_atomic_and_does_not_consume_sequence_numbers() {
    let mut state = store();
    let framed = frame_payload(r#"[{"type":"heartbeat","agent":"valid-first"},{"type":"task"}]"#).unwrap();
    assert!(framed.batch);
    let batch = vec![
        heartbeat("valid-first"),
        Event::Task {
            agent: "invalid-second".to_string(),
            task_id: "task-1".to_string(),
            parent_id: None,
            title: "invalid progress".to_string(),
            status: TaskStatus::Running,
            percent: 101,
            meta: false,
        },
    ];
    let error = ingest_events(&mut state, Transport::Http, batch, true)
        .expect_err("invalid second event must reject the entire batch");
    assert!(error.contains("percent 101"));
    assert!(state.agents().is_empty());
    assert!(state.recent_events(100).is_empty());

    let framed = frame_payload(r#"{"type":"heartbeat","agent":"first-real-event"}"#).unwrap();
    assert!(!framed.batch);
    let stored = ingest_events(&mut state, Transport::Http, vec![heartbeat("first-real-event")], framed.batch)
        .expect("valid event after rejected batch");
    assert_eq!(stored.len(), 1);
    assert_eq!(stored[0].seq, 1, "rejected batch consumed a sequence number");
}

#[test]
fn valid_batch_is_committed_in_order_with_one_transport() {
    let mut state = store();
    let stored = ingest_events(&mut state, Transport::Tcp, vec![heartbeat("agent-a"), heartbeat("agent-b")], true)
        .expect("valid batch");
    assert_eq!(stored.len(), 2);
    assert_eq!(stored[0].seq, 1);
    assert_eq!(stored[1].seq, 2);
    assert!(stored.iter().all(|event| event.transport == Transport::Tcp));
    assert_eq!(state.recent_events(100).len(), 2);
}

#[test]
fn empty_and_oversized_batches_fail_closed_without_mutation() {
    let mut state = store();
    let framed = frame_payload("[]").unwrap();
    assert!(framed.batch);
    assert_eq!(
        ingest_events(&mut state, Transport::Http, Vec::new(), framed.batch).unwrap_err(),
        "event batch must not be empty"
    );
    let events: Vec<Event> = (0..=MAX_INGEST_BATCH_EVENTS).map(|index| heartbeat(&format!("agent-{index}"))).collect();
    let error = ingest_events(&mut state, Transport::Http, events, true).expect_err("oversized batch");
    assert!(error.contains("event batch exceeds"));
    assert_eq!(error, "event batch exceeds 256 event limit");
    assert!(state.agents().is_empty());
    assert!(state.recent_events(100).is_empty());
}

#[test]
fn payload_byte_limit_is_checked_before_json_parsing() {
    let state = store();
    let payload = "x".repeat(MAX_INGEST_PAYLOAD_BYTES + 1);
    let error = frame_payload(&payload).expect_err("oversized payload");
    assert_eq!(error, format!("payload exceeds {MAX_INGEST_PAYLOAD_BYTES} byte limit"));
    assert!(state.agents().is_empty());
}

#[test]
fn payload_framing_trims_and_detects_arrays() {
    assert_eq!(frame_payload("   \n\t").unwrap_err(), "empty payload");
    assert_eq!(frame_payload("").unwrap_err(), "empty payload");
    let f = frame_payload("\u{a0} [1] \r\n").unwrap();
    assert_eq!((f.text.as_str(), f.batch), ("[1]", true));
    let f = frame_payload(" {\"a\":1}").unwrap();
    assert_eq!((f.text.as_str(), f.batch), ("{\"a\":1}", false));
    // the limit counts bytes, not characters
    let exact = "é".repeat(MAX_INGEST_PAYLOAD_BYTES / 2);
    assert!(frame_payload(&exact).is_ok());
    let over = format!("{exact}x");
    assert!(frame_payload(&over).is_err());
}

#[test]
fn batch_of_exactly_the_limit_is_accepted() {
    let mut state = LruStorage::new(StorageConfig::default());
    let events: Vec<Event> = (0..MAX_INGEST_BATCH_EVENTS).map(|i| heartbeat(&format!("a{i}"))).collect();
    let stored = ingest_events(&mut state, Transport::Udp, events, true).unwrap();
    assert_eq!(stored.len(), 256);
    assert_eq!(stored[255].seq, 256);
    let ack = payload_ack(&Ok(stored));
    assert!(ack.ok);
    assert_eq!(ack.seq, Some(256));
}

#[test]
fn single_invalid_event_is_refused_with_its_reason() {
    let mut state = store();
    let r = ingest_events(&mut state, Transport::Websocket, vec![heartbeat("")], false);
    assert_eq!(r.unwrap_err(), "agent name must be non-empty");
    let ack = payload_ack(&Err("agent name must be non-empty".to_string()));
    assert!(!ack.ok);
    assert_eq!(ack.seq, None);
    assert_eq!(ack.error.as_deref(), Some("agent name must be non-empty"));
}

#[test]
fn http_acks_follow_the_stored_events() {
    let mut state = store();
    let stored = ingest_events(&mut state, Transport::Http, vec![heartbeat("a"), heartbeat("b")], true).unwrap();
    let acks = event_acks(&stored);
    assert_eq!(acks.iter().map(|a| a.seq).collect::<Vec<_>>(), vec![Some(1), Some(2)]);
    assert!(acks.iter().all(|a| a.ok && a.error.is_none()));
    assert_eq!(payload_ack(&Ok(Vec::new())).seq, Some(0));
}

#[test]
fn read_side_limit_is_capped_at_one_thousand_events() {
    let mut state = LruStorage::new(StorageConfig::default());
    for index in 0..1_005 {
        state.ingest(Transport::Internal, heartbeat(&format!("agent-{index}"))).expect("seed event");
    }
    let limit = meta_agents_server::api::read_limit(Some(usize::MAX));
    let events = state.recent_events(limit);
    assert_eq!(events.len(), 1_000);
    assert!(events.windows(2).all(|window| window[0].seq < window[1].seq));
}
