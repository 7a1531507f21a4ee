use meta_agents_server::api::{default_limit, is_live, read_limit, with_liveness_at};
use meta_agents_server::model::{Ack, AgentSnapshot, Event, IntrospectionKind, Provider, TaskStatus, Transport};

#[test]
fn labels() {
    assert_eq!(Provider::Chatgpt.label(), "ChatGPT");
    assert_eq!(Provider::default(), Provider::Other);
    assert_eq!(IntrospectionKind::SelfAssessment.label(), "self-assessment");
    assert_eq!(TaskStatus::Blocked.label(), "blocked");
    assert_eq!(Transport::Websocket.label(), "websocket");
    let e = Event::Heartbeat { agent: "a".to_string() };
    assert_eq!(e.kind_label(), "heartbeat");
    assert_eq!(e.agent_name(), Some("a"));
}

#[test]
fn acks() {
    let ok = Ack::ok(7);
    assert!(ok.ok);
    assert_eq!(ok.seq, Some(7));
    assert!(ok.error.is_none());
    let err = Ack::err("unknown agent".to_string());
    assert!(!err.ok);
    assert_eq!(err.seq, None);
    assert_eq!(err.error.as_deref(), Some("unknown agent"));
}

#[test]
fn liveness_window_is_thirty_seconds() {
    assert!(is_live(130_000, 100_000));
    assert!(!is_live(130_001, 100_000));
    assert!(is_live(0, 100));
    let snap = AgentSnapshot {
        name: "a".to_string(),
        provider: Provider::Claude,
        sessions: vec![],
        first_seen_ms: 1,
        last_seen_ms: 1_000,
        events_ingested: 1,
        last_confidence: None,
        current_strategy: None,
    };
    let entry = with_liveness_at(snap, 40_000);
    assert!(!entry.live);
    assert_eq!(entry.snapshot.name, "a");
}

#[test]
fn query_limits() {
    assert_eq!(default_limit(), 100);
    assert_eq!(read_limit(None), 100);
    assert_eq!(read_limit(Some(5)), 5);
    assert_eq!(read_limit(Some(1000)), 1000);
    assert_eq!(read_limit(Some(1001)), 1000);
}
