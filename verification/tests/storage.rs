use meta_agents_server::model::{
    AgentRegistration, Confidence, Event, IntrospectionKind, Provider, TaskStatus, Transport,
};
use meta_agents_server::storage::{LruStorage, StorageConfig};

fn store() -> LruStorage {
    LruStorage::new(StorageConfig {
        max_agents: 4,
        events_per_agent: 4,
        recent_events: 8,
        sessions_per_agent: 2,
        max_tasks: 8,
        max_lessons: 4,
    })
}

fn register(s: &mut LruStorage, name: &str, provider: Provider) {
    s.ingest(
        Transport::Internal,
        Event::Register {
            agent: AgentRegistration {
                name: name.to_string(),
                provider,
                session: Some(format!("{name}-session-1")),
            },
        },
    )
    .expect("register");
}

fn confidence(c: f64) -> Confidence {
    Confidence { bits: c.to_bits(), text: format!("{c}") }
}

#[test]
fn registration_and_snapshot() {
    let mut s = store();
    register(&mut s, "anthropic-1", Provider::Claude);
    let agents = s.agents();
    assert_eq!(agents.len(), 1);
    assert_eq!(agents[0].provider, Provider::Claude);
    assert_eq!(agents[0].sessions, vec!["anthropic-1-session-1".to_string()]);
    assert_eq!(agents[0].events_ingested, 1);
}

#[test]
fn auto_registers_unknown_agents() {
    let mut s = store();
    s.ingest(Transport::Udp, Event::Heartbeat { agent: "ghost".to_string() }).expect("ingest");
    assert!(s.agent("ghost").is_some());
}

#[test]
fn per_agent_event_ring_is_bounded() {
    let mut s = store();
    for i in 0..10 {
        s.ingest(
            Transport::Tcp,
            Event::Introspection {
                agent: "a".to_string(),
                kind: IntrospectionKind::Thought,
                content: format!("thought {i}"),
            },
        )
        .expect("ingest");
    }
    let events = s.events_for("a", 100);
    assert_eq!(events.len(), 4, "ring capacity is 4");
    // Oldest entries were evicted; the newest survive in order.
    assert!(events.windows(2).all(|w| w[0].seq < w[1].seq));
    assert_eq!(events.last().expect("non-empty").seq, 10);
    // The total counter is not bounded by the ring.
    assert_eq!(s.agent("a").expect("agent").events_ingested, 10);
}

#[test]
fn rejects_invalid_events() {
    let mut s = store();
    assert!(s.ingest(Transport::Http, Event::Heartbeat { agent: "  ".to_string() }).is_err());
    assert!(s
        .ingest(
            Transport::Http,
            Event::Metacognition {
                agent: "a".to_string(),
                confidence: Some(confidence(1.5)),
                strategy: None,
                reflection: None,
            }
        )
        .is_err());
    assert!(s
        .ingest(
            Transport::Http,
            Event::Task {
                agent: "a".to_string(),
                task_id: "t".to_string(),
                parent_id: None,
                title: "x".to_string(),
                status: TaskStatus::Running,
                percent: 101,
                meta: false,
            }
        )
        .is_err());
}

#[test]
fn task_reported_by_two_agents_becomes_meta() {
    let mut s = store();
    for agent in ["anthropic-1", "gpt-1"] {
        s.ingest(
            Transport::Http,
            Event::Task {
                agent: agent.to_string(),
                task_id: "shared-1".to_string(),
                parent_id: None,
                title: "Cross-agent research".to_string(),
                status: TaskStatus::Running,
                percent: 30,
                meta: false,
            },
        )
        .expect("ingest");
    }
    let tasks = s.tasks();
    assert_eq!(tasks.len(), 1);
    assert!(tasks[0].meta);
    assert_eq!(tasks[0].agents.len(), 2);
}

#[test]
fn lessons_filter_by_topic_substring() {
    let mut s = store();
    for (topic, lesson) in [
        ("rust-async", "spawn_blocking for CPU work"),
        ("prompting", "state the output format first"),
        ("rust-borrowck", "clone at the boundary"),
    ] {
        s.ingest(
            Transport::Websocket,
            Event::Learning {
                agent: "a".to_string(),
                topic: topic.to_string(),
                lesson: lesson.to_string(),
            },
        )
        .expect("ingest");
    }
    assert_eq!(s.lessons(None).len(), 3);
    assert_eq!(s.lessons(Some("RUST")).len(), 2);
    assert_eq!(s.lessons(Some("prompt")).len(), 1);
    assert_eq!(s.lessons(Some("nope")).len(), 0);
}

#[test]
fn invalid_events_name_their_reason_and_change_nothing() {
    let mut s = store();
    let cases: Vec<(Event, &str)> = vec![
        (Event::Heartbeat { agent: " \t".to_string() }, "agent name must be non-empty"),
        (
            Event::Metacognition {
                agent: "a".to_string(),
                confidence: Some(confidence(1.5)),
                strategy: None,
                reflection: None,
            },
            "confidence 1.5 outside 0.0..=1.0",
        ),
        (
            Event::Metacognition { agent: "a".to_string(), confidence: None, strategy: None, reflection: None },
            "metacognition event needs confidence, strategy or reflection",
        ),
        (
            Event::Task {
                agent: "a".to_string(),
                task_id: " ".to_string(),
                parent_id: None,
                title: "x".to_string(),
                status: TaskStatus::Pending,
                percent: 0,
                meta: false,
            },
            "task_id must be non-empty",
        ),
        (
            Event::Task {
                agent: "a".to_string(),
                task_id: "t".to_string(),
                parent_id: None,
                title: "x".to_string(),
                status: TaskStatus::Pending,
                percent: 255,
                meta: false,
            },
            "percent 255 outside 0..=100",
        ),
        (
            Event::Learning { agent: "a".to_string(), topic: "\u{3000}".to_string(), lesson: "l".to_string() },
            "topic must be non-empty",
        ),
    ];
    for (event, reason) in cases {
        assert_eq!(s.ingest(Transport::Http, event).unwrap_err(), reason);
    }
    assert_eq!(s.last_seq(), 0);
    assert!(s.agents().is_empty());
    assert!(s.recent_events(100).is_empty());
}

#[test]
fn confidence_range_is_inclusive_and_refuses_nan() {
    let mut s = store();
    for c in [0.0, 1.0, -0.0, 0.72] {
        let r = s.ingest(
            Transport::Http,
            Event::Metacognition { agent: "a".to_string(), confidence: Some(confidence(c)), strategy: None, reflection: None },
        );
        assert!(r.is_ok(), "{c} accepted");
    }
    for c in [f64::NAN, -0.1, 1.0000001, f64::INFINITY] {
        let r = s.ingest(
            Transport::Http,
            Event::Metacognition { agent: "a".to_string(), confidence: Some(confidence(c)), strategy: None, reflection: None },
        );
        assert!(r.is_err(), "{c} refused");
    }
    let a = s.agent("a").expect("agent");
    assert_eq!(a.events_ingested, 4);
    assert_eq!(a.last_confidence.expect("confidence").bits, 0.72f64.to_bits());
}

#[test]
fn stored_events_get_consecutive_sequence_numbers_and_times() {
    let mut s = store();
    let first = s.ingest_at(Transport::Tcp, Event::Heartbeat { agent: "a".to_string() }, 1_000).unwrap();
    let second = s.ingest_at(Transport::Udp, Event::Heartbeat { agent: "b".to_string() }, 2_000).unwrap();
    assert_eq!((first.seq, first.received_at_ms, first.transport), (1, 1_000, Transport::Tcp));
    assert_eq!((second.seq, second.received_at_ms, second.transport), (2, 2_000, Transport::Udp));
    let recent = s.recent_events(100);
    assert_eq!(recent.iter().map(|e| e.seq).collect::<Vec<_>>(), vec![1, 2]);
    assert_eq!(s.recent_events(1).iter().map(|e| e.seq).collect::<Vec<_>>(), vec![2]);
    assert!(s.recent_events(0).is_empty());
}

#[test]
fn global_ring_keeps_the_newest_events() {
    let mut s = store();
    for i in 0..20u64 {
        s.ingest_at(Transport::Internal, Event::Heartbeat { agent: format!("a{}", i % 3) }, i).unwrap();
    }
    let recent = s.recent_events(100);
    assert_eq!(recent.iter().map(|e| e.seq).collect::<Vec<_>>(), (13..=20).collect::<Vec<u64>>());
}

#[test]
fn agents_are_listed_most_recently_seen_first_and_evicted_least_recent() {
    let mut s = store();
    for (i, name) in ["a", "b", "c", "d"].iter().enumerate() {
        s.ingest_at(Transport::Http, Event::Heartbeat { agent: name.to_string() }, 100 + i as u64).unwrap();
    }
    // touching "a" makes it the most recent one, so "b" is evicted next
    s.ingest_at(Transport::Http, Event::Heartbeat { agent: "a".to_string() }, 200).unwrap();
    s.ingest_at(Transport::Http, Event::Heartbeat { agent: "e".to_string() }, 150).unwrap();
    let names: Vec<String> = s.agents().into_iter().map(|a| a.name).collect();
    assert_eq!(names, vec!["a", "e", "d", "c"]);
    assert!(s.agent("b").is_none());
    let a = s.agent("a").unwrap();
    assert_eq!((a.first_seen_ms, a.last_seen_ms, a.events_ingested), (100, 200, 2));
}

#[test]
fn sessions_are_bounded_and_most_recent_first() {
    let mut s = store();
    for (i, session) in ["s1", "s2", "s1", "s3"].iter().enumerate() {
        s.ingest_at(
            Transport::Http,
            Event::Register {
                agent: AgentRegistration {
                    name: "a".to_string(),
                    provider: Provider::Gemini,
                    session: Some(session.to_string()),
                },
            },
            10 + i as u64,
        )
        .unwrap();
    }
    let a = s.agent("a").unwrap();
    assert_eq!(a.sessions, vec!["s3".to_string(), "s1".to_string()]);
    assert_eq!(a.provider, Provider::Gemini);
    assert_eq!(s.agents().len(), 1);
}

#[test]
fn metacognition_updates_confidence_and_strategy_only_when_given() {
    let mut s = store();
    s.ingest(
        Transport::Websocket,
        Event::Metacognition {
            agent: "gpt-1".to_string(),
            confidence: Some(confidence(0.65)),
            strategy: Some("tree-of-thought".to_string()),
            reflection: None,
        },
    )
    .unwrap();
    s.ingest(
        Transport::Websocket,
        Event::Metacognition {
            agent: "gpt-1".to_string(),
            confidence: None,
            strategy: None,
            reflection: Some("worked".to_string()),
        },
    )
    .unwrap();
    let a = s.agent("gpt-1").unwrap();
    assert_eq!(a.last_confidence.unwrap().text, "0.65");
    assert_eq!(a.current_strategy.as_deref(), Some("tree-of-thought"));
    assert_eq!(a.provider, Provider::Other);
}

#[test]
fn tasks_keep_parents_sorted_agents_and_newest_update_first() {
    let mut s = store();
    let task = |agent: &str, id: &str, parent: Option<&str>, percent: u8, meta: bool| Event::Task {
        agent: agent.to_string(),
        task_id: id.to_string(),
        parent_id: parent.map(|p| p.to_string()),
        title: format!("title {id}"),
        status: TaskStatus::Running,
        percent,
        meta,
    };
    s.ingest_at(Transport::Tcp, task("zed", "root-1", None, 40, true), 10).unwrap();
    s.ingest_at(Transport::Tcp, task("gemini-1", "child-1", Some("root-1"), 100, false), 20).unwrap();
    s.ingest_at(Transport::Tcp, task("anthropic-1", "root-1", None, 55, false), 30).unwrap();
    s.ingest_at(Transport::Tcp, task("anthropic-1", "root-1", None, 60, false), 40).unwrap();
    let tasks = s.tasks();
    assert_eq!(tasks.len(), 2);
    assert_eq!(tasks[0].task_id, "root-1");
    assert_eq!(tasks[0].percent, 60);
    assert!(tasks[0].meta);
    assert_eq!(tasks[0].agents, vec!["anthropic-1".to_string(), "zed".to_string()]);
    assert_eq!(tasks[1].task_id, "child-1");
    assert_eq!(tasks[1].parent_id.as_deref(), Some("root-1"));
    assert!(!tasks[1].meta);
}

#[test]
fn lessons_are_newest_first_and_bounded() {
    let mut s = store();
    for i in 0..6 {
        s.ingest(
            Transport::Udp,
            Event::Learning { agent: "a".to_string(), topic: "T".to_string(), lesson: format!("l{i}") },
        )
        .unwrap();
    }
    let lessons = s.lessons(Some("t"));
    assert_eq!(lessons.iter().map(|l| l.lesson.clone()).collect::<Vec<_>>(), vec!["l5", "l4", "l3", "l2"]);
    assert_eq!(lessons[0].seq, 6);
}

#[test]
fn zero_capacities_keep_one_entry() {
    let mut s = LruStorage::new(StorageConfig {
        max_agents: 0,
        events_per_agent: 0,
        recent_events: 0,
        sessions_per_agent: 0,
        max_tasks: 0,
        max_lessons: 0,
    });
    s.ingest(Transport::Http, Event::Heartbeat { agent: "a".to_string() }).unwrap();
    s.ingest(Transport::Http, Event::Heartbeat { agent: "b".to_string() }).unwrap();
    assert_eq!(s.agents().len(), 1);
    assert_eq!(s.recent_events(10).len(), 1);
    assert_eq!(s.events_for("b", 10).len(), 1);
    assert!(s.events_for("a", 10).is_empty());
    assert_eq!(meta_agents_server::cap(0), 1);
    assert_eq!(meta_agents_server::cap(7), 7);
}

#[test]
fn default_storage_config_values() {
    let c = StorageConfig::default();
    assert_eq!(
        (c.max_agents, c.events_per_agent, c.recent_events, c.sessions_per_agent, c.max_tasks, c.max_lessons),
        (256, 512, 1024, 16, 512, 512)
    );
}

#[test]
fn default_store_is_empty() {
    let store = LruStorage::default();
    assert_eq!(store.last_seq(), 0);
    assert!(store.agents().is_empty());
    assert!(store.tasks().is_empty());
    assert!(store.recent_events(10).is_empty());
}

#[test]
fn sequence_numbers_count_accepted_events_only() {
    let mut s = store();
    let a = s.ingest_at(Transport::Udp, Event::Heartbeat { agent: "a".to_string() }, 5).unwrap();
    assert_eq!(a.seq, 1);
    assert!(s.ingest_at(Transport::Udp, Event::Heartbeat { agent: " ".to_string() }, 6).is_err());
    let b = s.ingest_at(Transport::Tcp, Event::Heartbeat { agent: "b".to_string() }, 7).unwrap();
    assert_eq!(b.seq, 2);
    assert_eq!(s.last_seq(), 2);
}

#[test]
fn recorded_lesson_is_listed_first() {
    let mut s = store();
    s.ingest_at(
        Transport::Http,
        Event::Learning { agent: "a".to_string(), topic: "old".to_string(), lesson: "first".to_string() },
        10,
    )
    .unwrap();
    s.ingest_at(Transport::Http, Event::Heartbeat { agent: "a".to_string() }, 11).unwrap();
    s.ingest_at(
        Transport::Http,
        Event::Learning { agent: "b".to_string(), topic: "new".to_string(), lesson: "second".to_string() },
        12,
    )
    .unwrap();
    let lessons = s.lessons(None);
    assert_eq!(lessons.len(), 2);
    assert_eq!(lessons[0].seq, 3);
    assert_eq!(lessons[0].agent, "b");
    assert_eq!(lessons[0].topic, "new");
    assert_eq!(lessons[0].lesson, "second");
    assert_eq!(lessons[0].recorded_at_ms, 12);
    let own = s.lessons(Some("new"));
    assert_eq!(own.len(), 1);
    assert_eq!(own[0].seq, 3);
    assert_eq!(own[0].lesson, "second");
}

#[test]
fn events_listed_for_an_agent_name_it() {
    let mut s = store();
    for (i, name) in ["a", "b", "a", "c", "a"].iter().enumerate() {
        s.ingest_at(Transport::Websocket, Event::Heartbeat { agent: name.to_string() }, i as u64).unwrap();
    }
    let events = s.events_for("a", 10);
    assert_eq!(events.len(), 3);
    assert!(events.iter().all(|e| e.event.agent_name() == Some("a")));
    assert_eq!(events.iter().map(|e| e.seq).collect::<Vec<_>>(), vec![1, 3, 5]);
}

#[test]
fn agents_and_sessions_are_listed_once_newest_first() {
    let mut s = store();
    let reg = |name: &str, session: &str| Event::Register {
        agent: AgentRegistration {
            name: name.to_string(),
            provider: Provider::Gemini,
            session: Some(session.to_string()),
        },
    };
    s.ingest_at(Transport::Http, reg("a", "s1"), 10).unwrap();
    s.ingest_at(Transport::Http, reg("b", "s1"), 11).unwrap();
    s.ingest_at(Transport::Http, reg("a", "s2"), 12).unwrap();
    s.ingest_at(Transport::Http, reg("a", "s1"), 13).unwrap();
    let agents = s.agents();
    assert_eq!(agents.iter().map(|a| a.name.as_str()).collect::<Vec<_>>(), vec!["a", "b"]);
    assert_eq!(agents[0].sessions, vec!["s1".to_string(), "s2".to_string()]);
}
