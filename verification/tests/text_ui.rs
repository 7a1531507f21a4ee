use meta_agents_server::model::{
    AgentRegistration, Confidence, Event, IntrospectionKind, Provider, StoredEvent, TaskSnapshot, TaskStatus,
    Transport,
};
use meta_agents_server::text::{decimal_string, esc, is_blank_str, string_lt, trim_chars};
use meta_agents_server::ui::{
    ago, bar_class, event_summary, metacognition_timeline, progress_percent, provider_class, rel_label, status_chip,
    task_children, task_parents, topic_filter,
};

#[test]
fn esc_escapes_markup() {
    assert_eq!(esc("depth-first <search>"), "depth-first &lt;search&gt;");
    assert_eq!(esc(r#"a & "b" 'c'"#), "a &amp; &quot;b&quot; &#39;c&#39;");
    assert_eq!(esc("&lt;"), "&amp;lt;");
    assert_eq!(esc("plain é"), "plain é");
}

#[test]
fn relative_labels() {
    assert_eq!(rel_label(100_000, 100_000), "now");
    assert_eq!(rel_label(100_000, 99_001), "now");
    assert_eq!(rel_label(100_000, 90_000), "-10s");
    assert_eq!(rel_label(1_000, 5_000), "now");
    assert_eq!(rel_label(200_000, 0), "-3m");
    assert_eq!(rel_label(10_000_000, 0), "-2h");
    assert_eq!(ago(5_000, 4_000), "just now");
    assert_eq!(ago(5_000, 2_000), "3s ago");
    assert_eq!(ago(130_000, 0), "2m ago");
    assert_eq!(ago(7_200_000, 0), "2h ago");
    assert_eq!(ago(0, 9), "just now");
}

#[test]
fn css_classes_and_chips() {
    assert_eq!(provider_class(Provider::Claude), "chip provider-anthropic");
    assert_eq!(provider_class(Provider::Other), "chip provider-other");
    assert_eq!(status_chip(TaskStatus::Done), ("chip status-done", "\u{2713}"));
    assert_eq!(status_chip(TaskStatus::Blocked), ("chip status-blocked", "\u{26a0}"));
    assert_eq!(bar_class(TaskStatus::Failed), "bar failed");
    assert_eq!(bar_class(TaskStatus::Running), "bar");
    assert_eq!(progress_percent(40), 40);
    assert_eq!(progress_percent(250), 100);
}

#[test]
fn event_summaries() {
    let reg = Event::Register {
        agent: AgentRegistration { name: "c".to_string(), provider: Provider::Chatgpt, session: Some("s-1".to_string()) },
    };
    assert_eq!(event_summary(&reg, ""), "registered (ChatGPT, session s-1)");
    let intro = Event::Introspection { agent: "c".to_string(), kind: IntrospectionKind::SelfAssessment, content: "ok".to_string() };
    assert_eq!(event_summary(&intro, ""), "[self-assessment] ok");
    let meta = Event::Metacognition {
        agent: "c".to_string(),
        confidence: Some(Confidence { bits: 0.72f64.to_bits(), text: "0.72".to_string() }),
        strategy: Some("bfs".to_string()),
        reflection: Some("fine".to_string()),
    };
    assert_eq!(event_summary(&meta, "72"), "confidence 72% | strategy -> bfs | fine");
    let meta = Event::Metacognition { agent: "c".to_string(), confidence: None, strategy: None, reflection: Some("r".to_string()) };
    assert_eq!(event_summary(&meta, "0"), "r");
    let task = Event::Task {
        agent: "c".to_string(),
        task_id: "t1".to_string(),
        parent_id: None,
        title: "Render".to_string(),
        status: TaskStatus::Running,
        percent: 60,
        meta: false,
    };
    assert_eq!(event_summary(&task, ""), "Render (t1): running 60%");
    let learn = Event::Learning { agent: "c".to_string(), topic: "ssr".to_string(), lesson: "l".to_string() };
    assert_eq!(event_summary(&learn, ""), "[ssr] l");
    assert_eq!(event_summary(&Event::Heartbeat { agent: "c".to_string() }, ""), "heartbeat");
}

#[test]
fn task_tree_links_children_to_known_parents() {
    let t = |id: &str, parent: Option<&str>| TaskSnapshot {
        task_id: id.to_string(),
        parent_id: parent.map(|p| p.to_string()),
        title: id.to_string(),
        status: TaskStatus::Pending,
        percent: 0,
        meta: false,
        agents: vec![],
        updated_at_ms: 0,
    };
    let tasks = vec![t("child", Some("root")), t("root", None), t("orphan", Some("gone"))];
    assert_eq!(task_parents(&tasks), vec![Some(1), None, None]);
}

#[test]
fn text_helpers() {
    assert_eq!(decimal_string(0), "0");
    assert_eq!(decimal_string(65536), "65536");
    assert_eq!(decimal_string(u64::MAX), u64::MAX.to_string());
    assert!(is_blank_str(" \t\u{2028}"));
    assert!(!is_blank_str(" a "));
    assert_eq!(trim_chars(&[' ', 'a', ' ', 'b', '\n']), vec!['a', ' ', 'b']);
    assert!(string_lt(&"abc".to_string(), &"abd".to_string()));
    assert!(string_lt(&"ab".to_string(), &"abc".to_string()));
    assert!(!string_lt(&"b".to_string(), &"abc".to_string()));
    assert!(!string_lt(&"x".to_string(), &"x".to_string()));
}

fn stored(seq: u64, at: u64, event: Event) -> StoredEvent {
    StoredEvent { seq, received_at_ms: at, transport: Transport::Http, event }
}

#[test]
fn timeline_splits_metacognition_and_introspection_in_order() {
    let events = vec![
        stored(1, 10, Event::Heartbeat { agent: "a".to_string() }),
        stored(
            2,
            20,
            Event::Metacognition {
                agent: "a".to_string(),
                confidence: Some(Confidence { bits: 0.5f64.to_bits(), text: "0.5".to_string() }),
                strategy: Some("bfs".to_string()),
                reflection: None,
            },
        ),
        stored(
            3,
            30,
            Event::Introspection {
                agent: "a".to_string(),
                kind: IntrospectionKind::Thought,
                content: "hmm".to_string(),
            },
        ),
        stored(
            4,
            40,
            Event::Metacognition {
                agent: "a".to_string(),
                confidence: None,
                strategy: Some("dfs".to_string()),
                reflection: Some("too slow".to_string()),
            },
        ),
    ];
    let t = metacognition_timeline(&events);
    assert_eq!(t.confidence_points.len(), 1);
    assert_eq!(t.confidence_points[0].0, 20);
    assert_eq!(t.confidence_points[0].1.text, "0.5");
    assert_eq!(t.strategy_shifts, vec![(20, "bfs".to_string()), (40, "dfs".to_string())]);
    assert_eq!(t.reflections, vec![(40, "too slow".to_string())]);
    assert_eq!(t.introspections.len(), 1);
    assert_eq!(t.introspections[0].0, 30);
    assert!(t.introspections[0].1 == IntrospectionKind::Thought);
    assert_eq!(t.introspections[0].2, "hmm");
}

#[test]
fn task_children_groups_by_parent_in_list_order() {
    let parents = vec![None, Some(0), Some(0), None, Some(1)];
    let (roots, children) = task_children(&parents);
    assert_eq!(roots, vec![0, 3]);
    assert_eq!(children, vec![vec![1, 2], vec![4], vec![], vec![], vec![]]);
}

#[test]
fn blank_topic_means_no_filter() {
    assert_eq!(topic_filter(None), None);
    assert_eq!(topic_filter(Some(String::new())), None);
    assert_eq!(topic_filter(Some(" \t ".to_string())), None);
    assert_eq!(topic_filter(Some(" rust ".to_string())), Some(" rust ".to_string()));
}
