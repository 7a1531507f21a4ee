//! Shared event schema. Every transport (HTTP, WebSocket, TCP, UDP) accepts
//! exactly these shapes; the JSON encoding of them lives with the transports.

use vstd::prelude::*;

verus! {

/// Milliseconds since the unix epoch, or 0 when the system clock reads a time
/// before the epoch.
///
/// The result depends on the system clock alone; nothing is stated of it.
#[verifier::external_body]
pub fn now_ms() -> u64 {
    std::time::SystemTime::now()
        .duration_since(std::time::UNIX_EPOCH)
        .map(|d| d.as_millis() as u64)
        .unwrap_or(0)
}

/// Clone of an optional string that keeps the value.
pub fn clone_opt_string(o: &Option<String>) -> (r: Option<String>)
    ensures
        r == *o,
{
    match o {
        Some(s) => Some(s.clone()),
        None => None,
    }
}

/// Which LLM vendor an agent belongs to.
#[derive(Clone, Copy, Debug, PartialEq, Eq, Structural)]
pub enum Provider {
    Chatgpt,
    Claude,
    Gemini,
    Other,
}

impl Default for Provider {
    fn default() -> (r: Self)
        ensures
            r == Provider::Other,
    {
        Provider::Other
    }
}

/// The display name of a vendor; the second vendor is shown by its company's
/// name.
pub open spec fn provider_label(p: Provider) -> Seq<char> {
    match p {
        Provider::Chatgpt => "ChatGPT"@,
        Provider::Claude => "Anthropic"@,
        Provider::Gemini => "Gemini"@,
        Provider::Other => "Other"@,
    }
}

impl Provider {
    /// Human-readable vendor name.
    pub fn label(&self) -> (r: &'static str)
        ensures
            r@ == provider_label(*self),
    {
        match self {
            Provider::Chatgpt => "ChatGPT",
            Provider::Claude => "Anthropic",
            Provider::Gemini => "Gemini",
            Provider::Other => "Other",
        }
    }
}

/// Payload used to register (or re-register) an agent.
#[derive(Debug)]
pub struct AgentRegistration {
    /// Unique agent name; also the key used by every other event.
    pub name: String,
    pub provider: Provider,
    /// Opaque session identifier (conversation id, process id, ...).
    pub session: Option<String>,
}

impl Clone for AgentRegistration {
    fn clone(&self) -> (r: Self)
        ensures
            r == *self,
    {
        AgentRegistration {
            name: self.name.clone(),
            provider: self.provider,
            session: clone_opt_string(&self.session),
        }
    }
}

/// Flavor of an introspection event.
#[derive(Clone, Copy, Debug, PartialEq, Eq, Structural)]
pub enum IntrospectionKind {
    Thought,
    Observation,
    SelfAssessment,
}

pub open spec fn introspection_label(k: IntrospectionKind) -> Seq<char> {
    match k {
        IntrospectionKind::Thought => "thought"@,
        IntrospectionKind::Observation => "observation"@,
        IntrospectionKind::SelfAssessment => "self-assessment"@,
    }
}

impl IntrospectionKind {
    pub fn label(&self) -> (r: &'static str)
        ensures
            r@ == introspection_label(*self),
    {
        match self {
            IntrospectionKind::Thought => "thought",
            IntrospectionKind::Observation => "observation",
            IntrospectionKind::SelfAssessment => "self-assessment",
        }
    }
}

/// Task lifecycle state.
#[derive(Clone, Copy, Debug, PartialEq, Eq, Structural)]
pub enum TaskStatus {
    Pending,
    Running,
    Blocked,
    Done,
    Failed,
}

pub open spec fn task_status_label(s: TaskStatus) -> Seq<char> {
    match s {
        TaskStatus::Pending => "pending"@,
        TaskStatus::Running => "running"@,
        TaskStatus::Blocked => "blocked"@,
        TaskStatus::Done => "done"@,
        TaskStatus::Failed => "failed"@,
    }
}

impl TaskStatus {
    pub fn label(&self) -> (r: &'static str)
        ensures
            r@ == task_status_label(*self),
    {
        match self {
            TaskStatus::Pending => "pending",
            TaskStatus::Running => "running",
            TaskStatus::Blocked => "blocked",
            TaskStatus::Done => "done",
            TaskStatus::Failed => "failed",
        }
    }
}

/// A reported confidence level. `bits` is the IEEE-754 binary64 bit pattern
/// of the reported number (what `f64::to_bits` gives) and `text` its decimal
/// rendering as the transports received it; the store reads the range of the
/// number from `bits` and quotes `text` in error messages. That `text` renders
/// `bits` is up to whoever builds the value.
#[derive(Debug)]
pub struct Confidence {
    pub bits: u64,
    pub text: String,
}

impl Clone for Confidence {
    fn clone(&self) -> (r: Self)
        ensures
            r == *self,
    {
        Confidence { bits: self.bits, text: self.text.clone() }
    }
}

/// Bit pattern of the binary64 number 1.0.
pub const ONE_BITS: u64 = 0x3FF0_0000_0000_0000u64;

/// Bit pattern of the binary64 number -0.0.
pub const NEGATIVE_ZERO_BITS: u64 = 0x8000_0000_0000_0000u64;

/// The binary64 number with bit pattern `bits` lies in `0.0 ..= 1.0`: the
/// non-negative numbers up to 1.0 are exactly the patterns up to that of 1.0,
/// and -0.0 compares equal to 0.0; every NaN lies outside.
pub open spec fn unit_interval_bits(bits: u64) -> bool {
    bits <= ONE_BITS || bits == NEGATIVE_ZERO_BITS
}

impl Confidence {
    /// Whether the confidence lies in `0.0 ..= 1.0`.
    pub fn in_unit_interval(&self) -> (r: bool)
        ensures
            r == unit_interval_bits(self.bits),
    {
        self.bits <= ONE_BITS || self.bits == NEGATIVE_ZERO_BITS
    }
}

pub fn clone_opt_confidence(o: &Option<Confidence>) -> (r: Option<Confidence>)
    ensures
        r == *o,
{
    match o {
        Some(c) => Some(c.clone()),
        None => None,
    }
}

/// The single event envelope shared by all four transports.
#[derive(Debug)]
#[allow(inconsistent_fields)]
pub enum Event {
    /// Announce an agent (idempotent upsert).
    Register { agent: AgentRegistration },
    /// A thought, observation or self-assessment.
    Introspection { agent: String, kind: IntrospectionKind, content: String },
    /// Confidence levels, strategy changes and reflections.
    Metacognition {
        agent: String,
        /// 0.0 ..= 1.0
        confidence: Option<Confidence>,
        /// Present when the agent switches strategy.
        strategy: Option<String>,
        reflection: Option<String>,
    },
    /// Task creation / progress update. Tasks form trees via `parent_id`;
    /// tasks reported by several agents become shared meta-tasks.
    Task {
        agent: String,
        task_id: String,
        parent_id: Option<String>,
        title: String,
        status: TaskStatus,
        /// 0 ..= 100
        percent: u8,
        /// Explicitly mark a task as a cross-agent meta-task.
        meta: bool,
    },
    /// A lessons-learned entry, queryable by topic.
    Learning { agent: String, topic: String, lesson: String },
    /// Keep-alive ping used for the liveness display.
    Heartbeat { agent: String },
}

impl Clone for Event {
    fn clone(&self) -> (r: Self)
        ensures
            r == *self,
    {
        match self {
            Event::Register { agent } => Event::Register { agent: agent.clone() },
            Event::Introspection { agent, kind, content } => Event::Introspection {
                agent: agent.clone(),
                kind: *kind,
                content: content.clone(),
            },
            Event::Metacognition { agent, confidence, strategy, reflection } => {
                Event::Metacognition {
                    agent: agent.clone(),
                    confidence: clone_opt_confidence(confidence),
                    strategy: clone_opt_string(strategy),
                    reflection: clone_opt_string(reflection),
                }
            },
            Event::Task { agent, task_id, parent_id, title, status, percent, meta } => {
                Event::Task {
                    agent: agent.clone(),
                    task_id: task_id.clone(),
                    parent_id: clone_opt_string(parent_id),
                    title: title.clone(),
                    status: *status,
                    percent: *percent,
                    meta: *meta,
                }
            },
            Event::Learning { agent, topic, lesson } => Event::Learning {
                agent: agent.clone(),
                topic: topic.clone(),
                lesson: lesson.clone(),
            },
            Event::Heartbeat { agent } => Event::Heartbeat { agent: agent.clone() },
        }
    }
}

/// The agent an event names.
pub open spec fn event_agent(e: Event) -> String {
    match e {
        Event::Register { agent } => agent.name,
        Event::Introspection { agent, .. } => agent,
        Event::Metacognition { agent, .. } => agent,
        Event::Task { agent, .. } => agent,
        Event::Learning { agent, .. } => agent,
        Event::Heartbeat { agent } => agent,
    }
}

pub open spec fn event_kind_label(e: Event) -> Seq<char> {
    match e {
        Event::Register { .. } => "register"@,
        Event::Introspection { .. } => "introspection"@,
        Event::Metacognition { .. } => "metacognition"@,
        Event::Task { .. } => "task"@,
        Event::Learning { .. } => "learning"@,
        Event::Heartbeat { .. } => "heartbeat"@,
    }
}

impl Event {
    /// Name of the agent the event refers to; every event names one.
    pub fn agent_name(&self) -> (r: Option<&str>)
        ensures
            r is Some,
            r.unwrap()@ == event_agent(*self)@,
    {
        match self {
            Event::Register { agent } => Some(agent.name.as_str()),
            Event::Introspection { agent, .. } => Some(agent.as_str()),
            Event::Metacognition { agent, .. } => Some(agent.as_str()),
            Event::Task { agent, .. } => Some(agent.as_str()),
            Event::Learning { agent, .. } => Some(agent.as_str()),
            Event::Heartbeat { agent } => Some(agent.as_str()),
        }
    }

    /// The agent the event refers to.
    pub fn agent(&self) -> (r: &String)
        ensures
            *r == event_agent(*self),
    {
        match self {
            Event::Register { agent } => &agent.name,
            Event::Introspection { agent, .. } => agent,
            Event::Metacognition { agent, .. } => agent,
            Event::Task { agent, .. } => agent,
            Event::Learning { agent, .. } => agent,
            Event::Heartbeat { agent } => agent,
        }
    }

    pub fn kind_label(&self) -> (r: &'static str)
        ensures
            r@ == event_kind_label(*self),
    {
        match self {
            Event::Register { .. } => "register",
            Event::Introspection { .. } => "introspection",
            Event::Metacognition { .. } => "metacognition",
            Event::Task { .. } => "task",
            Event::Learning { .. } => "learning",
            Event::Heartbeat { .. } => "heartbeat",
        }
    }
}

/// Transport an event arrived over.
#[derive(Clone, Copy, Debug, PartialEq, Eq, Structural)]
pub enum Transport {
    Http,
    Websocket,
    Tcp,
    Udp,
    Internal,
}

pub open spec fn transport_label(t: Transport) -> Seq<char> {
    match t {
        Transport::Http => "http"@,
        Transport::Websocket => "websocket"@,
        Transport::Tcp => "tcp"@,
        Transport::Udp => "udp"@,
        Transport::Internal => "internal"@,
    }
}

impl Transport {
    pub fn label(&self) -> (r: &'static str)
        ensures
            r@ == transport_label(*self),
    {
        match self {
            Transport::Http => "http",
            Transport::Websocket => "websocket",
            Transport::Tcp => "tcp",
            Transport::Udp => "udp",
            Transport::Internal => "internal",
        }
    }
}

/// An event as recorded by the server.
#[derive(Debug)]
pub struct StoredEvent {
    /// Globally monotonically increasing sequence number.
    pub seq: u64,
    /// Server receive time, ms since epoch.
    pub received_at_ms: u64,
    pub transport: Transport,
    pub event: Event,
}

impl Clone for StoredEvent {
    fn clone(&self) -> (r: Self)
        ensures
            r == *self,
    {
        StoredEvent {
            seq: self.seq,
            received_at_ms: self.received_at_ms,
            transport: self.transport,
            event: self.event.clone(),
        }
    }
}

/// Acknowledgement returned by HTTP / WebSocket / TCP ingestion.
#[derive(Debug)]
pub struct Ack {
    pub ok: bool,
    pub seq: Option<u64>,
    pub error: Option<String>,
}

impl Clone for Ack {
    fn clone(&self) -> (r: Self)
        ensures
            r == *self,
    {
        Ack { ok: self.ok, seq: self.seq, error: clone_opt_string(&self.error) }
    }
}

impl Ack {
    pub fn ok(seq: u64) -> (r: Self)
        ensures
            r.ok,
            r.seq == Some(seq),
            r.error is None,
    {
        Ack { ok: true, seq: Some(seq), error: None }
    }

    pub fn err(msg: String) -> (r: Self)
        ensures
            !r.ok,
            r.seq is None,
            r.error == Some(msg),
    {
        Ack { ok: false, seq: None, error: Some(msg) }
    }
}

/// Read model: one agent as shown on the dashboard.
#[derive(Debug)]
pub struct AgentSnapshot {
    pub name: String,
    pub provider: Provider,
    /// Most recent session id first.
    pub sessions: Vec<String>,
    pub first_seen_ms: u64,
    pub last_seen_ms: u64,
    /// Total events ever ingested for this agent (not bounded by the LRU).
    pub events_ingested: u64,
    /// Latest reported confidence, if any.
    pub last_confidence: Option<Confidence>,
    /// Latest reported strategy, if any.
    pub current_strategy: Option<String>,
}

/// Read model: one task node.
#[derive(Debug)]
pub struct TaskSnapshot {
    pub task_id: String,
    pub parent_id: Option<String>,
    pub title: String,
    pub status: TaskStatus,
    pub percent: u8,
    /// True if flagged `meta` or reported by more than one agent.
    pub meta: bool,
    /// Names of everyone who reported on this node, ascending.
    pub agents: Vec<String>,
    pub updated_at_ms: u64,
}

/// Read model: one lessons-learned entry.
#[derive(Debug)]
pub struct Lesson {
    pub seq: u64,
    pub agent: String,
    pub topic: String,
    pub lesson: String,
    pub recorded_at_ms: u64,
}

impl Clone for Lesson {
    fn clone(&self) -> (r: Self)
        ensures
            r == *self,
    {
        Lesson {
            seq: self.seq,
            agent: self.agent.clone(),
            topic: self.topic.clone(),
            lesson: self.lesson.clone(),
            recorded_at_ms: self.recorded_at_ms,
        }
    }
}

} // verus!
