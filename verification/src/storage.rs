//! In-memory storage built on bounded LRU caches (the `lru` crate, through
//! [`RecencyList`]), behind a small trait so a real database can slot in later
//! without touching the transports or the UI.

use crate::cap;
use crate::model::{
    clone_opt_confidence, clone_opt_string, event_agent, now_ms, unit_interval_bits, AgentSnapshot, Confidence, Event, Lesson, Provider, StoredEvent,
    TaskSnapshot, TaskStatus, Transport,
};
use crate::recency::{pushed_front, Duplicate, RecencyList};
use crate::sort::{sort_by_stamp_desc, sort_desc, stamp_key, views, Stamped};
use crate::text::{
    chars_lt, chars_of, contains_chars, contains_run, decimal, decimal_string, is_blank,
    is_blank_str, lowercase_of, string_lt, to_lowercase,
};
use vstd::prelude::*;

verus! {

/// Capacity knobs for the LRU-backed store.
#[derive(Clone, Copy, Debug)]
pub struct StorageConfig {
    /// Max distinct agents kept.
    pub max_agents: usize,
    /// Per-agent event ring size.
    pub events_per_agent: usize,
    /// Global "recent events" ring size.
    pub recent_events: usize,
    /// Sessions remembered per agent.
    pub sessions_per_agent: usize,
    /// Max task nodes kept.
    pub max_tasks: usize,
    /// Max lessons kept.
    pub max_lessons: usize,
}

impl Default for StorageConfig {
    fn default() -> (r: Self)
        ensures
            r.max_agents == 256,
            r.events_per_agent == 512,
            r.recent_events == 1024,
            r.sessions_per_agent == 16,
            r.max_tasks == 512,
            r.max_lessons == 512,
    {
        StorageConfig {
            max_agents: 256,
            events_per_agent: 512,
            recent_events: 1024,
            sessions_per_agent: 16,
            max_tasks: 512,
            max_lessons: 512,
        }
    }
}

/// Sessions remembered per agent when the store is configured from the
/// command line, which has no option for it.
pub const SESSIONS_PER_AGENT: usize = 16;

impl StorageConfig {
    /// The capacities the command line gives, with the fixed per-agent
    /// session capacity.
    pub fn from_cli(
        max_agents: usize,
        events_per_agent: usize,
        recent_events: usize,
        max_tasks: usize,
        max_lessons: usize,
    ) -> (r: Self)
        ensures
            r.max_agents == max_agents,
            r.events_per_agent == events_per_agent,
            r.recent_events == recent_events,
            r.sessions_per_agent == SESSIONS_PER_AGENT,
            r.max_tasks == max_tasks,
            r.max_lessons == max_lessons,
    {
        StorageConfig {
            max_agents,
            events_per_agent,
            recent_events,
            sessions_per_agent: SESSIONS_PER_AGENT,
            max_tasks,
            max_lessons,
        }
    }
}

/// The capacity a collection configured with `n` gets: `n`, but at least 1.
pub open spec fn capacity_of(n: usize) -> nat {
    if n == 0 {
        1
    } else {
        n as nat
    }
}

/// One remembered session of an agent.
#[derive(Debug)]
pub struct SessionEntry {
    pub id: String,
    /// When the session was last reported.
    pub at_ms: u64,
}

impl Clone for SessionEntry {
    fn clone(&self) -> (r: Self)
        ensures
            r == *self,
    {
        SessionEntry { id: self.id.clone(), at_ms: self.at_ms }
    }
}

/// What the store knows of one agent.
pub struct AgentState {
    pub name: String,
    pub provider: Provider,
    pub first_seen_ms: u64,
    pub last_seen_ms: u64,
    pub events_ingested: u64,
    pub last_confidence: Option<Confidence>,
    pub current_strategy: Option<String>,
    /// The agent's event ring, most recently stored first.
    pub events: Seq<StoredEvent>,
    /// The agent's session cache, most recently reported first.
    pub sessions: Seq<SessionEntry>,
}

/// The store's record of one agent.
pub struct AgentRecord {
    name: String,
    provider: Provider,
    first_seen_ms: u64,
    last_seen_ms: u64,
    events_ingested: u64,
    last_confidence: Option<Confidence>,
    current_strategy: Option<String>,
    events: RecencyList<StoredEvent>,
    sessions: RecencyList<SessionEntry>,
}

impl View for AgentRecord {
    type V = AgentState;

    closed spec fn view(&self) -> AgentState {
        AgentState {
            name: self.name,
            provider: self.provider,
            first_seen_ms: self.first_seen_ms,
            last_seen_ms: self.last_seen_ms,
            events_ingested: self.events_ingested,
            last_confidence: self.last_confidence,
            current_strategy: self.current_strategy,
            events: self.events@,
            sessions: self.sessions@,
        }
    }
}

/// Read model of a task, with its agents as a sequence.
pub struct TaskState {
    pub task_id: String,
    pub parent_id: Option<String>,
    pub title: String,
    pub status: TaskStatus,
    pub percent: u8,
    pub meta: bool,
    pub agents: Seq<String>,
    pub updated_at_ms: u64,
}

impl View for TaskSnapshot {
    type V = TaskState;

    open spec fn view(&self) -> TaskState {
        TaskState {
            task_id: self.task_id,
            parent_id: self.parent_id,
            title: self.title,
            status: self.status,
            percent: self.percent,
            meta: self.meta,
            agents: self.agents@,
            updated_at_ms: self.updated_at_ms,
        }
    }
}

/// Read model of an agent, with its sessions as a sequence.
pub struct AgentSummary {
    pub name: String,
    pub provider: Provider,
    pub sessions: Seq<String>,
    pub first_seen_ms: u64,
    pub last_seen_ms: u64,
    pub events_ingested: u64,
    pub last_confidence: Option<Confidence>,
    pub current_strategy: Option<String>,
}

impl View for AgentSnapshot {
    type V = AgentSummary;

    open spec fn view(&self) -> AgentSummary {
        AgentSummary {
            name: self.name,
            provider: self.provider,
            sessions: self.sessions@,
            first_seen_ms: self.first_seen_ms,
            last_seen_ms: self.last_seen_ms,
            events_ingested: self.events_ingested,
            last_confidence: self.last_confidence,
            current_strategy: self.current_strategy,
        }
    }
}

/// The abstract content of the store: the last sequence number handed out and
/// every bounded collection, most recently used first.
pub struct StoreState {
    pub seq: u64,
    pub agents: Seq<AgentState>,
    pub recent: Seq<StoredEvent>,
    pub tasks: Seq<TaskState>,
    pub lessons: Seq<Lesson>,
}

// ------------------------------------------------------------- validation

/// Why an event is structurally invalid, or `None` when it is valid.
pub open spec fn validation_error(e: Event) -> Option<Seq<char>> {
    if is_blank(event_agent(e)@) {
        Some("agent name must be non-empty"@)
    } else {
        match e {
            Event::Metacognition { confidence, strategy, reflection, .. } => {
                if confidence is Some && !unit_interval_bits(confidence->0.bits) {
                    Some("confidence "@ + confidence->0.text@ + " outside 0.0..=1.0"@)
                } else if confidence is None && strategy is None && reflection is None {
                    Some("metacognition event needs confidence, strategy or reflection"@)
                } else {
                    None
                }
            },
            Event::Task { task_id, percent, .. } => {
                if is_blank(task_id@) {
                    Some("task_id must be non-empty"@)
                } else if percent > 100 {
                    Some("percent "@ + decimal(percent as nat) + " outside 0..=100"@)
                } else {
                    None
                }
            },
            Event::Learning { topic, .. } => {
                if is_blank(topic@) {
                    Some("topic must be non-empty"@)
                } else {
                    None
                }
            },
            _ => None,
        }
    }
}

/// Checks the structural rules every stored event obeys.
pub fn validated(event: &Event) -> (r: Result<(), String>)
    ensures
        r is Ok <==> validation_error(*event) is None,
        r matches Err(m) ==> validation_error(*event) == Some(m@),
{
    if is_blank_str(event.agent().as_str()) {
        return Err(String::from_str("agent name must be non-empty"));
    }
    match event {
        Event::Metacognition { confidence, strategy, reflection, .. } => {
            if let Some(c) = confidence {
                if !c.in_unit_interval() {
                    let mut m = String::from_str("confidence ");
                    m.append(c.text.as_str());
                    m.append(" outside 0.0..=1.0");
                    return Err(m);
                }
            }
            if confidence.is_none() && strategy.is_none() && reflection.is_none() {
                return Err(
                    String::from_str("metacognition event needs confidence, strategy or reflection"),
                );
            }
            Ok(())
        },
        Event::Task { task_id, percent, .. } => {
            if is_blank_str(task_id.as_str()) {
                return Err(String::from_str("task_id must be non-empty"));
            }
            if *percent > 100 {
                let mut m = String::from_str("percent ");
                m.append(decimal_string(*percent as u64).as_str());
                m.append(" outside 0..=100");
                return Err(m);
            }
            Ok(())
        },
        Event::Learning { topic, .. } => {
            if is_blank_str(topic.as_str()) {
                return Err(String::from_str("topic must be non-empty"));
            }
            Ok(())
        },
        _ => Ok(()),
    }
}


// ------------------------------------------------------------ ingest spec

/// Records identified by a name-like key.
pub trait Keyed {
    spec fn key(&self) -> Seq<char>;
}

impl Keyed for AgentState {
    open spec fn key(&self) -> Seq<char> {
        self.name@
    }
}

impl Keyed for SessionEntry {
    open spec fn key(&self) -> Seq<char> {
        self.id@
    }
}

impl Keyed for TaskState {
    open spec fn key(&self) -> Seq<char> {
        self.task_id@
    }
}

/// Position of the record with key `k` in `s`, or -1.
pub open spec fn position_of<T: Keyed>(s: Seq<T>, k: Seq<char>) -> int {
    if exists|i: int| 0 <= i < s.len() && (#[trigger] s[i]).key() == k {
        choose|i: int| 0 <= i < s.len() && (#[trigger] s[i]).key() == k
    } else {
        -1
    }
}

/// No two records of `s` share a key.
pub open spec fn keys_unique<T: Keyed>(s: Seq<T>) -> bool {
    forall|i: int, j: int| 0 <= i < j < s.len() ==> (#[trigger] s[i]).key() != (#[trigger] s[j]).key()
}

/// A record for an agent seen for the first time at `now`.
pub open spec fn fresh_agent(name: String, now: u64) -> AgentState {
    AgentState {
        name,
        provider: Provider::Other,
        first_seen_ms: now,
        last_seen_ms: now,
        events_ingested: 0,
        last_confidence: None,
        current_strategy: None,
        events: Seq::empty(),
        sessions: Seq::empty(),
    }
}

/// The session cache after session `id` is reported at `now`: the session
/// becomes the most recent one, evicting the oldest when the cache is full.
pub open spec fn session_reported(
    sessions: Seq<SessionEntry>,
    id: String,
    now: u64,
    capacity: nat,
) -> Seq<SessionEntry> {
    let entry = SessionEntry { id, at_ms: now };
    let p = position_of(sessions, id@);
    if p >= 0 {
        seq![entry] + sessions.remove(p)
    } else {
        pushed_front(sessions, entry, capacity)
    }
}

/// An agent's record after it stored `stored`.
pub open spec fn agent_updated(a: AgentState, c: StorageConfig, stored: StoredEvent) -> AgentState {
    let now = stored.received_at_ms;
    AgentState {
        last_seen_ms: now,
        events_ingested: (a.events_ingested + 1) as u64,
        provider: match stored.event {
            Event::Register { agent } => agent.provider,
            _ => a.provider,
        },
        sessions: match stored.event {
            Event::Register { agent } => match agent.session {
                Some(id) => session_reported(a.sessions, id, now, capacity_of(c.sessions_per_agent)),
                None => a.sessions,
            },
            _ => a.sessions,
        },
        last_confidence: match stored.event {
            Event::Metacognition { confidence, .. } => if confidence is Some {
                confidence
            } else {
                a.last_confidence
            },
            _ => a.last_confidence,
        },
        current_strategy: match stored.event {
            Event::Metacognition { strategy, .. } => if strategy is Some {
                strategy
            } else {
                a.current_strategy
            },
            _ => a.current_strategy,
        },
        events: pushed_front(a.events, stored, capacity_of(c.events_per_agent)),
        ..a
    }
}

/// The agent cache after `stored` is recorded: the named agent (created when
/// unknown, evicting the least recently seen one when the cache is full)
/// becomes the most recent one.
pub open spec fn agents_after(agents: Seq<AgentState>, c: StorageConfig, stored: StoredEvent) -> Seq<
    AgentState,
> {
    let name = event_agent(stored.event);
    let p = position_of(agents, name@);
    if p >= 0 {
        seq![agent_updated(agents[p], c, stored)] + agents.remove(p)
    } else {
        pushed_front(
            agents,
            agent_updated(fresh_agent(name, stored.received_at_ms), c, stored),
            capacity_of(c.max_agents),
        )
    }
}

/// `names` with `name` added, keeping ascending order and each name once.
pub open spec fn name_inserted(names: Seq<String>, name: String) -> Seq<String>
    decreases names.len(),
{
    if names.len() == 0 {
        seq![name]
    } else if names[0]@ == name@ {
        names
    } else if chars_lt(name@, names[0]@) {
        seq![name] + names
    } else {
        seq![names[0]] + name_inserted(names.drop_first(), name)
    }
}

/// The task cache after event `e` at `now`.
pub open spec fn tasks_after(tasks: Seq<TaskState>, c: StorageConfig, e: Event, now: u64) -> Seq<
    TaskState,
> {
    match e {
        Event::Task { agent, task_id, parent_id, title, status, percent, meta } => {
            let p = position_of(tasks, task_id@);
            if p >= 0 {
                let t = tasks[p];
                let agents = name_inserted(t.agents, agent);
                seq![
                    TaskState {
                        task_id: t.task_id,
                        parent_id,
                        title,
                        status,
                        percent,
                        meta: t.meta || meta || agents.len() > 1,
                        agents,
                        updated_at_ms: now,
                    },
                ] + tasks.remove(p)
            } else {
                pushed_front(
                    tasks,
                    TaskState {
                        task_id,
                        parent_id,
                        title,
                        status,
                        percent,
                        meta,
                        agents: seq![agent],
                        updated_at_ms: now,
                    },
                    capacity_of(c.max_tasks),
                )
            }
        },
        _ => tasks,
    }
}

/// The lesson cache after `stored` is recorded.
pub open spec fn lessons_after(lessons: Seq<Lesson>, c: StorageConfig, stored: StoredEvent) -> Seq<
    Lesson,
> {
    match stored.event {
        Event::Learning { agent, topic, lesson } => pushed_front(
            lessons,
            Lesson {
                seq: stored.seq,
                agent,
                topic,
                lesson,
                recorded_at_ms: stored.received_at_ms,
            },
            capacity_of(c.max_lessons),
        ),
        _ => lessons,
    }
}

/// The stored form of the next event.
pub open spec fn stored_as(s: StoreState, t: Transport, e: Event, now: u64) -> StoredEvent {
    StoredEvent { seq: (s.seq + 1) as u64, received_at_ms: now, transport: t, event: e }
}

/// The store after a valid event `e` arrived over `t` at `now`.
pub open spec fn ingested(s: StoreState, c: StorageConfig, t: Transport, e: Event, now: u64) -> StoreState {
    let stored = stored_as(s, t, e, now);
    StoreState {
        seq: stored.seq,
        agents: agents_after(s.agents, c, stored),
        recent: pushed_front(s.recent, stored, capacity_of(c.recent_events)),
        tasks: tasks_after(s.tasks, c, e, now),
        lessons: lessons_after(s.lessons, c, stored),
    }
}

// ------------------------------------------------------------- invariants

/// Sequence numbers strictly decrease along `s` and none exceeds `top`.
pub open spec fn events_desc(s: Seq<StoredEvent>, top: u64) -> bool {
    &&& forall|i: int| 0 <= i < s.len() ==> (#[trigger] s[i]).seq <= top
    &&& forall|i: int, j: int| 0 <= i < j < s.len() ==> (#[trigger] s[i]).seq > (#[trigger] s[j]).seq
}

/// Lesson sequence numbers strictly decrease along `s` and none exceeds `top`.
pub open spec fn lessons_desc(s: Seq<Lesson>, top: u64) -> bool {
    &&& forall|i: int| 0 <= i < s.len() ==> (#[trigger] s[i]).seq <= top
    &&& forall|i: int, j: int| 0 <= i < j < s.len() ==> (#[trigger] s[i]).seq > (#[trigger] s[j]).seq
}

/// What holds of one agent record in a store whose last sequence number is `top`.
pub open spec fn agent_inv(a: AgentState, c: StorageConfig, top: u64) -> bool {
    &&& events_desc(a.events, top)
    &&& a.events.len() <= capacity_of(c.events_per_agent)
    &&& a.sessions.len() <= capacity_of(c.sessions_per_agent)
    &&& keys_unique(a.sessions)
    &&& a.events_ingested <= top
    &&& forall|k: int| 0 <= k < a.events.len() ==> event_agent((#[trigger] a.events[k]).event)@ == a.name@
}

/// What every state of the store satisfies.
pub open spec fn store_inv(s: StoreState, c: StorageConfig) -> bool {
    &&& s.agents.len() <= capacity_of(c.max_agents)
    &&& s.recent.len() <= capacity_of(c.recent_events)
    &&& s.tasks.len() <= capacity_of(c.max_tasks)
    &&& s.lessons.len() <= capacity_of(c.max_lessons)
    &&& keys_unique(s.agents)
    &&& keys_unique(s.tasks)
    &&& forall|i: int| 0 <= i < s.agents.len() ==> agent_inv(#[trigger] s.agents[i], c, s.seq)
    &&& events_desc(s.recent, s.seq)
    &&& lessons_desc(s.lessons, s.seq)
}


// ----------------------------------------------------- invariant lemmas

pub proof fn lemma_pushed_front_elems<T>(s: Seq<T>, x: T, capacity: nat)
    requires
        capacity >= 1,
    ensures
        pushed_front(s, x, capacity)[0] == x,
        pushed_front(s, x, capacity).len() >= 1,
        pushed_front(s, x, capacity).len() <= s.len() + 1,
        s.len() <= capacity ==> pushed_front(s, x, capacity).len() <= capacity,
        forall|j: int|
            1 <= j < pushed_front(s, x, capacity).len() ==> #[trigger] pushed_front(s, x, capacity)[j]
                == s[j - 1],
{
    let r = pushed_front(s, x, capacity);
    assert forall|j: int| 1 <= j < r.len() implies #[trigger] r[j] == s[j - 1] by {
        if s.len() >= capacity {
            assert((seq![x] + s.drop_last())[j] == s.drop_last()[j - 1]);
        } else {
            assert((seq![x] + s)[j] == s[j - 1]);
        }
    }
    if s.len() >= capacity {
        assert((seq![x] + s.drop_last())[0] == x);
    } else {
        assert((seq![x] + s)[0] == x);
    }
}

proof fn lemma_moved_front_elems<T>(s: Seq<T>, p: int, x: T)
    requires
        0 <= p < s.len(),
    ensures
        (seq![x] + s.remove(p)).len() == s.len(),
        (seq![x] + s.remove(p))[0] == x,
        forall|j: int|
            1 <= j < s.len() ==> #[trigger] (seq![x] + s.remove(p))[j] == s[if j - 1 < p {
                j - 1
            } else {
                j
            }],
{
    let r = seq![x] + s.remove(p);
    assert forall|j: int| 1 <= j < s.len() implies #[trigger] r[j] == s[if j - 1 < p {
        j - 1
    } else {
        j
    }] by {
        assert(r[j] == s.remove(p)[j - 1]);
    }
}

proof fn lemma_events_pushed(s: Seq<StoredEvent>, x: StoredEvent, capacity: nat, top: u64)
    requires
        events_desc(s, top),
        top < u64::MAX,
        x.seq == top + 1,
        capacity >= 1,
    ensures
        events_desc(pushed_front(s, x, capacity), (top + 1) as u64),
{
    lemma_pushed_front_elems(s, x, capacity);
    let r = pushed_front(s, x, capacity);
    assert forall|i: int, j: int| 0 <= i < j < r.len() implies (#[trigger] r[i]).seq > (
    #[trigger] r[j]).seq by {
        assert(r[j] == s[j - 1]);
        if i > 0 {
            assert(r[i] == s[i - 1]);
        }
    }
    assert forall|i: int| 0 <= i < r.len() implies (#[trigger] r[i]).seq <= top + 1 by {
        if i > 0 {
            assert(r[i] == s[i - 1]);
        }
    }
}

proof fn lemma_lessons_pushed(s: Seq<Lesson>, x: Lesson, capacity: nat, top: u64)
    requires
        lessons_desc(s, top),
        top < u64::MAX,
        x.seq == top + 1,
        capacity >= 1,
    ensures
        lessons_desc(pushed_front(s, x, capacity), (top + 1) as u64),
{
    lemma_pushed_front_elems(s, x, capacity);
    let r = pushed_front(s, x, capacity);
    assert forall|i: int, j: int| 0 <= i < j < r.len() implies (#[trigger] r[i]).seq > (
    #[trigger] r[j]).seq by {
        assert(r[j] == s[j - 1]);
        if i > 0 {
            assert(r[i] == s[i - 1]);
        }
    }
    assert forall|i: int| 0 <= i < r.len() implies (#[trigger] r[i]).seq <= top + 1 by {
        if i > 0 {
            assert(r[i] == s[i - 1]);
        }
    }
}

proof fn lemma_session_reported_inv(s: Seq<SessionEntry>, id: String, now: u64, capacity: nat)
    requires
        keys_unique(s),
        s.len() <= capacity,
        capacity >= 1,
    ensures
        keys_unique(session_reported(s, id, now, capacity)),
        session_reported(s, id, now, capacity).len() <= capacity,
{
    let entry = SessionEntry { id, at_ms: now };
    let p = position_of(s, id@);
    if p >= 0 {
        lemma_unique_moved_front(s, p, entry);
    } else {
        lemma_unique_pushed_front(s, entry, capacity);
        lemma_pushed_front_elems(s, entry, capacity);
    }
}

proof fn lemma_agent_updated_inv(a: AgentState, c: StorageConfig, stored: StoredEvent, top: u64)
    requires
        agent_inv(a, c, top),
        top < u64::MAX,
        stored.seq == top + 1,
        event_agent(stored.event)@ == a.name@,
    ensures
        agent_inv(agent_updated(a, c, stored), c, (top + 1) as u64),
{
    lemma_events_pushed(a.events, stored, capacity_of(c.events_per_agent), top);
    lemma_pushed_front_elems(a.events, stored, capacity_of(c.events_per_agent));
    match stored.event {
        Event::Register { agent } => match agent.session {
            Some(id) => lemma_session_reported_inv(
                a.sessions,
                id,
                stored.received_at_ms,
                capacity_of(c.sessions_per_agent),
            ),
            None => {},
        },
        _ => {},
    }
}

proof fn lemma_agent_raised(a: AgentState, c: StorageConfig, top: u64)
    requires
        agent_inv(a, c, top),
        top < u64::MAX,
    ensures
        agent_inv(a, c, (top + 1) as u64),
{
}

proof fn lemma_agents_after_inv(agents: Seq<AgentState>, c: StorageConfig, stored: StoredEvent, top: u64)
    requires
        keys_unique(agents),
        agents.len() <= capacity_of(c.max_agents),
        forall|i: int| 0 <= i < agents.len() ==> agent_inv(#[trigger] agents[i], c, top),
        top < u64::MAX,
        stored.seq == top + 1,
    ensures
        keys_unique(agents_after(agents, c, stored)),
        agents_after(agents, c, stored).len() <= capacity_of(c.max_agents),
        forall|i: int|
            0 <= i < agents_after(agents, c, stored).len() ==> agent_inv(
                #[trigger] agents_after(agents, c, stored)[i],
                c,
                (top + 1) as u64,
            ),
{
    let name = event_agent(stored.event);
    let p = position_of(agents, name@);
    let r = agents_after(agents, c, stored);
    if p >= 0 {
        let x = agent_updated(agents[p], c, stored);
        lemma_unique_moved_front(agents, p, x);
        lemma_moved_front_elems(agents, p, x);
        lemma_agent_updated_inv(agents[p], c, stored, top);
        assert forall|i: int| 0 <= i < r.len() implies agent_inv(#[trigger] r[i], c, (top + 1) as u64) by {
            if i > 0 {
                let ii = if i - 1 < p { i - 1 } else { i };
                assert(r[i] == agents[ii]);
                lemma_agent_raised(agents[ii], c, top);
            }
        }
    } else {
        let fresh = fresh_agent(name, stored.received_at_ms);
        let x = agent_updated(fresh, c, stored);
        assert(agent_inv(fresh, c, top));
        lemma_agent_updated_inv(fresh, c, stored, top);
        lemma_unique_pushed_front(agents, x, capacity_of(c.max_agents));
        lemma_pushed_front_elems(agents, x, capacity_of(c.max_agents));
        assert forall|i: int| 0 <= i < r.len() implies agent_inv(#[trigger] r[i], c, (top + 1) as u64) by {
            if i > 0 {
                assert(r[i] == agents[i - 1]);
                lemma_agent_raised(agents[i - 1], c, top);
            }
        }
    }
}

proof fn lemma_tasks_after_inv(tasks: Seq<TaskState>, c: StorageConfig, e: Event, now: u64)
    requires
        keys_unique(tasks),
        tasks.len() <= capacity_of(c.max_tasks),
    ensures
        keys_unique(tasks_after(tasks, c, e, now)),
        tasks_after(tasks, c, e, now).len() <= capacity_of(c.max_tasks),
{
    match e {
        Event::Task { agent, task_id, parent_id, title, status, percent, meta } => {
            let p = position_of(tasks, task_id@);
            let r = tasks_after(tasks, c, e, now);
            if p >= 0 {
                lemma_unique_moved_front(tasks, p, r[0]);
            } else {
                lemma_unique_pushed_front(tasks, r[0], capacity_of(c.max_tasks));
                lemma_pushed_front_elems(tasks, r[0], capacity_of(c.max_tasks));
            }
        },
        _ => {},
    }
}

/// Law: every valid ingest keeps the store invariant (caches within their
/// capacities, one record per agent name and per task id, each event ring and
/// the lessons newest first by sequence number, counters within the sequence
/// number).
pub proof fn lemma_ingested_inv(s: StoreState, c: StorageConfig, t: Transport, e: Event, now: u64)
    requires
        store_inv(s, c),
        s.seq < u64::MAX,
    ensures
        store_inv(ingested(s, c, t, e, now), c),
{
    let stored = stored_as(s, t, e, now);
    lemma_agents_after_inv(s.agents, c, stored, s.seq);
    lemma_tasks_after_inv(s.tasks, c, e, now);
    lemma_events_pushed(s.recent, stored, capacity_of(c.recent_events), s.seq);
    lemma_pushed_front_elems(s.recent, stored, capacity_of(c.recent_events));
    match e {
        Event::Learning { agent, topic, lesson } => {
            let l = Lesson { seq: stored.seq, agent, topic, lesson, recorded_at_ms: now };
            lemma_lessons_pushed(s.lessons, l, capacity_of(c.max_lessons), s.seq);
            lemma_pushed_front_elems(s.lessons, l, capacity_of(c.max_lessons));
        },
        _ => {},
    }
}

// ------------------------------------------------------------ agent record

/// In a list whose keys are unique, a position holding the key is the one
/// `position_of` finds.
pub proof fn lemma_position<T: Keyed>(s: Seq<T>, k: Seq<char>, p: int)
    requires
        keys_unique(s),
        0 <= p < s.len(),
        s[p].key() == k,
    ensures
        position_of(s, k) == p,
{
    let i = position_of(s, k);
    if i != p {
        if i < p {
            assert(s[i].key() != s[p].key());
        } else {
            assert(s[p].key() != s[i].key());
        }
    }
}

/// A record moved to the front under its own key keeps keys unique.
proof fn lemma_unique_moved_front<T: Keyed>(s: Seq<T>, p: int, x: T)
    requires
        keys_unique(s),
        0 <= p < s.len(),
        x.key() == s[p].key(),
    ensures
        keys_unique(seq![x] + s.remove(p)),
{
    let r = seq![x] + s.remove(p);
    assert forall|i: int, j: int| 0 <= i < j < r.len() implies (#[trigger] r[i]).key() != (
    #[trigger] r[j]).key() by {
        let jj = if j - 1 < p { j - 1 } else { j };
        assert(r[j] == s[jj]);
        if i == 0 {
            assert(s[jj].key() != s[p].key());
        } else {
            let ii = if i - 1 < p { i - 1 } else { i };
            assert(r[i] == s[ii]);
        }
    }
}

/// A record with a new key pushed to the front keeps keys unique.
proof fn lemma_unique_pushed_front<T: Keyed>(s: Seq<T>, x: T, capacity: nat)
    requires
        keys_unique(s),
        capacity >= 1,
        forall|i: int| 0 <= i < s.len() ==> (#[trigger] s[i]).key() != x.key(),
    ensures
        keys_unique(pushed_front(s, x, capacity)),
{
    let r = pushed_front(s, x, capacity);
    assert forall|j: int| 1 <= j < r.len() implies r[j] == s[j - 1] by {
        if s.len() >= capacity {
            assert((seq![x] + s.drop_last())[j] == s.drop_last()[j - 1]);
        } else {
            assert((seq![x] + s)[j] == s[j - 1]);
        }
    }
    assert(r[0] == x) by {
        if s.len() >= capacity {
            assert((seq![x] + s.drop_last())[0] == x);
        } else {
            assert((seq![x] + s)[0] == x);
        }
    }
    assert forall|i: int, j: int| 0 <= i < j < r.len() implies (#[trigger] r[i]).key() != (
    #[trigger] r[j]).key() by {
        assert(r[j] == s[j - 1]);
        if i > 0 {
            assert(r[i] == s[i - 1]);
        }
    }
}

/// Where session `id` sits in the cache, with its slot.
fn find_session(list: &RecencyList<SessionEntry>, id: &String) -> (r: Option<(usize, u64)>)
    requires
        list.wf(),
    ensures
        match r {
            Some((p, k)) => p < list@.len() && list.keys()[p as int] == k && list@[p as int].id@
                == id@,
            None => forall|i: int| 0 <= i < list@.len() ==> (#[trigger] list@[i]).key() != id@,
        },
{
    let keys = list.slot_order();
    let mut p: usize = 0;
    while p < keys.len()
        invariant
            list.wf(),
            keys@ == list.keys(),
            keys@.len() == list@.len(),
            forall|i: int| 0 <= i < keys@.len() ==> #[trigger] keys@[i] < list@.len(),
            forall|i: int| 0 <= i < keys@.len() ==> #[trigger] list.slot(keys@[i]) == list@[i],
            0 <= p <= keys@.len(),
            forall|i: int| 0 <= i < p ==> (#[trigger] list@[i]).key() != id@,
        decreases keys@.len() - p,
    {
        let k = keys[p];
        assert(list.slot(keys@[p as int]) == list@[p as int]);
        let e = list.get_slot(k);
        if e.id == *id {
            return Some((p, k));
        }
        p = p + 1;
    }
    None
}

/// Reports session `id` at `now`.
fn report_session(list: &mut RecencyList<SessionEntry>, id: &String, now: u64)
    requires
        old(list).wf(),
        keys_unique(old(list)@),
    ensures
        final(list).wf(),
        final(list).capacity() == old(list).capacity(),
        final(list)@ == session_reported(old(list)@, *id, now, old(list).capacity()),
        keys_unique(final(list)@),
{
    let ghost s = list@;
    let entry = SessionEntry { id: id.clone(), at_ms: now };
    proof {
        list.lemma_bounded();
    }
    match find_session(list, id) {
        Some((p, k)) => {
            proof {
                lemma_position(s, id@, p as int);
                lemma_unique_moved_front(s, p as int, entry);
            }
            let slot = list.promote_mut(p, k);
            *slot = entry;
        },
        None => {
            proof {
                lemma_unique_pushed_front(s, entry, list.capacity());
            }
            list.push_front(entry);
        },
    }
}

impl AgentRecord {
    pub closed spec fn wf(&self, c: StorageConfig) -> bool {
        &&& self.events.wf()
        &&& self.events.capacity() == capacity_of(c.events_per_agent)
        &&& self.sessions.wf()
        &&& self.sessions.capacity() == capacity_of(c.sessions_per_agent)
    }

    pub proof fn lemma_bounded(&self, c: StorageConfig)
        requires
            self.wf(c),
        ensures
            self@.events.len() <= capacity_of(c.events_per_agent),
            self@.sessions.len() <= capacity_of(c.sessions_per_agent),
    {
        self.events.lemma_bounded();
        self.sessions.lemma_bounded();
    }

    /// A record for an agent seen for the first time at `now`.
    fn fresh(name: String, now: u64, c: &StorageConfig) -> (r: Self)
        ensures
            r.wf(*c),
            r@ == fresh_agent(name, now),
    {
        AgentRecord {
            name,
            provider: Provider::Other,
            first_seen_ms: now,
            last_seen_ms: now,
            events_ingested: 0,
            last_confidence: None,
            current_strategy: None,
            events: RecencyList::new(cap(c.events_per_agent)),
            sessions: RecencyList::new(cap(c.sessions_per_agent)),
        }
    }

    /// Records `stored` as the agent's latest event.
    fn apply(&mut self, stored: &StoredEvent, c: &StorageConfig)
        requires
            old(self).wf(*c),
            keys_unique(old(self)@.sessions),
            old(self)@.events_ingested < u64::MAX,
        ensures
            final(self).wf(*c),
            final(self)@ == agent_updated(old(self)@, *c, *stored),
            keys_unique(final(self)@.sessions),
    {
        self.last_seen_ms = stored.received_at_ms;
        self.events_ingested = self.events_ingested + 1;
        match &stored.event {
            Event::Register { agent } => {
                self.provider = agent.provider;
                if let Some(session) = &agent.session {
                    report_session(&mut self.sessions, session, stored.received_at_ms);
                }
            },
            Event::Metacognition { confidence, strategy, .. } => {
                if confidence.is_some() {
                    self.last_confidence = clone_opt_confidence(confidence);
                }
                if strategy.is_some() {
                    self.current_strategy = clone_opt_string(strategy);
                }
            },
            _ => {},
        }
        self.events.push_front(stored.clone());
    }
}

} // verus!

verus! {

// ------------------------------------------------------------------ store

pub open spec fn agent_states(recs: Seq<AgentRecord>) -> Seq<AgentState> {
    recs.map_values(|r: AgentRecord| r@)
}

pub open spec fn task_states(ts: Seq<TaskSnapshot>) -> Seq<TaskState> {
    ts.map_values(|t: TaskSnapshot| t@)
}

/// The in-memory, LRU-bounded store.
pub struct LruStorage {
    config: StorageConfig,
    seq: u64,
    agents: RecencyList<AgentRecord>,
    recent: RecencyList<StoredEvent>,
    tasks: RecencyList<TaskSnapshot>,
    lessons: RecencyList<Lesson>,
}

impl View for LruStorage {
    type V = StoreState;

    closed spec fn view(&self) -> StoreState {
        StoreState {
            seq: self.seq,
            agents: agent_states(self.agents@),
            recent: self.recent@,
            tasks: task_states(self.tasks@),
            lessons: self.lessons@,
        }
    }
}

/// Where `name` sits in the agent cache, with its slot.
fn find_agent(list: &RecencyList<AgentRecord>, name: &String) -> (r: Option<(usize, u64)>)
    requires
        list.wf(),
    ensures
        match r {
            Some((p, k)) => p < list@.len() && list.keys()[p as int] == k && list@[p as int]@.key()
                == name@,
            None => forall|i: int| 0 <= i < list@.len() ==> (#[trigger] list@[i])@.key() != name@,
        },
{
    let keys = list.slot_order();
    let mut p: usize = 0;
    while p < keys.len()
        invariant
            list.wf(),
            keys@ == list.keys(),
            keys@.len() == list@.len(),
            forall|i: int| 0 <= i < keys@.len() ==> #[trigger] keys@[i] < list@.len(),
            forall|i: int| 0 <= i < keys@.len() ==> #[trigger] list.slot(keys@[i]) == list@[i],
            0 <= p <= keys@.len(),
            forall|i: int| 0 <= i < p ==> (#[trigger] list@[i])@.key() != name@,
        decreases keys@.len() - p,
    {
        let k = keys[p];
        assert(list.slot(keys@[p as int]) == list@[p as int]);
        let rec = list.get_slot(k);
        if rec.name == *name {
            return Some((p, k));
        }
        p = p + 1;
    }
    None
}

/// Where task `task_id` sits in the task cache, with its slot.
fn find_task(list: &RecencyList<TaskSnapshot>, task_id: &String) -> (r: Option<(usize, u64)>)
    requires
        list.wf(),
    ensures
        match r {
            Some((p, k)) => p < list@.len() && list.keys()[p as int] == k && list@[p as int]@.key()
                == task_id@,
            None => forall|i: int| 0 <= i < list@.len() ==> (#[trigger] list@[i])@.key() != task_id@,
        },
{
    let keys = list.slot_order();
    let mut p: usize = 0;
    while p < keys.len()
        invariant
            list.wf(),
            keys@ == list.keys(),
            keys@.len() == list@.len(),
            forall|i: int| 0 <= i < keys@.len() ==> #[trigger] keys@[i] < list@.len(),
            forall|i: int| 0 <= i < keys@.len() ==> #[trigger] list.slot(keys@[i]) == list@[i],
            0 <= p <= keys@.len(),
            forall|i: int| 0 <= i < p ==> (#[trigger] list@[i])@.key() != task_id@,
        decreases keys@.len() - p,
    {
        let k = keys[p];
        assert(list.slot(keys@[p as int]) == list@[p as int]);
        let t = list.get_slot(k);
        if t.task_id == *task_id {
            return Some((p, k));
        }
        p = p + 1;
    }
    None
}

proof fn lemma_name_inserted_skip(names: Seq<String>, name: String, i: int)
    requires
        0 <= i <= names.len(),
        forall|j: int|
            0 <= j < i ==> (#[trigger] names[j])@ != name@ && !chars_lt(name@, names[j]@),
    ensures
        name_inserted(names, name) == names.take(i) + name_inserted(names.skip(i), name),
    decreases i,
{
    if i > 0 {
        lemma_name_inserted_skip(names.drop_first(), name, i - 1);
        assert(names.drop_first().skip(i - 1) =~= names.skip(i));
        assert(names[0]@ != name@ && !chars_lt(name@, names[0]@));
        assert(names.take(i) =~= seq![names[0]] + names.drop_first().take(i - 1));
    } else {
        assert(names.skip(0) =~= names);
        assert(names.take(0) =~= Seq::<String>::empty());
    }
}

/// Adds `name` to the ascending list `names` unless it is there already.
fn insert_name(names: &mut Vec<String>, name: String)
    ensures
        final(names)@ == name_inserted(old(names)@, name),
{
    let n = names.len();
    let mut i: usize = 0;
    while i < n
        invariant
            n == names@.len(),
            names@ == old(names)@,
            0 <= i <= n,
            forall|j: int|
                0 <= j < i ==> (#[trigger] names@[j])@ != name@ && !chars_lt(name@, names@[j]@),
        decreases n - i,
    {
        if names[i] == name {
            proof {
                lemma_name_inserted_skip(names@, name, i as int);
                assert(names@.skip(i as int)[0] == names@[i as int]);
                assert(names@.take(i as int) + names@.skip(i as int) =~= names@);
            }
            return;
        }
        if string_lt(&name, &names[i]) {
            proof {
                lemma_name_inserted_skip(names@, name, i as int);
                assert(names@.skip(i as int)[0] == names@[i as int]);
            }
            names.insert(i, name);
            assert(names@ =~= old(names)@.take(i as int) + (seq![name] + old(names)@.skip(i as int)));
            return;
        }
        i = i + 1;
    }
    proof {
        lemma_name_inserted_skip(names@, name, n as int);
        assert(names@.skip(n as int) =~= Seq::<String>::empty());
        assert(names@.take(n as int) =~= names@);
    }
    names.push(name);
}

/// Records `stored` in the agent cache.
fn record_agent(agents: &mut RecencyList<AgentRecord>, c: &StorageConfig, stored: &StoredEvent)
    requires
        old(agents).wf(),
        old(agents).capacity() == capacity_of(c.max_agents),
        forall|i: int| 0 <= i < old(agents)@.len() ==> (#[trigger] old(agents)@[i]).wf(*c),
        keys_unique(agent_states(old(agents)@)),
        forall|i: int|
            0 <= i < old(agents)@.len() ==> keys_unique((#[trigger] old(agents)@[i])@.sessions)
                && old(agents)@[i]@.events_ingested < u64::MAX,
    ensures
        final(agents).wf(),
        final(agents).capacity() == old(agents).capacity(),
        forall|i: int| 0 <= i < final(agents)@.len() ==> (#[trigger] final(agents)@[i]).wf(*c),
        agent_states(final(agents)@) == agents_after(agent_states(old(agents)@), *c, *stored),
{
    let ghost recs = agents@;
    let ghost states = agent_states(recs);
    let name = stored.event.agent();
    proof {
        agents.lemma_bounded();
    }
    match find_agent(agents, name) {
        Some((p, k)) => {
            proof {
                assert(states[p as int] == recs[p as int]@);
                lemma_position(states, name@, p as int);
            }
            let rec = agents.promote_mut(p, k);
            rec.apply(stored, c);
            proof {
                lemma_moved_front_elems(recs, p as int, agents@[0]);
                assert forall|i: int| 0 <= i < agents@.len() implies (#[trigger] agents@[i]).wf(*c) by {
                    if i > 0 {
                        let ii = if i - 1 < p { i - 1 } else { i };
                        assert(agents@[i] == recs[ii]);
                    }
                }
                assert(agent_states(agents@) =~= seq![agents@[0]@] + states.remove(p as int));
            }
        },
        None => {
            proof {
                assert forall|i: int| 0 <= i < states.len() implies (#[trigger] states[i]).name@
                    != name@ by {
                    assert(states[i] == recs[i]@);
                }
            }
            let mut rec = AgentRecord::fresh(name.clone(), stored.received_at_ms, c);
            rec.apply(stored, c);
            let ghost x = rec;
            agents.push_front(rec);
            proof {
                lemma_pushed_front_elems(recs, x, agents.capacity());
                lemma_pushed_front_elems(states, x@, agents.capacity());
                assert forall|i: int| 0 <= i < agents@.len() implies (#[trigger] agents@[i]).wf(*c) by {
                    if i > 0 {
                        assert(agents@[i] == recs[i - 1]);
                    }
                }
                assert(agent_states(agents@) =~= pushed_front(states, x@, agents.capacity()));
            }
        },
    }
}

/// Records event `e` at `now` in the task cache.
fn record_task(tasks: &mut RecencyList<TaskSnapshot>, c: &StorageConfig, e: &Event, now: u64)
    requires
        old(tasks).wf(),
        old(tasks).capacity() == capacity_of(c.max_tasks),
        keys_unique(task_states(old(tasks)@)),
    ensures
        final(tasks).wf(),
        final(tasks).capacity() == old(tasks).capacity(),
        task_states(final(tasks)@) == tasks_after(task_states(old(tasks)@), *c, *e, now),
{
    let ghost ts = tasks@;
    let ghost states = task_states(ts);
    match e {
        Event::Task { agent, task_id, parent_id, title, status, percent, meta } => {
            match find_task(tasks, task_id) {
                Some((p, k)) => {
                    proof {
                        assert(states[p as int] == ts[p as int]@);
                        lemma_position(states, task_id@, p as int);
                    }
                    let t = tasks.promote_mut(p, k);
                    insert_name(&mut t.agents, agent.clone());
                    t.parent_id = clone_opt_string(parent_id);
                    t.title = title.clone();
                    t.status = *status;
                    t.percent = *percent;
                    t.meta = t.meta || *meta || t.agents.len() > 1;
                    t.updated_at_ms = now;
                    proof {
                        lemma_moved_front_elems(ts, p as int, tasks@[0]);
                        assert(task_states(tasks@) =~= seq![tasks@[0]@] + states.remove(p as int));
                    }
                },
                None => {
                    proof {
                        assert forall|i: int| 0 <= i < states.len() implies (#[trigger] states[i]).task_id@
                            != task_id@ by {
                            assert(states[i] == ts[i]@);
                        }
                        tasks.lemma_bounded();
                    }
                    let t = TaskSnapshot {
                        task_id: task_id.clone(),
                        parent_id: clone_opt_string(parent_id),
                        title: title.clone(),
                        status: *status,
                        percent: *percent,
                        meta: *meta,
                        agents: vec![agent.clone()],
                        updated_at_ms: now,
                    };
                    assert(t@.agents =~= seq![*agent]);
                    let ghost x = t;
                    tasks.push_front(t);
                    proof {
                        lemma_pushed_front_elems(ts, x, tasks.capacity());
                        lemma_pushed_front_elems(states, x@, tasks.capacity());
                        assert(task_states(tasks@) =~= pushed_front(states, x@, tasks.capacity()));
                    }
                },
            }
        },
        _ => {
            assert(task_states(tasks@) =~= states);
        },
    }
}

impl LruStorage {
    /// The configuration the store was created with.
    pub closed spec fn config(&self) -> StorageConfig {
        self.config
    }

    pub closed spec fn wf(&self) -> bool {
        &&& self.agents.wf()
        &&& self.agents.capacity() == capacity_of(self.config.max_agents)
        &&& self.recent.wf()
        &&& self.recent.capacity() == capacity_of(self.config.recent_events)
        &&& self.tasks.wf()
        &&& self.tasks.capacity() == capacity_of(self.config.max_tasks)
        &&& self.lessons.wf()
        &&& self.lessons.capacity() == capacity_of(self.config.max_lessons)
        &&& forall|i: int| 0 <= i < self.agents@.len() ==> (#[trigger] self.agents@[i]).wf(self.config)
        &&& store_inv(self@, self.config)
    }

    /// Law: every store satisfies the store invariant.
    pub proof fn lemma_inv(&self)
        requires
            self.wf(),
        ensures
            store_inv(self@, self.config()),
    {
    }

    /// An empty store with the given capacities.
    pub fn new(config: StorageConfig) -> (r: Self)
        ensures
            r.wf(),
            r.config() == config,
            r@ == (StoreState {
                seq: 0,
                agents: Seq::empty(),
                recent: Seq::empty(),
                tasks: Seq::empty(),
                lessons: Seq::empty(),
            }),
    {
        let r = LruStorage {
            config,
            seq: 0,
            agents: RecencyList::new(cap(config.max_agents)),
            recent: RecencyList::new(cap(config.recent_events)),
            tasks: RecencyList::new(cap(config.max_tasks)),
            lessons: RecencyList::new(cap(config.max_lessons)),
        };
        assert(agent_states(r.agents@) =~= Seq::<AgentState>::empty());
        assert(task_states(r.tasks@) =~= Seq::<TaskState>::empty());
        r
    }

    /// The last sequence number handed out.
    pub fn last_seq(&self) -> (r: u64)
        ensures
            r == self@.seq,
    {
        self.seq
    }

    /// Records one event that arrived over `transport` at `now` (auto-registering
    /// an unknown agent) and returns its stored form; a structurally invalid
    /// event is refused with the reason and leaves the store unchanged.
    pub fn ingest_at(&mut self, transport: Transport, event: Event, now: u64) -> (r: Result<
        StoredEvent,
        String,
    >)
        requires
            old(self).wf(),
            old(self)@.seq < u64::MAX,
        ensures
            final(self).wf(),
            final(self).config() == old(self).config(),
            match validation_error(event) {
                Some(m) => r matches Err(e) && e@ == m && final(self)@ == old(self)@,
                None => r == Ok::<StoredEvent, String>(stored_as(old(self)@, transport, event, now))
                    && final(self)@ == ingested(old(self)@, old(self).config(), transport, event, now),
            },
    {
        match validated(&event) {
            Err(m) => {
                return Err(m);
            },
            Ok(()) => {},
        }
        let ghost s0 = self@;
        proof {
            self.agents.lemma_bounded();
            self.recent.lemma_bounded();
            self.tasks.lemma_bounded();
            self.lessons.lemma_bounded();
            lemma_ingested_inv(s0, self.config, transport, event, now);
            assert forall|i: int| 0 <= i < self.agents@.len() implies keys_unique(
                (#[trigger] self.agents@[i])@.sessions,
            ) && self.agents@[i]@.events_ingested < u64::MAX by {
                assert(agent_states(self.agents@)[i] == self.agents@[i]@);
                assert(agent_inv(s0.agents[i], self.config, s0.seq));
            }
        }
        let seq = self.seq + 1;
        let stored = StoredEvent { seq, received_at_ms: now, transport, event: event.clone() };
        record_agent(&mut self.agents, &self.config, &stored);
        record_task(&mut self.tasks, &self.config, &event, now);
        match &event {
            Event::Learning { agent, topic, lesson } => {
                self.lessons.push_front(
                    Lesson {
                        seq,
                        agent: agent.clone(),
                        topic: topic.clone(),
                        lesson: lesson.clone(),
                        recorded_at_ms: now,
                    },
                );
            },
            _ => {},
        }
        self.recent.push_front(stored.clone());
        self.seq = seq;
        assert(self@ == ingested(s0, self.config, transport, event, now));
        Ok(stored)
    }
}


// ---------------------------------------------------------------- queries

impl View for SessionEntry {
    type V = SessionEntry;

    open spec fn view(&self) -> SessionEntry {
        *self
    }
}

impl Stamped for SessionEntry {
    open spec fn stamp_of(v: SessionEntry) -> int {
        v.at_ms as int
    }

    fn stamp(&self) -> (r: u64) {
        self.at_ms
    }
}

impl Stamped for AgentSnapshot {
    open spec fn stamp_of(v: AgentSummary) -> int {
        v.last_seen_ms as int
    }

    fn stamp(&self) -> (r: u64) {
        self.last_seen_ms
    }
}

impl Stamped for TaskSnapshot {
    open spec fn stamp_of(v: TaskState) -> int {
        v.updated_at_ms as int
    }

    fn stamp(&self) -> (r: u64) {
        self.updated_at_ms
    }
}

impl Duplicate for SessionEntry {
    fn duplicate(&self) -> (r: Self) {
        self.clone()
    }
}

impl Duplicate for StoredEvent {
    fn duplicate(&self) -> (r: Self) {
        self.clone()
    }
}

impl Duplicate for Lesson {
    fn duplicate(&self) -> (r: Self) {
        self.clone()
    }
}

pub fn clone_strings(v: &Vec<String>) -> (r: Vec<String>)
    ensures
        r@ == v@,
{
    let mut out: Vec<String> = Vec::new();
    let mut i: usize = 0;
    while i < v.len()
        invariant
            0 <= i <= v@.len(),
            out@ =~= v@.take(i as int),
        decreases v@.len() - i,
    {
        out.push(v[i].clone());
        i = i + 1;
    }
    assert(v@.take(v@.len() as int) =~= v@);
    out
}

/// The ids of `sessions`, in the same order.
pub open spec fn session_ids(sessions: Seq<SessionEntry>) -> Seq<String> {
    sessions.map_values(|e: SessionEntry| e.id)
}

/// The read model of one agent: its sessions most recently reported first.
pub open spec fn summary_of(a: AgentState) -> AgentSummary {
    AgentSummary {
        name: a.name,
        provider: a.provider,
        sessions: session_ids(sort_desc(a.sessions, stamp_key::<SessionEntry>())),
        first_seen_ms: a.first_seen_ms,
        last_seen_ms: a.last_seen_ms,
        events_ingested: a.events_ingested,
        last_confidence: a.last_confidence,
        current_strategy: a.current_strategy,
    }
}

/// Every cached agent, most recently seen first.
pub open spec fn agents_report(s: StoreState) -> Seq<AgentSummary> {
    sort_desc(s.agents.map_values(|a: AgentState| summary_of(a)), stamp_key::<AgentSnapshot>())
}

/// The read model of one task: meta when flagged or reported by more than one agent.
pub open spec fn task_report(t: TaskState) -> TaskState {
    TaskState { meta: t.meta || t.agents.len() > 1, ..t }
}

/// Every cached task, most recently updated first.
pub open spec fn tasks_report(s: StoreState) -> Seq<TaskState> {
    sort_desc(s.tasks.map_values(|t: TaskState| task_report(t)), stamp_key::<TaskSnapshot>())
}

/// The `limit` newest of the newest-first `events`, oldest first.
pub open spec fn newest_oldest_first(events: Seq<StoredEvent>, limit: usize) -> Seq<StoredEvent> {
    events.take(if events.len() < limit { events.len() as int } else { limit as int }).reverse()
}

/// Whether a lesson is listed for the topic filter (case-insensitive substring).
pub open spec fn lesson_listed(l: Lesson, topic: Option<Seq<char>>) -> bool {
    match topic {
        Some(t) => contains_run(lowercase_of(l.topic@), lowercase_of(t)),
        None => true,
    }
}

pub open spec fn opt_str_view(o: Option<&str>) -> Option<Seq<char>> {
    match o {
        Some(t) => Some(t@),
        None => None,
    }
}

/// The `limit` newest of `events` (newest first), oldest first.
fn oldest_first(events: &Vec<StoredEvent>, limit: usize) -> (r: Vec<StoredEvent>)
    ensures
        r@ == newest_oldest_first(events@, limit),
{
    let n = if events.len() < limit {
        events.len()
    } else {
        limit
    };
    let mut out: Vec<StoredEvent> = Vec::new();
    let mut i: usize = n;
    while i > 0
        invariant
            0 <= i <= n <= events@.len(),
            out@ =~= events@.take(n as int).reverse().take(n - i),
        decreases i,
    {
        i = i - 1;
        out.push(events[i].clone());
    }
    assert(events@.take(n as int).reverse().take(n as int) =~= events@.take(n as int).reverse());
    out
}

proof fn lemma_oldest_first_ascending(events: Seq<StoredEvent>, limit: usize, top: u64)
    requires
        events_desc(events, top),
    ensures
        forall|i: int, j: int|
            0 <= i < j < newest_oldest_first(events, limit).len() ==> (#[trigger] newest_oldest_first(
                events,
                limit,
            )[i]).seq < (#[trigger] newest_oldest_first(events, limit)[j]).seq,
{
    let n = if events.len() < limit {
        events.len() as int
    } else {
        limit as int
    };
    let r = newest_oldest_first(events, limit);
    assert forall|i: int, j: int| 0 <= i < j < r.len() implies (#[trigger] r[i]).seq < (
    #[trigger] r[j]).seq by {
        assert(r[i] == events[n - 1 - i]);
        assert(r[j] == events[n - 1 - j]);
    }
}

impl AgentRecord {
    /// The read model of this agent.
    fn snapshot(&self, c: &StorageConfig) -> (r: AgentSnapshot)
        requires
            self.wf(*c),
        ensures
            r@ == summary_of(self@),
    {
        let sessions = sort_by_stamp_desc(self.sessions.items());
        let ghost sorted = sort_desc(self.sessions@, stamp_key::<SessionEntry>());
        assert(views(self.sessions@) =~= self.sessions@);
        assert(sessions@ =~= sorted) by {
            assert(views(sessions@) =~= sessions@);
        }
        let mut ids: Vec<String> = Vec::new();
        let mut i: usize = 0;
        while i < sessions.len()
            invariant
                sessions@ == sorted,
                0 <= i <= sessions@.len(),
                ids@ =~= session_ids(sorted).take(i as int),
            decreases sessions@.len() - i,
        {
            ids.push(sessions[i].id.clone());
            i = i + 1;
        }
        assert(session_ids(sorted).take(sessions@.len() as int) =~= session_ids(sorted));
        AgentSnapshot {
            name: self.name.clone(),
            provider: self.provider,
            sessions: ids,
            first_seen_ms: self.first_seen_ms,
            last_seen_ms: self.last_seen_ms,
            events_ingested: self.events_ingested,
            last_confidence: clone_opt_confidence(&self.last_confidence),
            current_strategy: clone_opt_string(&self.current_strategy),
        }
    }
}

impl Default for LruStorage {
    /// An empty store with the default capacities.
    fn default() -> (r: Self)
        ensures
            r.wf(),
            r.config().max_agents == 256,
            r.config().events_per_agent == 512,
            r.config().recent_events == 1024,
            r.config().sessions_per_agent == 16,
            r.config().max_tasks == 512,
            r.config().max_lessons == 512,
            r@ == (StoreState {
                seq: 0,
                agents: Seq::empty(),
                recent: Seq::empty(),
                tasks: Seq::empty(),
                lessons: Seq::empty(),
            }),
    {
        LruStorage::new(StorageConfig::default())
    }
}

impl LruStorage {
    /// Records one event (auto-registering an unknown agent) at the current
    /// time and returns its stored form; a structurally invalid event is
    /// refused with the reason and leaves the store unchanged.
    pub fn ingest(&mut self, transport: Transport, event: Event) -> (r: Result<StoredEvent, String>)
        requires
            old(self).wf(),
            old(self)@.seq < u64::MAX,
        ensures
            final(self).wf(),
            final(self).config() == old(self).config(),
            match validation_error(event) {
                Some(m) => r matches Err(e) && e@ == m && final(self)@ == old(self)@,
                None => r matches Ok(stored) && stored == stored_as(
                    old(self)@,
                    transport,
                    event,
                    stored.received_at_ms,
                ) && final(self)@ == ingested(
                    old(self)@,
                    old(self).config(),
                    transport,
                    event,
                    stored.received_at_ms,
                ),
            },
    {
        match validated(&event) {
            Err(m) => Err(m),
            Ok(()) => {
                let now = now_ms();
                self.ingest_at(transport, event, now)
            },
        }
    }

    /// All cached agents, most recently seen first.
    pub fn agents(&self) -> (r: Vec<AgentSnapshot>)
        requires
            self.wf(),
        ensures
            views(r@) == agents_report(self@),
    {
        let keys = self.agents.slot_order();
        let ghost recs = self.agents@;
        let mut snaps: Vec<AgentSnapshot> = Vec::new();
        let mut p: usize = 0;
        while p < keys.len()
            invariant
                self.wf(),
                recs == self.agents@,
                keys@ == self.agents.keys(),
                keys@.len() == recs.len(),
                forall|i: int| 0 <= i < keys@.len() ==> #[trigger] keys@[i] < recs.len(),
                forall|i: int| 0 <= i < keys@.len() ==> #[trigger] self.agents.slot(keys@[i]) == recs[i],
                0 <= p <= keys@.len(),
                views(snaps@) =~= self@.agents.map_values(|a: AgentState| summary_of(a)).take(p as int),
            decreases keys@.len() - p,
        {
            assert(self.agents.slot(keys@[p as int]) == recs[p as int]);
            let rec = self.agents.get_slot(keys[p]);
            assert(rec.wf(self.config));
            let snap = rec.snapshot(&self.config);
            assert(agent_states(recs)[p as int] == recs[p as int]@);
            let ghost before = views(snaps@);
            snaps.push(snap);
            assert(views(snaps@) =~= before.push(snap@));
            p = p + 1;
        }
        assert(self@.agents.map_values(|a: AgentState| summary_of(a)).take(keys@.len() as int)
            =~= self@.agents.map_values(|a: AgentState| summary_of(a)));
        sort_by_stamp_desc(snaps)
    }

    /// One agent by name.
    pub fn agent(&self, name: &str) -> (r: Option<AgentSnapshot>)
        requires
            self.wf(),
        ensures
            match r {
                Some(a) => position_of(self@.agents, name@) >= 0 && a@ == summary_of(
                    self@.agents[position_of(self@.agents, name@)],
                ),
                None => position_of(self@.agents, name@) < 0,
            },
    {
        let key = String::from_str(name);
        match find_agent(&self.agents, &key) {
            Some((p, k)) => {
                proof {
                    assert(agent_states(self.agents@)[p as int] == self.agents@[p as int]@);
                    lemma_position(self@.agents, name@, p as int);
                    self.agents.slot_order_spec();
                }
                let rec = self.agents.get_slot(k);
                Some(rec.snapshot(&self.config))
            },
            None => {
                proof {
                    assert forall|i: int| 0 <= i < self@.agents.len() implies (
                    #[trigger] self@.agents[i]).key() != name@ by {
                        assert(agent_states(self.agents@)[i] == self.agents@[i]@);
                    }
                }
                None
            },
        }
    }
}


pub open spec fn lesson_filter(topic: Option<Seq<char>>) -> spec_fn(Lesson) -> bool {
    |l: Lesson| lesson_listed(l, topic)
}

/// The lessons listed for `topic`, newest first.
pub open spec fn lessons_report(s: StoreState, topic: Option<Seq<char>>) -> Seq<Lesson> {
    s.lessons.filter(lesson_filter(topic))
}

/// The events `events_for(name, limit)` lists.
pub open spec fn agent_events_report(s: StoreState, name: Seq<char>, limit: usize) -> Seq<StoredEvent> {
    let p = position_of(s.agents, name);
    if p >= 0 {
        newest_oldest_first(s.agents[p].events, limit)
    } else {
        Seq::empty()
    }
}

/// Law: every event listed for an agent names that agent.
pub proof fn lemma_agent_events_name_agent(s: StoreState, c: StorageConfig, name: Seq<char>, limit: usize)
    requires
        store_inv(s, c),
    ensures
        forall|i: int|
            0 <= i < agent_events_report(s, name, limit).len() ==> event_agent(
                (#[trigger] agent_events_report(s, name, limit)[i]).event,
            )@ == name,
{
    let p = position_of(s.agents, name);
    if p >= 0 {
        let a = s.agents[p];
        assert(agent_inv(a, c, s.seq));
        assert(a.key() == name);
        let events = a.events;
        let n = if events.len() < limit {
            events.len() as int
        } else {
            limit as int
        };
        let r = agent_events_report(s, name, limit);
        assert forall|i: int| 0 <= i < r.len() implies event_agent((#[trigger] r[i]).event)@ == name by {
            assert(r[i] == events[n - 1 - i]);
        }
    }
}

impl LruStorage {
    /// Events of one agent, oldest first, the `limit` newest ones.
    pub fn events_for(&self, agent: &str, limit: usize) -> (r: Vec<StoredEvent>)
        requires
            self.wf(),
        ensures
            r@ == agent_events_report(self@, agent@, limit),
            forall|i: int, j: int| 0 <= i < j < r@.len() ==> (#[trigger] r@[i]).seq < (#[trigger] r@[j]).seq,
            forall|i: int| 0 <= i < r@.len() ==> event_agent((#[trigger] r@[i]).event)@ == agent@,
    {
        proof {
            lemma_agent_events_name_agent(self@, self.config, agent@, limit);
        }
        let key = String::from_str(agent);
        match find_agent(&self.agents, &key) {
            Some((p, k)) => {
                proof {
                    assert(agent_states(self.agents@)[p as int] == self.agents@[p as int]@);
                    lemma_position(self@.agents, agent@, p as int);
                    self.agents.slot_order_spec();
                    assert(agent_inv(self@.agents[p as int], self.config, self.seq));
                }
                let rec = self.agents.get_slot(k);
                assert(rec.wf(self.config));
                let events = rec.events.items();
                proof {
                    lemma_oldest_first_ascending(events@, limit, self.seq);
                }
                oldest_first(&events, limit)
            },
            None => {
                proof {
                    assert forall|i: int| 0 <= i < self@.agents.len() implies (
                    #[trigger] self@.agents[i]).key() != agent@ by {
                        assert(agent_states(self.agents@)[i] == self.agents@[i]@);
                    }
                }
                Vec::new()
            },
        }
    }

    /// Most recent events across all agents, oldest first, the `limit` newest ones.
    pub fn recent_events(&self, limit: usize) -> (r: Vec<StoredEvent>)
        requires
            self.wf(),
        ensures
            r@ == newest_oldest_first(self@.recent, limit),
            forall|i: int, j: int| 0 <= i < j < r@.len() ==> (#[trigger] r@[i]).seq < (#[trigger] r@[j]).seq,
    {
        let events = self.recent.items();
        proof {
            lemma_oldest_first_ascending(events@, limit, self.seq);
        }
        oldest_first(&events, limit)
    }

    /// All cached task nodes, most recently updated first.
    pub fn tasks(&self) -> (r: Vec<TaskSnapshot>)
        requires
            self.wf(),
        ensures
            views(r@) == tasks_report(self@),
    {
        let keys = self.tasks.slot_order();
        let ghost ts = self.tasks@;
        let mut out: Vec<TaskSnapshot> = Vec::new();
        let mut p: usize = 0;
        while p < keys.len()
            invariant
                self.wf(),
                ts == self.tasks@,
                keys@ == self.tasks.keys(),
                keys@.len() == ts.len(),
                forall|i: int| 0 <= i < keys@.len() ==> #[trigger] keys@[i] < ts.len(),
                forall|i: int| 0 <= i < keys@.len() ==> #[trigger] self.tasks.slot(keys@[i]) == ts[i],
                0 <= p <= keys@.len(),
                views(out@) =~= self@.tasks.map_values(|t: TaskState| task_report(t)).take(p as int),
            decreases keys@.len() - p,
        {
            assert(self.tasks.slot(keys@[p as int]) == ts[p as int]);
            let t = self.tasks.get_slot(keys[p]);
            let agents = clone_strings(&t.agents);
            let meta = t.meta || agents.len() > 1;
            let snap = TaskSnapshot {
                task_id: t.task_id.clone(),
                parent_id: clone_opt_string(&t.parent_id),
                title: t.title.clone(),
                status: t.status,
                percent: t.percent,
                meta,
                agents,
                updated_at_ms: t.updated_at_ms,
            };
            assert(task_states(ts)[p as int] == ts[p as int]@);
            let ghost before = views(out@);
            out.push(snap);
            assert(views(out@) =~= before.push(snap@));
            p = p + 1;
        }
        assert(self@.tasks.map_values(|t: TaskState| task_report(t)).take(keys@.len() as int)
            =~= self@.tasks.map_values(|t: TaskState| task_report(t)));
        sort_by_stamp_desc(out)
    }

    /// Lessons learned, newest first, optionally only those whose topic holds
    /// `topic` (case-insensitive).
    pub fn lessons(&self, topic: Option<&str>) -> (r: Vec<Lesson>)
        requires
            self.wf(),
        ensures
            r@ == lessons_report(self@, opt_str_view(topic)),
    {
        let ghost tv = opt_str_view(topic);
        let ghost pred = lesson_filter(tv);
        let needle: Option<Vec<char>> = match topic {
            Some(t) => Some(chars_of(to_lowercase(t).as_str())),
            None => None,
        };
        let all = self.lessons.items();
        let mut out: Vec<Lesson> = Vec::new();
        let mut i: usize = 0;
        assert(all@.take(0).filter(pred) =~= Seq::<Lesson>::empty()) by {
            reveal_with_fuel(Seq::<_>::filter, 1);
        }
        while i < all.len()
            invariant
                0 <= i <= all@.len(),
                all@ == self@.lessons,
                pred == lesson_filter(tv),
                tv == opt_str_view(topic),
                match needle {
                    Some(n) => tv is Some && n@ == lowercase_of(tv->0),
                    None => tv is None,
                },
                out@ == all@.take(i as int).filter(pred),
            decreases all@.len() - i,
        {
            let l = &all[i];
            let keep = match &needle {
                Some(n) => {
                    let hay = chars_of(to_lowercase(l.topic.as_str()).as_str());
                    contains_chars(hay.as_slice(), n.as_slice())
                },
                None => true,
            };
            assert(keep == pred(all@[i as int]));
            proof {
                reveal_with_fuel(Seq::<_>::filter, 1);
                assert(all@.take(i + 1).drop_last() =~= all@.take(i as int));
                assert(all@.take(i + 1).last() == all@[i as int]);
            }
            if keep {
                out.push(l.clone());
            }
            i = i + 1;
        }
        assert(all@.take(all@.len() as int) =~= all@);
        out
    }
}

} // verus!
