//! Properties of the store that span several operations.

use crate::model::{event_agent, Event, Lesson, StoredEvent, Transport};
use crate::text::lowercase_of;
use crate::sort::{is_sorted_desc, lemma_sort_desc, lemma_sort_desc_distinct, sort_desc, stamp_key};
use crate::storage::{
    agent_inv, agent_updated, agents_report, capacity_of, fresh_agent, ingested, keys_unique,
    lemma_ingested_inv, lemma_position, lemma_pushed_front_elems, lesson_filter, lesson_listed,
    lessons_desc, lessons_report, name_inserted, newest_oldest_first, position_of, session_ids,
    store_inv, stored_as, summary_of, task_report, tasks_after, tasks_report, validation_error,
    AgentState, AgentSummary, Keyed, SessionEntry, StorageConfig, StoreState, TaskState,
};
use crate::model::{AgentSnapshot, TaskSnapshot};
use vstd::prelude::*;

verus! {

/// `names` holds a name whose characters are `n`.
pub open spec fn has_name(names: Seq<String>, n: Seq<char>) -> bool {
    exists|i: int| 0 <= i < names.len() && (#[trigger] names[i])@ == n
}

pub(crate) proof fn lemma_name_inserted_members(names: Seq<String>, name: String)
    ensures
        has_name(name_inserted(names, name), name@),
        forall|n: Seq<char>| has_name(names, n) ==> has_name(name_inserted(names, name), n),
    decreases names.len(),
{
    let r = name_inserted(names, name);
    if names.len() == 0 {
        assert(r[0]@ == name@);
    } else if names[0]@ == name@ {
        assert(r[0]@ == name@);
    } else if crate::text::chars_lt(name@, names[0]@) {
        assert(r[0]@ == name@);
        assert forall|n: Seq<char>| has_name(names, n) implies has_name(r, n) by {
            let i = choose|i: int| 0 <= i < names.len() && (#[trigger] names[i])@ == n;
            assert(r[i + 1] == names[i]);
        }
    } else {
        let t = names.drop_first();
        lemma_name_inserted_members(t, name);
        let rt = name_inserted(t, name);
        assert(r == seq![names[0]] + rt);
        let k = choose|k: int| 0 <= k < rt.len() && (#[trigger] rt[k])@ == name@;
        assert(r[k + 1] == rt[k]);
        assert forall|n: Seq<char>| has_name(names, n) implies has_name(r, n) by {
            let i = choose|i: int| 0 <= i < names.len() && (#[trigger] names[i])@ == n;
            if i == 0 {
                assert(r[0] == names[0]);
            } else {
                assert(t[i - 1] == names[i]);
                assert(has_name(t, n));
                let m = choose|m: int| 0 <= m < rt.len() && (#[trigger] rt[m])@ == n;
                assert(r[m + 1] == rt[m]);
            }
        }
    }
}

/// Law: recording an event makes its agent the most recently seen one (and
/// registers it when unknown), stamps it with the event's time, counts the
/// event and puts the stored event first in the agent's ring and in the
/// global ring; the sequence number advances by one.
pub proof fn law_ingest_registers_agent(s: StoreState, c: StorageConfig, t: Transport, e: Event, now: u64)
    requires
        store_inv(s, c),
        s.seq < u64::MAX,
    ensures
        ({
            let r = ingested(s, c, t, e, now);
            let stored = stored_as(s, t, e, now);
            let p = position_of(s.agents, event_agent(e)@);
            &&& r.seq == s.seq + 1
            &&& stored.seq == s.seq + 1
            &&& r.agents.len() > 0
            &&& r.agents[0].name@ == event_agent(e)@
            &&& position_of(r.agents, event_agent(e)@) == 0
            &&& r.agents[0].last_seen_ms == now
            &&& r.agents[0].events_ingested == if p >= 0 {
                s.agents[p].events_ingested + 1
            } else {
                1
            }
            &&& r.agents[0].events[0] == stored
            &&& r.recent[0] == stored
        }),
{
    let r = ingested(s, c, t, e, now);
    let stored = stored_as(s, t, e, now);
    let name = event_agent(e);
    let p = position_of(s.agents, name@);
    lemma_ingested_inv(s, c, t, e, now);
    lemma_pushed_front_elems(s.recent, stored, capacity_of(c.recent_events));
    if p >= 0 {
        assert(s.agents[p].name@ == name@);
    } else {
        let x = agent_updated(fresh_agent(name, now), c, stored);
        lemma_pushed_front_elems(s.agents, x, capacity_of(c.max_agents));
    }
    let a = r.agents[0];
    assert(a.name@ == name@);
    lemma_pushed_front_elems(
        if p >= 0 { s.agents[p].events } else { Seq::empty() },
        stored,
        capacity_of(c.events_per_agent),
    );
    lemma_position(r.agents, name@, 0);
}

/// Law: registering with a session records the provider and makes that
/// session the agent's most recent one.
pub proof fn law_register_records_provider_and_session(
    s: StoreState,
    c: StorageConfig,
    t: Transport,
    e: Event,
    now: u64,
)
    requires
        store_inv(s, c),
        s.seq < u64::MAX,
        e is Register,
    ensures
        ({
            let r = ingested(s, c, t, e, now);
            &&& r.agents[0].provider == e->Register_agent.provider
            &&& (e->Register_agent.session matches Some(id) ==> r.agents[0].sessions[0] == (SessionEntry {
                id,
                at_ms: now,
            }))
        }),
{
    lemma_ingested_inv(s, c, t, e, now);
    let stored = stored_as(s, t, e, now);
    let name = event_agent(e);
    let p = position_of(s.agents, name@);
    let base = if p >= 0 { s.agents[p] } else { fresh_agent(name, now) };
    if p < 0 {
        lemma_pushed_front_elems(s.agents, agent_updated(base, c, stored), capacity_of(c.max_agents));
    }
    match e->Register_agent.session {
        Some(id) => {
            let entry = SessionEntry { id, at_ms: now };
            let q = position_of(base.sessions, id@);
            if q < 0 {
                lemma_pushed_front_elems(base.sessions, entry, capacity_of(c.sessions_per_agent));
            }
        },
        None => {},
    }
}

/// Law: a task reported by two different agents becomes a meta-task that
/// lists both of them.
pub proof fn law_two_reporters_make_meta(
    s: StoreState,
    c: StorageConfig,
    t1: Transport,
    e1: Event,
    n1: u64,
    t2: Transport,
    e2: Event,
    n2: u64,
)
    requires
        store_inv(s, c),
        s.seq + 1 < u64::MAX,
        e1 is Task,
        e2 is Task,
        e1->task_id@ == e2->task_id@,
        e1->Task_agent@ != e2->Task_agent@,
    ensures
        ({
            let r = ingested(ingested(s, c, t1, e1, n1), c, t2, e2, n2);
            &&& r.tasks.len() > 0
            &&& r.tasks[0].task_id@ == e1->task_id@
            &&& r.tasks[0].meta
            &&& task_report(r.tasks[0]).meta
            &&& has_name(r.tasks[0].agents, e1->Task_agent@)
            &&& has_name(r.tasks[0].agents, e2->Task_agent@)
        }),
{
    let s1 = ingested(s, c, t1, e1, n1);
    lemma_ingested_inv(s, c, t1, e1, n1);
    let tasks0 = s.tasks;
    let p0 = position_of(tasks0, e1->task_id@);
    if p0 >= 0 {
        lemma_name_inserted_members(tasks0[p0].agents, e1->Task_agent);
        assert(s1.tasks[0].agents == name_inserted(tasks0[p0].agents, e1->Task_agent));
    } else {
        lemma_pushed_front_elems(tasks0, tasks_after(tasks0, c, e1, n1)[0], capacity_of(c.max_tasks));
        lemma_pushed_front_elems(
            tasks0,
            TaskState {
                task_id: e1->task_id,
                parent_id: e1->parent_id,
                title: e1->title,
                status: e1->status,
                percent: e1->percent,
                meta: e1->meta,
                agents: seq![e1->Task_agent],
                updated_at_ms: n1,
            },
            capacity_of(c.max_tasks),
        );
        assert(s1.tasks[0].agents[0]@ == e1->Task_agent@);
    }
    assert(has_name(s1.tasks[0].agents, e1->Task_agent@));
    lemma_position(s1.tasks, e2->task_id@, 0);
    let r = ingested(s1, c, t2, e2, n2);
    lemma_name_inserted_members(s1.tasks[0].agents, e2->Task_agent);
    let agents = name_inserted(s1.tasks[0].agents, e2->Task_agent);
    assert(r.tasks[0].agents == agents);
    let i = choose|i: int| 0 <= i < agents.len() && (#[trigger] agents[i])@ == e1->Task_agent@;
    let j = choose|j: int| 0 <= j < agents.len() && (#[trigger] agents[j])@ == e2->Task_agent@;
    assert(i != j);
    assert(agents.len() > 1);
}

/// Law: the agent list is ordered most recently seen first and lists every
/// cached agent once.
pub proof fn law_agents_most_recent_first(s: StoreState)
    ensures
        is_sorted_desc(agents_report(s), stamp_key::<AgentSnapshot>()),
        agents_report(s).to_multiset() == s.agents.map_values(|a: AgentState| summary_of(a)).to_multiset(),
{
    lemma_sort_desc(s.agents.map_values(|a: AgentState| summary_of(a)), stamp_key::<AgentSnapshot>());
}

/// Law: the task list is ordered most recently updated first and lists every
/// cached task once.
pub proof fn law_tasks_most_recent_first(s: StoreState)
    ensures
        is_sorted_desc(tasks_report(s), stamp_key::<TaskSnapshot>()),
        tasks_report(s).to_multiset() == s.tasks.map_values(|t: TaskState| task_report(t)).to_multiset(),
{
    lemma_sort_desc(s.tasks.map_values(|t: TaskState| task_report(t)), stamp_key::<TaskSnapshot>());
}

/// Law: a query returns at most `limit` events, and all cached ones when
/// there are no more than `limit`.
pub proof fn law_query_limit(events: Seq<StoredEvent>, limit: usize)
    ensures
        newest_oldest_first(events, limit).len() == if events.len() < limit {
            events.len()
        } else {
            limit as nat
        },
{
}

proof fn lemma_filter_lessons_desc(s: Seq<Lesson>, top: u64, pred: spec_fn(Lesson) -> bool)
    requires
        lessons_desc(s, top),
    ensures
        lessons_desc(s.filter(pred), top),
        forall|i: int|
            0 <= i < s.filter(pred).len() ==> exists|j: int|
                0 <= j < s.len() && s[j] == #[trigger] s.filter(pred)[i],
    decreases s.len(),
{
    reveal_with_fuel(Seq::<_>::filter, 1);
    if s.len() > 0 {
        let d = s.drop_last();
        assert(lessons_desc(d, top)) by {
            assert forall|i: int, j: int| 0 <= i < j < d.len() implies (#[trigger] d[i]).seq > (
            #[trigger] d[j]).seq by {
                assert(d[i] == s[i] && d[j] == s[j]);
            }
            assert forall|i: int| 0 <= i < d.len() implies (#[trigger] d[i]).seq <= top by {
                assert(d[i] == s[i]);
            }
        }
        lemma_filter_lessons_desc(d, top, pred);
        let f = d.filter(pred);
        assert forall|i: int| 0 <= i < f.len() implies exists|j: int|
            0 <= j < s.len() && s[j] == #[trigger] f[i] by {
            let j = choose|j: int| 0 <= j < d.len() && d[j] == f[i];
            assert(s[j] == d[j]);
        }
        if pred(s.last()) {
            let g = f.push(s.last());
            assert forall|i: int, j: int| 0 <= i < j < g.len() implies (#[trigger] g[i]).seq > (
            #[trigger] g[j]).seq by {
                if j == g.len() - 1 {
                    let k = choose|k: int| 0 <= k < d.len() && d[k] == f[i];
                    assert(s[k] == d[k]);
                    assert(s[k].seq > s[s.len() - 1].seq);
                } else {
                    assert(g[i] == f[i] && g[j] == f[j]);
                }
            }
            assert forall|i: int| 0 <= i < g.len() implies (#[trigger] g[i]).seq <= top by {
                if i < g.len() - 1 {
                    assert(g[i] == f[i]);
                }
            }
            assert forall|i: int| 0 <= i < g.len() implies exists|j: int|
                0 <= j < s.len() && s[j] == #[trigger] g[i] by {
                if i == g.len() - 1 {
                    assert(s[s.len() - 1] == g[i]);
                } else {
                    assert(g[i] == f[i]);
                }
            }
        }
    }
}

/// Law: lessons are listed newest first, whatever the topic filter.
pub proof fn law_lessons_newest_first(s: StoreState, c: StorageConfig, topic: Option<Seq<char>>)
    requires
        store_inv(s, c),
    ensures
        forall|i: int, j: int|
            0 <= i < j < lessons_report(s, topic).len() ==> (#[trigger] lessons_report(s, topic)[i]).seq
                > (#[trigger] lessons_report(s, topic)[j]).seq,
{
    lemma_filter_lessons_desc(s.lessons, s.seq, lesson_filter(topic));
}

/// Law: every cache stays within its capacity, and at most one record exists
/// per agent name and per task id.
pub proof fn law_bounded_and_unique(s: StoreState, c: StorageConfig)
    requires
        store_inv(s, c),
    ensures
        s.agents.len() <= capacity_of(c.max_agents),
        s.recent.len() <= capacity_of(c.recent_events),
        s.tasks.len() <= capacity_of(c.max_tasks),
        s.lessons.len() <= capacity_of(c.max_lessons),
        forall|i: int|
            0 <= i < s.agents.len() ==> (#[trigger] s.agents[i]).events.len() <= capacity_of(
                c.events_per_agent,
            ) && s.agents[i].sessions.len() <= capacity_of(c.sessions_per_agent),
        keys_unique(s.agents),
        keys_unique(s.tasks),
{
}


/// The state of a store created empty, after `history` was offered to it in
/// order: each entry is a transport, an event and the time it arrived; an
/// invalid event is refused and changes nothing.
pub open spec fn replayed(c: StorageConfig, history: Seq<(Transport, Event, u64)>) -> StoreState
    decreases history.len(),
{
    if history.len() == 0 {
        StoreState {
            seq: 0,
            agents: Seq::empty(),
            recent: Seq::empty(),
            tasks: Seq::empty(),
            lessons: Seq::empty(),
        }
    } else {
        let s = replayed(c, history.drop_last());
        let (t, e, now) = history.last();
        if validation_error(e) is None {
            ingested(s, c, t, e, now)
        } else {
            s
        }
    }
}

/// How many events of `history` are valid, and so accepted.
pub open spec fn accepted_count(history: Seq<(Transport, Event, u64)>) -> nat
    decreases history.len(),
{
    if history.len() == 0 {
        0
    } else {
        accepted_count(history.drop_last()) + if validation_error(history.last().1) is None {
            1nat
        } else {
            0nat
        }
    }
}

/// Law: whatever events a fresh store was offered, it keeps the store
/// invariant, and its last sequence number is the number of events it
/// accepted; so sequence numbers start at 1 and rise by one per accepted
/// event, and a refused event uses none.
pub proof fn law_sequence_counts_accepted_events(c: StorageConfig, history: Seq<(Transport, Event, u64)>)
    requires
        accepted_count(history) <= u64::MAX,
    ensures
        store_inv(replayed(c, history), c),
        replayed(c, history).seq == accepted_count(history),
    decreases history.len(),
{
    if history.len() > 0 {
        let h = history.drop_last();
        law_sequence_counts_accepted_events(c, h);
        let s = replayed(c, h);
        let (t, e, now) = history.last();
        if validation_error(e) is None {
            lemma_ingested_inv(s, c, t, e, now);
        }
    }
}


pub(crate) proof fn lemma_filter_all_lessons(s: Seq<Lesson>)
    ensures
        s.filter(lesson_filter(None)) == s,
    decreases s.len(),
{
    reveal_with_fuel(Seq::<_>::filter, 1);
    if s.len() > 0 {
        lemma_filter_all_lessons(s.drop_last());
        assert(s.drop_last().push(s.last()) =~= s);
    } else {
        assert(s.filter(lesson_filter(None)) =~= s);
    }
}

proof fn lemma_filter_keeps_first(s: Seq<Lesson>, pred: spec_fn(Lesson) -> bool)
    requires
        s.len() > 0,
        pred(s[0]),
    ensures
        s.filter(pred).len() > 0,
        s.filter(pred)[0] == s[0],
    decreases s.len(),
{
    reveal_with_fuel(Seq::<_>::filter, 1);
    if s.len() == 1 {
        assert(s.drop_last().filter(pred) =~= Seq::<Lesson>::empty());
    } else {
        lemma_filter_keeps_first(s.drop_last(), pred);
        assert(s.drop_last()[0] == s[0]);
    }
}

/// Law: a recorded lesson is listed first, with the sequence number and time
/// of its event, both with no topic filter and under its own topic.
pub proof fn law_learning_listed_first(s: StoreState, c: StorageConfig, t: Transport, e: Event, now: u64)
    requires
        store_inv(s, c),
        s.seq < u64::MAX,
        e is Learning,
    ensures
        ({
            let r = ingested(s, c, t, e, now);
            &&& lessons_report(r, None).len() > 0
            &&& lessons_report(r, None)[0] == (Lesson {
                seq: (s.seq + 1) as u64,
                agent: e->Learning_agent,
                topic: e->topic,
                lesson: e->lesson,
                recorded_at_ms: now,
            })
            &&& lessons_report(r, Some(e->topic@)).len() > 0
            &&& lessons_report(r, Some(e->topic@))[0] == lessons_report(r, None)[0]
        }),
{
    let r = ingested(s, c, t, e, now);
    let stored = stored_as(s, t, e, now);
    let l = Lesson {
        seq: stored.seq,
        agent: e->Learning_agent,
        topic: e->topic,
        lesson: e->lesson,
        recorded_at_ms: now,
    };
    lemma_pushed_front_elems(s.lessons, l, capacity_of(c.max_lessons));
    lemma_filter_all_lessons(r.lessons);
    let low = lowercase_of(l.topic@);
    assert(low.subrange(0, 0 + low.len() as int) =~= low);
    assert(crate::text::contains_run(low, low));
    assert(lesson_listed(l, Some(e->topic@)));
    lemma_filter_keeps_first(r.lessons, lesson_filter(Some(e->topic@)));
}


/// Law: the agent list names each agent once.
pub proof fn law_agents_listed_once(s: StoreState, c: StorageConfig)
    requires
        store_inv(s, c),
    ensures
        forall|i: int, j: int|
            0 <= i < j < agents_report(s).len() ==> (#[trigger] agents_report(s)[i]).name@ != (
            #[trigger] agents_report(s)[j]).name@,
{
    let m = s.agents.map_values(|a: AgentState| summary_of(a));
    assert forall|i: int, j: int| 0 <= i < j < m.len() implies (#[trigger] m[i]).name@ != (
    #[trigger] m[j]).name@ by {
        assert(s.agents[i].key() != s.agents[j].key());
    }
    lemma_sort_desc_distinct(m, stamp_key::<AgentSnapshot>(), |v: AgentSummary| v.name@);
}

/// Law: an agent's listed sessions are most recently reported first, each id
/// once, and no more than the session capacity.
pub proof fn law_agent_sessions_listed(a: AgentState, c: StorageConfig, top: u64)
    requires
        agent_inv(a, c, top),
    ensures
        ({
            let sessions = sort_desc(a.sessions, stamp_key::<SessionEntry>());
            &&& summary_of(a).sessions == session_ids(sessions)
            &&& is_sorted_desc(sessions, stamp_key::<SessionEntry>())
            &&& summary_of(a).sessions.len() <= capacity_of(c.sessions_per_agent)
            &&& forall|i: int, j: int|
                0 <= i < j < summary_of(a).sessions.len() ==> (#[trigger] summary_of(a).sessions[i])@
                    != (#[trigger] summary_of(a).sessions[j])@
        }),
{
    let k = stamp_key::<SessionEntry>();
    lemma_sort_desc(a.sessions, k);
    assert forall|i: int, j: int| 0 <= i < j < a.sessions.len() implies (#[trigger] a.sessions[i]).id@
        != (#[trigger] a.sessions[j]).id@ by {
        assert(a.sessions[i].key() != a.sessions[j].key());
    }
    lemma_sort_desc_distinct(a.sessions, k, |e: SessionEntry| e.id@);
    let sorted = sort_desc(a.sessions, k);
    let ids = summary_of(a).sessions;
    assert forall|i: int, j: int| 0 <= i < j < ids.len() implies (#[trigger] ids[i])@ != (#[trigger] ids[j])@ by {
        assert(ids[i] == sorted[i].id && ids[j] == sorted[j].id);
    }
}

} // verus!
