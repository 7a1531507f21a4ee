//! What the store's updates and queries give, stated directly over their
//! inputs and results.

use crate::model::{event_agent, unit_interval_bits, Event, StoredEvent, Transport};
use crate::storage::{
    agent_events_report, agent_updated, capacity_of, events_desc, fresh_agent, ingested,
    lemma_ingested_inv, lemma_pushed_front_elems, lessons_report, newest_oldest_first, position_of,
    store_inv, stored_as, summary_of, task_report, tasks_report, validation_error, Keyed,
    StorageConfig, StoreState, TaskState,
};
use crate::laws::{has_name, law_tasks_most_recent_first};
use crate::text::{contains_run, is_blank, lowercase_of};
use vstd::prelude::*;

verus! {

broadcast use vstd::seq_lib::group_to_multiset_ensures;

/// Law: after a task report, the task is the most recently updated one and
/// carries the reported parent, title, status and progress and the time of
/// the report; it lists the reporting agent, stays meta once meta, is the only
/// task with its id, and its read model is listed by the task query.
pub proof fn law_task_report_is_latest(s: StoreState, c: StorageConfig, t: Transport, e: Event, now: u64)
    requires
        store_inv(s, c),
        s.seq < u64::MAX,
        e is Task,
    ensures
        ({
            let r = ingested(s, c, t, e, now);
            let p = position_of(s.tasks, e->task_id@);
            &&& r.tasks.len() > 0
            &&& r.tasks[0].task_id@ == e->task_id@
            &&& r.tasks[0].parent_id == e->parent_id
            &&& r.tasks[0].title == e->title
            &&& r.tasks[0].status == e->status
            &&& r.tasks[0].percent == e->percent
            &&& r.tasks[0].updated_at_ms == now
            &&& has_name(r.tasks[0].agents, e->Task_agent@)
            &&& (e->meta ==> r.tasks[0].meta)
            &&& (p >= 0 && s.tasks[p].meta ==> r.tasks[0].meta)
            &&& forall|i: int| 1 <= i < r.tasks.len() ==> (#[trigger] r.tasks[i]).task_id@ != e->task_id@
            &&& task_report(r.tasks[0]).status == e->status
            &&& task_report(r.tasks[0]).percent == e->percent
            &&& tasks_report(r).contains(task_report(r.tasks[0]))
        }),
{
    let r = ingested(s, c, t, e, now);
    lemma_ingested_inv(s, c, t, e, now);
    let p = position_of(s.tasks, e->task_id@);
    if p >= 0 {
        crate::laws::lemma_name_inserted_members(s.tasks[p].agents, e->Task_agent);
    } else {
        let x = TaskState {
            task_id: e->task_id,
            parent_id: e->parent_id,
            title: e->title,
            status: e->status,
            percent: e->percent,
            meta: e->meta,
            agents: seq![e->Task_agent],
            updated_at_ms: now,
        };
        lemma_pushed_front_elems(s.tasks, x, capacity_of(c.max_tasks));
        assert(r.tasks[0].agents[0]@ == e->Task_agent@);
    }
    assert forall|i: int| 1 <= i < r.tasks.len() implies (#[trigger] r.tasks[i]).task_id@ != e->task_id@ by {
        assert(r.tasks[0].key() != r.tasks[i].key());
    }
    law_tasks_most_recent_first(r);
    let m = r.tasks.map_values(|t: TaskState| task_report(t));
    let x = task_report(r.tasks[0]);
    assert(m[0] == x);
    assert(m.contains(x));
    assert(m.to_multiset().count(x) > 0);
    assert(tasks_report(r).to_multiset().count(x) > 0);
}

/// Law: a lesson is listed under a topic filter whenever its lowercased topic
/// holds the lowercased filter anywhere, not only at its start.
pub proof fn law_lesson_listed_under_any_part(s: StoreState, topic: Seq<char>, i: int, x: Seq<char>, y: Seq<char>)
    requires
        0 <= i < s.lessons.len(),
        lowercase_of(s.lessons[i].topic@) == x + lowercase_of(topic) + y,
    ensures
        lessons_report(s, Some(topic)).contains(s.lessons[i]),
{
    let hay = lowercase_of(s.lessons[i].topic@);
    let needle = lowercase_of(topic);
    assert(hay.subrange(x.len() as int, x.len() + needle.len() as int) =~= needle);
    assert(contains_run(hay, needle));
    s.lessons.lemma_filter_contains(crate::storage::lesson_filter(Some(topic)), i);
}

/// Law: every lesson listed under a topic filter is a stored lesson whose
/// lowercased topic holds the lowercased filter; without a filter every
/// stored lesson is listed, in store order.
pub proof fn law_listed_lessons_match(s: StoreState, topic: Seq<char>)
    ensures
        forall|k: int|
            0 <= k < lessons_report(s, Some(topic)).len() ==> s.lessons.contains(
                #[trigger] lessons_report(s, Some(topic))[k],
            ) && exists|x: Seq<char>, y: Seq<char>|
                lowercase_of(lessons_report(s, Some(topic))[k].topic@) == x + lowercase_of(topic) + y,
        lessons_report(s, None) == s.lessons,
{
    let f = crate::storage::lesson_filter(Some(topic));
    let r = lessons_report(s, Some(topic));
    assert forall|k: int| 0 <= k < r.len() implies s.lessons.contains(#[trigger] r[k]) && exists|
        x: Seq<char>,
        y: Seq<char>,
    | lowercase_of(r[k].topic@) == x + lowercase_of(topic) + y by {
        let hay = lowercase_of(r[k].topic@);
        let needle = lowercase_of(topic);
        s.lessons.lemma_filter_pred(f, k);
        assert(r.contains(r[k]));
        s.lessons.lemma_filter_contains_rev(f, r[k]);
        assert(contains_run(hay, needle));
        let j = choose|j: int| 0 <= j <= hay.len() - needle.len() && #[trigger] hay.subrange(j, j + needle.len()) == needle;
        let x = hay.take(j);
        let y = hay.skip(j + needle.len());
        assert(hay =~= x + needle + y);
    }
    crate::laws::lemma_filter_all_lessons(s.lessons);
}

/// What a newest-first event list gives for a query with `limit`: the `limit`
/// newest events (all of them when there are fewer), oldest first; every
/// listed event is stored, and every stored event newer than a listed one is
/// listed too.
pub open spec fn newest_suffix(events: Seq<StoredEvent>, limit: usize, r: Seq<StoredEvent>) -> bool {
    &&& r.len() == if events.len() < limit { events.len() } else { limit as nat }
    &&& forall|i: int, j: int| 0 <= i < j < r.len() ==> (#[trigger] r[i]).seq < (#[trigger] r[j]).seq
    &&& forall|k: int| 0 <= k < r.len() ==> events.contains(#[trigger] r[k])
    &&& forall|k: int, m: int|
        0 <= k < r.len() && 0 <= m < events.len() && (#[trigger] events[m]).seq > (#[trigger] r[k]).seq
            ==> r.contains(events[m])
}

proof fn lemma_newest_oldest_first(events: Seq<StoredEvent>, limit: usize, top: u64)
    requires
        events_desc(events, top),
    ensures
        newest_suffix(events, limit, newest_oldest_first(events, limit)),
{
    let n = if events.len() < limit {
        events.len() as int
    } else {
        limit as int
    };
    let r = newest_oldest_first(events, limit);
    assert forall|i: int, j: int| 0 <= i < j < r.len() implies (#[trigger] r[i]).seq < (#[trigger] r[j]).seq by {
        assert(r[i] == events[n - 1 - i]);
        assert(r[j] == events[n - 1 - j]);
    }
    assert forall|k: int| 0 <= k < r.len() implies events.contains(#[trigger] r[k]) by {
        assert(r[k] == events[n - 1 - k]);
    }
    assert forall|k: int, m: int|
        0 <= k < r.len() && 0 <= m < events.len() && (#[trigger] events[m]).seq > (#[trigger] r[k]).seq
        implies r.contains(events[m]) by {
        assert(r[k] == events[n - 1 - k]);
        if m >= n - 1 - k {
            if m > n - 1 - k {
                assert(events[n - 1 - k].seq > events[m].seq);
            }
        }
        assert(m < n);
        assert(r[n - 1 - m] == events[m]);
    }
}

/// Law: an agent's event query gives the `limit` newest events of that
/// agent's ring, oldest first, and nothing for an agent that is not cached.
pub proof fn law_agent_events_are_newest(s: StoreState, c: StorageConfig, name: Seq<char>, limit: usize)
    requires
        store_inv(s, c),
    ensures
        position_of(s.agents, name) >= 0 ==> newest_suffix(
            s.agents[position_of(s.agents, name)].events,
            limit,
            agent_events_report(s, name, limit),
        ),
        position_of(s.agents, name) < 0 ==> agent_events_report(s, name, limit).len() == 0,
{
    let p = position_of(s.agents, name);
    if p >= 0 {
        assert(crate::storage::agent_inv(s.agents[p], c, s.seq));
        lemma_newest_oldest_first(s.agents[p].events, limit, s.seq);
    }
}

/// Law: the recent-events query gives the `limit` newest events of the global
/// ring, oldest first.
pub proof fn law_recent_events_are_newest(s: StoreState, c: StorageConfig, limit: usize)
    requires
        store_inv(s, c),
    ensures
        newest_suffix(s.recent, limit, newest_oldest_first(s.recent, limit)),
{
    lemma_newest_oldest_first(s.recent, limit, s.seq);
}

/// Law: the validation rules. An event is refused exactly when its agent name
/// is blank, or it is a metacognition report with a confidence outside
/// `0.0..=1.0` or with neither confidence, strategy nor reflection, or a task
/// with a blank id or a percentage above 100, or a lesson with a blank topic.
pub proof fn law_validation_rules(e: Event)
    ensures
        validation_error(e) is None <==> {
            &&& !is_blank(event_agent(e)@)
            &&& match e {
                Event::Metacognition { confidence, strategy, reflection, .. } => {
                    &&& (confidence matches Some(c) ==> unit_interval_bits(c.bits))
                    &&& (confidence is Some || strategy is Some || reflection is Some)
                },
                Event::Task { task_id, percent, .. } => !is_blank(task_id@) && percent <= 100,
                Event::Learning { topic, .. } => !is_blank(topic@),
                _ => true,
            }
        },
{
}

/// Law: a metacognition report updates its agent: a reported strategy becomes
/// the current strategy and a reported confidence the last confidence, each
/// independently of the other fields; what is not reported keeps its former
/// value. The agent's snapshot shows the same.
pub proof fn law_metacognition_updates_agent(s: StoreState, c: StorageConfig, t: Transport, e: Event, now: u64)
    requires
        store_inv(s, c),
        s.seq < u64::MAX,
        e is Metacognition,
    ensures
        ({
            let r = ingested(s, c, t, e, now);
            let p = position_of(s.agents, event_agent(e)@);
            &&& r.agents.len() > 0
            &&& r.agents[0].name@ == event_agent(e)@
            &&& (e->strategy is Some ==> r.agents[0].current_strategy == e->strategy)
            &&& (e->confidence is Some ==> r.agents[0].last_confidence == e->confidence)
            &&& (e->strategy is None && p >= 0 ==> r.agents[0].current_strategy == s.agents[p].current_strategy)
            &&& (e->confidence is None && p >= 0 ==> r.agents[0].last_confidence == s.agents[p].last_confidence)
            &&& summary_of(r.agents[0]).current_strategy == r.agents[0].current_strategy
            &&& summary_of(r.agents[0]).last_confidence == r.agents[0].last_confidence
        }),
{
    let stored = stored_as(s, t, e, now);
    let name = event_agent(e);
    let p = position_of(s.agents, name@);
    if p >= 0 {
        assert(s.agents[p].key() == name@);
    } else {
        let x = agent_updated(fresh_agent(name, now), c, stored);
        lemma_pushed_front_elems(s.agents, x, capacity_of(c.max_agents));
    }
}


/// Law: any recorded event keeps what it does not report of its agent: the
/// first time the agent was seen (the event's time for a new agent), its
/// provider unless the event registers it (a new agent's provider is `Other`),
/// its sessions unless the event registers one, and its confidence and
/// strategy unless the event is a metacognition report.
pub proof fn law_event_keeps_unreported_fields(s: StoreState, c: StorageConfig, t: Transport, e: Event, now: u64)
    requires
        store_inv(s, c),
        s.seq < u64::MAX,
    ensures
        ({
            let r = ingested(s, c, t, e, now);
            let p = position_of(s.agents, event_agent(e)@);
            &&& r.agents.len() > 0
            &&& r.agents[0].last_seen_ms == now
            &&& (p >= 0 ==> r.agents[0].first_seen_ms == s.agents[p].first_seen_ms)
            &&& (p < 0 ==> r.agents[0].first_seen_ms == now)
            &&& (!(e is Register) && p >= 0 ==> r.agents[0].provider == s.agents[p].provider)
            &&& (!(e is Register) && p < 0 ==> r.agents[0].provider == crate::model::Provider::Other)
            &&& (!(e is Register) && p >= 0 ==> r.agents[0].sessions == s.agents[p].sessions)
            &&& (!(e is Metacognition) && p >= 0 ==> r.agents[0].current_strategy
                == s.agents[p].current_strategy && r.agents[0].last_confidence
                == s.agents[p].last_confidence)
            &&& (!(e is Metacognition) && p < 0 ==> r.agents[0].current_strategy is None
                && r.agents[0].last_confidence is None)
        }),
{
    let stored = stored_as(s, t, e, now);
    let name = event_agent(e);
    let p = position_of(s.agents, name@);
    if p < 0 {
        let x = agent_updated(fresh_agent(name, now), c, stored);
        lemma_pushed_front_elems(s.agents, x, capacity_of(c.max_agents));
    }
}

} // verus!
