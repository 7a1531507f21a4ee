//! The text the web UI shows: relative times, CSS classes, status chips,
//! event summaries and the parent links of the task tree.

use crate::model::{
    event_kind_label, introspection_label, provider_label, task_status_label, Confidence, Event,
    IntrospectionKind, Provider, StoredEvent, TaskSnapshot, TaskStatus,
};
use crate::text::{decimal, decimal_string, is_blank, is_blank_str};
use vstd::prelude::*;

verus! {

/// A relative time: `d` milliseconds ago in seconds, minutes or hours, with
/// the given texts around the number.
pub open spec fn scaled(d: nat, prefix: Seq<char>, unit_s: Seq<char>, unit_m: Seq<char>, unit_h: Seq<char>) -> Seq<char> {
    if d < 120_000 {
        prefix + decimal(d / 1_000) + unit_s
    } else if d < 7_200_000 {
        prefix + decimal(d / 60_000) + unit_m
    } else {
        prefix + decimal(d / 3_600_000) + unit_h
    }
}

/// Elapsed time from `at` to `now`, 0 when `at` lies after `now`.
pub open spec fn elapsed(now: u64, at: u64) -> nat {
    if now >= at {
        (now - at) as nat
    } else {
        0
    }
}

/// Axis label of the confidence chart: how long before `now` the time `at` was.
pub open spec fn rel_label_text(now: u64, at: u64) -> Seq<char> {
    let d = elapsed(now, at);
    if d < 1_000 {
        "now"@
    } else {
        scaled(d, "-"@, "s"@, "m"@, "h"@)
    }
}

/// How long ago `then` was, as the dashboard shows it.
pub open spec fn ago_text(now: u64, then: u64) -> Seq<char> {
    let d = elapsed(now, then);
    if d < 2_000 {
        "just now"@
    } else {
        scaled(d, Seq::empty(), "s ago"@, "m ago"@, "h ago"@)
    }
}

fn scaled_string(d: u64, prefix: &str, unit_s: &str, unit_m: &str, unit_h: &str) -> (r: String)
    ensures
        r@ == scaled(d as nat, prefix@, unit_s@, unit_m@, unit_h@),
{
    let mut s = String::from_str(prefix);
    if d < 120_000 {
        s.append(decimal_string(d / 1_000).as_str());
        s.append(unit_s);
    } else if d < 7_200_000 {
        s.append(decimal_string(d / 60_000).as_str());
        s.append(unit_m);
    } else {
        s.append(decimal_string(d / 3_600_000).as_str());
        s.append(unit_h);
    }
    s
}

/// Axis label of the confidence chart: `now`, `-Ns`, `-Nm` or `-Nh`.
pub fn rel_label(now: u64, at: u64) -> (r: String)
    ensures
        r@ == rel_label_text(now, at),
{
    let d = now.saturating_sub(at);
    if d < 1_000 {
        String::from_str("now")
    } else {
        scaled_string(d, "-", "s", "m", "h")
    }
}

/// `just now`, `Ns ago`, `Nm ago` or `Nh ago`.
pub fn ago(now: u64, then: u64) -> (r: String)
    ensures
        r@ == ago_text(now, then),
{
    let d = now.saturating_sub(then);
    if d < 2_000 {
        String::from_str("just now")
    } else {
        proof {
            reveal_strlit("");
        }
        scaled_string(d, "", "s ago", "m ago", "h ago")
    }
}

pub open spec fn provider_class_text(p: Provider) -> Seq<char> {
    match p {
        Provider::Chatgpt => "chip provider-chatgpt"@,
        Provider::Claude => "chip provider-anthropic"@,
        Provider::Gemini => "chip provider-gemini"@,
        Provider::Other => "chip provider-other"@,
    }
}

/// CSS classes of the provider chip.
pub fn provider_class(p: Provider) -> (r: &'static str)
    ensures
        r@ == provider_class_text(p),
{
    match p {
        Provider::Chatgpt => "chip provider-chatgpt",
        Provider::Claude => "chip provider-anthropic",
        Provider::Gemini => "chip provider-gemini",
        Provider::Other => "chip provider-other",
    }
}

pub open spec fn status_chip_text(status: TaskStatus) -> (Seq<char>, Seq<char>) {
    match status {
        TaskStatus::Pending => ("chip status-pending"@, "\u{25cc}"@),
        TaskStatus::Running => ("chip status-running"@, "\u{25b6}"@),
        TaskStatus::Blocked => ("chip status-blocked"@, "\u{26a0}"@),
        TaskStatus::Done => ("chip status-done"@, "\u{2713}"@),
        TaskStatus::Failed => ("chip status-failed"@, "\u{2715}"@),
    }
}

/// CSS classes and icon of a status chip; the icon and the text label always
/// ride along with the color.
pub fn status_chip(status: TaskStatus) -> (r: (&'static str, &'static str))
    ensures
        (r.0@, r.1@) == status_chip_text(status),
{
    match status {
        TaskStatus::Pending => ("chip status-pending", "\u{25cc}"),
        TaskStatus::Running => ("chip status-running", "\u{25b6}"),
        TaskStatus::Blocked => ("chip status-blocked", "\u{26a0}"),
        TaskStatus::Done => ("chip status-done", "\u{2713}"),
        TaskStatus::Failed => ("chip status-failed", "\u{2715}"),
    }
}

pub open spec fn bar_class_text(status: TaskStatus) -> Seq<char> {
    match status {
        TaskStatus::Done => "bar done"@,
        TaskStatus::Failed => "bar failed"@,
        _ => "bar"@,
    }
}

/// CSS classes of a task's progress bar.
pub fn bar_class(status: TaskStatus) -> (r: &'static str)
    ensures
        r@ == bar_class_text(status),
{
    match status {
        TaskStatus::Done => "bar done",
        TaskStatus::Failed => "bar failed",
        _ => "bar",
    }
}

/// The width of a progress bar, in percent.
pub fn progress_percent(percent: u8) -> (r: u8)
    ensures
        r == if percent <= 100 { percent } else { 100 },
{
    if percent <= 100 {
        percent
    } else {
        100
    }
}

pub open spec fn opt_text(o: Option<String>, before: Seq<char>, after: Seq<char>) -> Seq<Seq<char>> {
    match o {
        Some(s) => seq![before + s@ + after],
        None => Seq::empty(),
    }
}

/// `parts` joined with `sep` between neighbours.
pub open spec fn joined(parts: Seq<Seq<char>>, sep: Seq<char>) -> Seq<char>
    decreases parts.len(),
{
    if parts.len() == 0 {
        Seq::empty()
    } else if parts.len() == 1 {
        parts[0]
    } else {
        joined(parts.drop_last(), sep) + sep + parts.last()
    }
}

/// The one-line summary of an event in the live feed. `confidence_percent` is
/// the rendering of the event's confidence times 100, rounded to an integer.
pub open spec fn summary_text(e: Event, confidence_percent: Seq<char>) -> Seq<char> {
    match e {
        Event::Register { agent } => "registered ("@ + provider_label(agent.provider) + match agent.session {
            Some(s) => ", session "@ + s@,
            None => Seq::empty(),
        } + ")"@,
        Event::Introspection { kind, content, .. } => "["@ + introspection_label(kind) + "] "@
            + content@,
        Event::Metacognition { confidence, strategy, reflection, .. } => joined(
            (if confidence is Some {
                seq!["confidence "@ + confidence_percent + "%"@]
            } else {
                Seq::empty()
            }) + opt_text(strategy, "strategy -> "@, Seq::empty()) + opt_text(
                reflection,
                Seq::empty(),
                Seq::empty(),
            ),
            " | "@,
        ),
        Event::Task { task_id, title, status, percent, .. } => title@ + " ("@ + task_id@ + "): "@
            + task_status_label(status) + " "@ + decimal(percent as nat) + "%"@,
        Event::Learning { topic, lesson, .. } => "["@ + topic@ + "] "@ + lesson@,
        Event::Heartbeat { .. } => "heartbeat"@,
    }
}

fn push_part(out: &mut String, count: &mut usize, part: &str, sep: &str, Ghost(parts): Ghost<Seq<Seq<char>>>)
    requires
        old(out)@ == joined(parts, sep@),
        *old(count) == parts.len(),
        parts.len() < usize::MAX,
    ensures
        final(out)@ == joined(parts.push(part@), sep@),
        *final(count) == parts.len() + 1,
{
    if *count > 0 {
        out.append(sep);
    } else {
        assert(parts.len() == 0);
    }
    out.append(part);
    assert(parts.push(part@).drop_last() =~= parts);
    *count = *count + 1;
}

/// Summary of `e` for the live feed (see [`summary_text`]).
pub fn event_summary(e: &Event, confidence_percent: &str) -> (r: String)
    ensures
        r@ == summary_text(*e, confidence_percent@),
{
    match e {
        Event::Register { agent } => {
            let mut s = String::from_str("registered (");
            s.append(agent.provider.label());
            match &agent.session {
                Some(id) => {
                    s.append(", session ");
                    s.append(id.as_str());
                },
                None => {},
            }
            s.append(")");
            s
        },
        Event::Introspection { kind, content, .. } => {
            let mut s = String::from_str("[");
            s.append(kind.label());
            s.append("] ");
            s.append(content.as_str());
            s
        },
        Event::Metacognition { confidence, strategy, reflection, .. } => {
            let mut s = String::new();
            let mut count: usize = 0;
            let ghost mut parts: Seq<Seq<char>> = Seq::empty();
            if confidence.is_some() {
                let mut part = String::from_str("confidence ");
                part.append(confidence_percent);
                part.append("%");
                push_part(&mut s, &mut count, part.as_str(), " | ", Ghost(parts));
                proof {
                    parts = parts.push(part@);
                }
            }
            let ghost p1 = parts;
            match strategy {
                Some(st) => {
                    let mut part = String::from_str("strategy -> ");
                    part.append(st.as_str());
                    push_part(&mut s, &mut count, part.as_str(), " | ", Ghost(parts));
                    proof {
                        parts = parts.push(part@);
                    }
                },
                None => {},
            }
            let ghost p2 = parts;
            match reflection {
                Some(rf) => {
                    push_part(&mut s, &mut count, rf.as_str(), " | ", Ghost(parts));
                    proof {
                        parts = parts.push(rf@);
                    }
                },
                None => {},
            }
            proof {
                let c = if confidence is Some {
                    seq!["confidence "@ + confidence_percent@ + "%"@]
                } else {
                    Seq::<Seq<char>>::empty()
                };
                assert(p1 =~= c);
                assert(p2 =~= p1 + opt_text(*strategy, "strategy -> "@, Seq::empty()));
                assert(parts =~= p2 + opt_text(*reflection, Seq::empty(), Seq::empty()));
            }
            s
        },
        Event::Task { task_id, title, status, percent, .. } => {
            let mut s = title.clone();
            s.append(" (");
            s.append(task_id.as_str());
            s.append("): ");
            s.append(status.label());
            s.append(" ");
            s.append(decimal_string(*percent as u64).as_str());
            s.append("%");
            s
        },
        Event::Learning { topic, lesson, .. } => {
            let mut s = String::from_str("[");
            s.append(topic.as_str());
            s.append("] ");
            s.append(lesson.as_str());
            s
        },
        Event::Heartbeat { .. } => String::from_str("heartbeat"),
    }
}

/// Whether `link` is where the parent of task `i` sits in `tasks`: the first
/// task whose id is its parent id, or `None` when it has no parent or its
/// parent is not listed.
pub open spec fn parent_link(tasks: Seq<TaskSnapshot>, i: int, link: Option<usize>) -> bool {
    match tasks[i].parent_id {
        Some(p) => match link {
            Some(j) => j < tasks.len() && tasks[j as int].task_id@ == p@ && forall|k: int|
                0 <= k < j ==> (#[trigger] tasks[k]).task_id@ != p@,
            None => forall|k: int| 0 <= k < tasks.len() ==> (#[trigger] tasks[k]).task_id@ != p@,
        },
        None => link is None,
    }
}

/// The first task of `tasks` with id `id`.
fn first_with_id(tasks: &Vec<TaskSnapshot>, id: &String) -> (r: Option<usize>)
    ensures
        match r {
            Some(j) => j < tasks@.len() && tasks@[j as int].task_id@ == id@ && forall|k: int|
                0 <= k < j ==> (#[trigger] tasks@[k]).task_id@ != id@,
            None => forall|k: int| 0 <= k < tasks@.len() ==> (#[trigger] tasks@[k]).task_id@ != id@,
        },
{
    let n = tasks.len();
    let mut j: usize = 0;
    while j < n
        invariant
            n == tasks@.len(),
            0 <= j <= n,
            forall|k: int| 0 <= k < j ==> (#[trigger] tasks@[k]).task_id@ != id@,
        decreases n - j,
    {
        if tasks[j].task_id == *id {
            return Some(j);
        }
        j = j + 1;
    }
    None
}

/// For every task, where its parent sits in `tasks`; a task whose parent is
/// not listed is a root of the tree.
pub fn task_parents(tasks: &Vec<TaskSnapshot>) -> (r: Vec<Option<usize>>)
    ensures
        r@.len() == tasks@.len(),
        forall|i: int| 0 <= i < tasks@.len() ==> parent_link(tasks@, i, #[trigger] r@[i]),
{
    let n = tasks.len();
    let mut out: Vec<Option<usize>> = Vec::new();
    let mut i: usize = 0;
    while i < n
        invariant
            n == tasks@.len(),
            0 <= i <= n,
            out@.len() == i,
            forall|m: int| 0 <= m < i ==> parent_link(tasks@, m, #[trigger] out@[m]),
        decreases n - i,
    {
        let found: Option<usize> = match &tasks[i].parent_id {
            Some(p) => first_with_id(tasks, p),
            None => None,
        };
        assert(parent_link(tasks@, i as int, found));
        out.push(found);
        i = i + 1;
    }
    out
}


/// What an agent's page draws of its events, oldest first: the confidence
/// points, the strategy shifts and the reflections of its metacognition
/// reports, and its introspection entries, each with the time it was received.
pub struct Timeline {
    pub confidence_points: Vec<(u64, Confidence)>,
    pub strategy_shifts: Vec<(u64, String)>,
    pub reflections: Vec<(u64, String)>,
    pub introspections: Vec<(u64, IntrospectionKind, String)>,
}

/// The confidence points of `events`, in order.
pub open spec fn confidence_points_of(events: Seq<StoredEvent>) -> Seq<(u64, Confidence)>
    decreases events.len(),
{
    if events.len() == 0 {
        Seq::empty()
    } else {
        let before = confidence_points_of(events.drop_last());
        let e = events.last();
        match e.event {
            Event::Metacognition { confidence: Some(c), .. } => before.push((e.received_at_ms, c)),
            _ => before,
        }
    }
}

/// The strategy shifts of `events`, in order.
pub open spec fn strategy_shifts_of(events: Seq<StoredEvent>) -> Seq<(u64, String)>
    decreases events.len(),
{
    if events.len() == 0 {
        Seq::empty()
    } else {
        let before = strategy_shifts_of(events.drop_last());
        let e = events.last();
        match e.event {
            Event::Metacognition { strategy: Some(s), .. } => before.push((e.received_at_ms, s)),
            _ => before,
        }
    }
}

/// The reflections of `events`, in order.
pub open spec fn reflections_of(events: Seq<StoredEvent>) -> Seq<(u64, String)>
    decreases events.len(),
{
    if events.len() == 0 {
        Seq::empty()
    } else {
        let before = reflections_of(events.drop_last());
        let e = events.last();
        match e.event {
            Event::Metacognition { reflection: Some(r), .. } => before.push((e.received_at_ms, r)),
            _ => before,
        }
    }
}

/// The introspection entries of `events`, in order.
pub open spec fn introspections_of(events: Seq<StoredEvent>) -> Seq<(u64, IntrospectionKind, String)>
    decreases events.len(),
{
    if events.len() == 0 {
        Seq::empty()
    } else {
        let before = introspections_of(events.drop_last());
        let e = events.last();
        match e.event {
            Event::Introspection { kind, content, .. } => before.push((e.received_at_ms, kind, content)),
            _ => before,
        }
    }
}

/// Splits an agent's events, oldest first, into what its page draws.
pub fn metacognition_timeline(events: &Vec<StoredEvent>) -> (r: Timeline)
    ensures
        r.confidence_points@ == confidence_points_of(events@),
        r.strategy_shifts@ == strategy_shifts_of(events@),
        r.reflections@ == reflections_of(events@),
        r.introspections@ == introspections_of(events@),
{
    let mut confidence_points: Vec<(u64, Confidence)> = Vec::new();
    let mut strategy_shifts: Vec<(u64, String)> = Vec::new();
    let mut reflections: Vec<(u64, String)> = Vec::new();
    let mut introspections: Vec<(u64, IntrospectionKind, String)> = Vec::new();
    let n = events.len();
    let mut i: usize = 0;
    while i < n
        invariant
            n == events@.len(),
            0 <= i <= n,
            confidence_points@ == confidence_points_of(events@.take(i as int)),
            strategy_shifts@ == strategy_shifts_of(events@.take(i as int)),
            reflections@ == reflections_of(events@.take(i as int)),
            introspections@ == introspections_of(events@.take(i as int)),
        decreases n - i,
    {
        let e = &events[i];
        assert(events@.take(i + 1).drop_last() == events@.take(i as int));
        assert(events@.take(i + 1).last() == events@[i as int]);
        match &e.event {
            Event::Metacognition { confidence, strategy, reflection, .. } => {
                if let Some(c) = confidence {
                    confidence_points.push((e.received_at_ms, c.clone()));
                }
                if let Some(s) = strategy {
                    strategy_shifts.push((e.received_at_ms, s.clone()));
                }
                if let Some(t) = reflection {
                    reflections.push((e.received_at_ms, t.clone()));
                }
            },
            Event::Introspection { kind, content, .. } => {
                introspections.push((e.received_at_ms, *kind, content.clone()));
            },
            _ => {},
        }
        i = i + 1;
    }
    assert(events@.take(n as int) == events@);
    Timeline { confidence_points, strategy_shifts, reflections, introspections }
}


/// The positions in `links` that hold `target`, in order.
pub open spec fn indices_with(links: Seq<Option<usize>>, target: Option<usize>) -> Seq<usize>
    decreases links.len(),
{
    if links.len() == 0 {
        Seq::empty()
    } else {
        let before = indices_with(links.drop_last(), target);
        if links.last() == target {
            before.push((links.len() - 1) as usize)
        } else {
            before
        }
    }
}

fn indices_of(links: &Vec<Option<usize>>, target: Option<usize>) -> (r: Vec<usize>)
    ensures
        r@ == indices_with(links@, target),
{
    let n = links.len();
    let mut out: Vec<usize> = Vec::new();
    let mut i: usize = 0;
    while i < n
        invariant
            n == links@.len(),
            0 <= i <= n,
            out@ == indices_with(links@.take(i as int), target),
        decreases n - i,
    {
        assert(links@.take(i + 1).drop_last() == links@.take(i as int));
        if links[i] == target {
            out.push(i);
        }
        i = i + 1;
    }
    assert(links@.take(n as int) == links@);
    out
}

/// The task tree of the parent links that `task_parents` gives: the tasks
/// without a listed parent, and for every task the tasks whose parent it is,
/// each in list order.
pub fn task_children(parents: &Vec<Option<usize>>) -> (r: (Vec<usize>, Vec<Vec<usize>>))
    ensures
        r.0@ == indices_with(parents@, None),
        r.1@.len() == parents@.len(),
        forall|j: int| 0 <= j < parents@.len() ==> (#[trigger] r.1@[j])@ == indices_with(parents@, Some(j as usize)),
{
    let roots = indices_of(parents, None);
    let n = parents.len();
    let mut children: Vec<Vec<usize>> = Vec::new();
    let mut j: usize = 0;
    while j < n
        invariant
            n == parents@.len(),
            0 <= j <= n,
            children@.len() == j,
            forall|k: int| 0 <= k < j ==> (#[trigger] children@[k])@ == indices_with(parents@, Some(k as usize)),
        decreases n - j,
    {
        let kids = indices_of(parents, Some(j));
        children.push(kids);
        j = j + 1;
    }
    (roots, children)
}


/// The topic filter the lessons page applies: a topic that is blank after
/// trimming means no filter.
pub fn topic_filter(topic: Option<String>) -> (r: Option<String>)
    ensures
        match topic {
            Some(t) => if is_blank(t@) {
                r is None
            } else {
                r == Some(t)
            },
            None => r is None,
        },
{
    match topic {
        Some(t) => {
            if is_blank_str(t.as_str()) {
                None
            } else {
                Some(t)
            }
        },
        None => None,
    }
}

} // verus!
