//! Read-side rules of the REST API: liveness of agents and query limits.

use crate::model::{now_ms, AgentSnapshot};
use crate::state::LIVENESS_WINDOW_MS;
use vstd::prelude::*;

verus! {

/// The most events one query returns, whatever limit it asks for.
pub const MAX_READ_LIMIT: usize = 1000;

/// Whether an agent last seen at `last_seen_ms` counts as live at `now`: it
/// reported anything within the liveness window (a time after `now` counts
/// as now).
pub open spec fn live_at(now: u64, last_seen_ms: u64) -> bool {
    now <= last_seen_ms || now - last_seen_ms <= LIVENESS_WINDOW_MS
}

pub fn is_live(now: u64, last_seen_ms: u64) -> (r: bool)
    ensures
        r == live_at(now, last_seen_ms),
{
    now.saturating_sub(last_seen_ms) <= LIVENESS_WINDOW_MS
}

/// An agent as the agent list shows it.
#[derive(Debug)]
pub struct AgentListEntry {
    pub snapshot: AgentSnapshot,
    pub live: bool,
}

/// The list entry of an agent at time `now`.
pub fn with_liveness_at(snapshot: AgentSnapshot, now: u64) -> (r: AgentListEntry)
    ensures
        r.snapshot == snapshot,
        r.live == live_at(now, snapshot.last_seen_ms),
{
    let live = is_live(now, snapshot.last_seen_ms);
    AgentListEntry { snapshot, live }
}

/// The list entry of an agent, live or not by the current time.
pub fn with_liveness(snapshot: AgentSnapshot) -> (r: AgentListEntry)
    ensures
        r.snapshot == snapshot,
{
    with_liveness_at(snapshot, now_ms())
}

/// The limit a query uses when it names none.
pub fn default_limit() -> (r: usize)
    ensures
        r == 100,
{
    100
}

/// The limit a query uses: the one asked for, at most [`MAX_READ_LIMIT`].
pub fn read_limit(requested: Option<usize>) -> (r: usize)
    ensures
        r == match requested {
            Some(n) => if n <= MAX_READ_LIMIT { n } else { MAX_READ_LIMIT },
            None => 100,
        },
{
    match requested {
        Some(n) => if n <= MAX_READ_LIMIT {
            n
        } else {
            MAX_READ_LIMIT
        },
        None => default_limit(),
    }
}

} // verus!
