//! The ingestion pipeline shared by every transport: payload limits, framing
//! of one event or a batch, validation of the whole batch before the first
//! write, and the acknowledgements sent back.

use crate::model::{Ack, Event, StoredEvent, Transport};
use crate::storage::{ingested, validated, validation_error, LruStorage, StorageConfig, StoreState};
use crate::text::{chars_of, decimal, decimal_string, string_of, trim_chars, trimmed};
use vstd::prelude::*;

verus! {

/// Agents are considered live if they reported anything within this window.
pub const LIVENESS_WINDOW_MS: u64 = 30_000;

/// Maximum accepted JSON payload across HTTP, WebSocket, TCP and UDP ingestion.
pub const MAX_INGEST_PAYLOAD_BYTES: usize = 64 * 1024;

/// Maximum number of events accepted in one JSON array.
pub const MAX_INGEST_BATCH_EVENTS: usize = 256;

/// A payload cut down to its JSON text: one event, or an array of events.
#[derive(Debug)]
pub struct FramedPayload {
    /// The payload without surrounding whitespace.
    pub text: String,
    /// Whether the text is an array of events.
    pub batch: bool,
}

/// Why a payload is refused before any JSON is read, if it is.
pub open spec fn payload_rejection(bytes: nat, chars: Seq<char>) -> Option<Seq<char>> {
    if bytes > MAX_INGEST_PAYLOAD_BYTES {
        Some("payload exceeds "@ + decimal(MAX_INGEST_PAYLOAD_BYTES as nat) + " byte limit"@)
    } else if trimmed(chars).len() == 0 {
        Some("empty payload"@)
    } else {
        None
    }
}

/// Checks the size of a payload and frames it for JSON decoding.
pub fn frame_payload(payload: &str) -> (r: Result<FramedPayload, String>)
    ensures
        match payload_rejection(payload.len() as nat, payload@) {
            Some(m) => r matches Err(e) && e@ == m,
            None => r matches Ok(f) && f.text@ == trimmed(payload@) && f.batch == (
            trimmed(payload@)[0] == '['),
        },
{
    if payload.len() > MAX_INGEST_PAYLOAD_BYTES {
        let mut m = String::from_str("payload exceeds ");
        m.append(decimal_string(MAX_INGEST_PAYLOAD_BYTES as u64).as_str());
        m.append(" byte limit");
        return Err(m);
    }
    let chars = chars_of(payload);
    let t = trim_chars(chars.as_slice());
    if t.len() == 0 {
        return Err(String::from_str("empty payload"));
    }
    let batch = t[0] == '[';
    Ok(FramedPayload { text: string_of(t.as_slice()), batch })
}

/// The reason of the first invalid event of `events`, if any.
pub open spec fn first_invalid(events: Seq<Event>) -> Option<Seq<char>>
    decreases events.len(),
{
    if events.len() == 0 {
        None
    } else if validation_error(events[0]) is Some {
        validation_error(events[0])
    } else {
        first_invalid(events.drop_first())
    }
}

/// Why a decoded payload is refused as a whole, if it is.
pub open spec fn batch_rejection(events: Seq<Event>, batch: bool) -> Option<Seq<char>> {
    if batch && events.len() == 0 {
        Some("event batch must not be empty"@)
    } else if batch && events.len() > MAX_INGEST_BATCH_EVENTS {
        Some("event batch exceeds "@ + decimal(MAX_INGEST_BATCH_EVENTS as nat) + " event limit"@)
    } else {
        first_invalid(events)
    }
}

/// The store after `events` were recorded one after the other over `t`, the
/// `i`-th at time `times[i]`.
pub open spec fn ingested_all(
    s: StoreState,
    c: StorageConfig,
    t: Transport,
    events: Seq<Event>,
    times: Seq<u64>,
) -> StoreState
    decreases events.len(),
{
    if events.len() == 0 {
        s
    } else {
        ingested(
            ingested_all(s, c, t, events.drop_last(), times.drop_last()),
            c,
            t,
            events.last(),
            times.last(),
        )
    }
}

proof fn lemma_first_invalid_prefix(events: Seq<Event>, i: int)
    requires
        0 <= i <= events.len(),
        forall|j: int| 0 <= j < i ==> validation_error(#[trigger] events[j]) is None,
    ensures
        first_invalid(events) == first_invalid(events.skip(i)),
    decreases i,
{
    if i > 0 {
        assert(validation_error(events[0]) is None);
        lemma_first_invalid_prefix(events.drop_first(), i - 1);
        assert(events.drop_first().skip(i - 1) =~= events.skip(i));
    } else {
        assert(events.skip(0) =~= events);
    }
}

/// Law: a batch holding an invalid event is refused as a whole.
pub proof fn lemma_invalid_event_refuses_batch(events: Seq<Event>, batch: bool, k: int)
    requires
        0 <= k < events.len(),
        validation_error(events[k]) is Some,
    ensures
        batch_rejection(events, batch) is Some,
    decreases k,
{
    if validation_error(events[0]) is None {
        lemma_invalid_event_refuses_batch(events.drop_first(), false, k - 1);
    }
}

/// Records a decoded payload: a batch is refused as a whole when it is empty,
/// too long or holds an invalid event, and nothing is written then; otherwise
/// every event is recorded in order over the same transport.
pub fn ingest_events(store: &mut LruStorage, transport: Transport, events: Vec<Event>, batch: bool) -> (r:
    Result<Vec<StoredEvent>, String>)
    requires
        old(store).wf(),
        old(store)@.seq + events@.len() <= u64::MAX,
    ensures
        final(store).wf(),
        final(store).config() == old(store).config(),
        match batch_rejection(events@, batch) {
            Some(m) => r matches Err(e) && e@ == m && final(store)@ == old(store)@,
            None => r matches Ok(stored) && stored@.len() == events@.len() && (forall|i: int|
                0 <= i < stored@.len() ==> #[trigger] stored@[i] == (StoredEvent {
                    seq: (old(store)@.seq + i + 1) as u64,
                    received_at_ms: stored@[i].received_at_ms,
                    transport,
                    event: events@[i],
                })) && final(store)@ == ingested_all(
                old(store)@,
                old(store).config(),
                transport,
                events@,
                stored@.map_values(|s: StoredEvent| s.received_at_ms),
            ),
        },
{
    if batch && events.len() == 0 {
        return Err(String::from_str("event batch must not be empty"));
    }
    if batch && events.len() > MAX_INGEST_BATCH_EVENTS {
        let mut m = String::from_str("event batch exceeds ");
        m.append(decimal_string(MAX_INGEST_BATCH_EVENTS as u64).as_str());
        m.append(" event limit");
        return Err(m);
    }
    // Validate the whole payload before the first write.
    let n = events.len();
    let mut i: usize = 0;
    while i < n
        invariant
            n == events@.len(),
            0 <= i <= n,
            forall|j: int| 0 <= j < i ==> validation_error(#[trigger] events@[j]) is None,
            store.wf(),
            store@ == old(store)@,
            store.config() == old(store).config(),
            batch_rejection(events@, batch) == first_invalid(events@),
        decreases n - i,
    {
        match validated(&events[i]) {
            Err(m) => {
                proof {
                    lemma_first_invalid_prefix(events@, i as int);
                    assert(events@.skip(i as int)[0] == events@[i as int]);
                    assert(validation_error(events@[i as int]) == Some(m@));
                    assert(first_invalid(events@.skip(i as int)) == Some(m@));
                    assert(batch_rejection(events@, batch) == first_invalid(events@));
                }
                return Err(m);
            },
            Ok(()) => {},
        }
        i = i + 1;
    }
    proof {
        lemma_first_invalid_prefix(events@, n as int);
        assert(events@.skip(n as int).len() == 0);
    }
    let ghost s0 = store@;
    let ghost c = store.config();
    let mut stored: Vec<StoredEvent> = Vec::new();
    let mut k: usize = 0;
    assert(ingested_all(s0, c, transport, events@.take(0), Seq::<u64>::empty()) == s0);
    while k < n
        invariant
            n == events@.len(),
            0 <= k <= n,
            store.wf(),
            store.config() == c,
            s0.seq + n <= u64::MAX,
            store@.seq == s0.seq + k,
            forall|j: int| 0 <= j < n ==> validation_error(#[trigger] events@[j]) is None,
            stored@.len() == k,
            forall|j: int|
                0 <= j < k ==> #[trigger] stored@[j] == (StoredEvent {
                    seq: (s0.seq + j + 1) as u64,
                    received_at_ms: stored@[j].received_at_ms,
                    transport,
                    event: events@[j],
                }),
            store@ == ingested_all(
                s0,
                c,
                transport,
                events@.take(k as int),
                stored@.map_values(|s: StoredEvent| s.received_at_ms),
            ),
        decreases n - k,
    {
        let e = events[k].clone();
        let ghost before = store@;
        let ghost times = stored@.map_values(|s: StoredEvent| s.received_at_ms);
        assert(validation_error(events@[k as int]) is None);
        match store.ingest(transport, e) {
            Ok(se) => {
                stored.push(se);
                proof {
                    let nt = stored@.map_values(|s: StoredEvent| s.received_at_ms);
                    let ne = events@.take(k + 1);
                    assert(ne.drop_last() =~= events@.take(k as int));
                    assert(nt.drop_last() =~= times);
                    assert(nt.last() == se.received_at_ms);
                    assert(ne.last() == events@[k as int]);
                }
            },
            Err(_) => {
                // validated above: no event of the batch is refused here
                assert(false);
                return Err(String::from_str("unreachable"));
            },
        }
        k = k + 1;
    }
    assert(events@.take(n as int) =~= events@);
    Ok(stored)
}

/// The acknowledgement for a payload handled by TCP, WebSocket or UDP: the
/// sequence number of its last stored event, or the reason it was refused.
pub fn payload_ack(result: &Result<Vec<StoredEvent>, String>) -> (r: Ack)
    ensures
        match result {
            Ok(stored) => r.ok && r.error is None && r.seq == Some(
                if stored@.len() > 0 {
                    stored@.last().seq
                } else {
                    0u64
                },
            ),
            Err(e) => !r.ok && r.seq is None && r.error == Some(*e),
        },
{
    match result {
        Ok(stored) => {
            let seq = if stored.len() > 0 {
                stored[stored.len() - 1].seq
            } else {
                0
            };
            Ack::ok(seq)
        },
        Err(e) => Ack::err(e.clone()),
    }
}

/// One acknowledgement per stored event, in order (the HTTP answer).
pub fn event_acks(stored: &Vec<StoredEvent>) -> (r: Vec<Ack>)
    ensures
        r@.len() == stored@.len(),
        forall|i: int|
            0 <= i < r@.len() ==> (#[trigger] r@[i]).ok && r@[i].seq == Some(stored@[i].seq)
                && r@[i].error is None,
{
    let mut out: Vec<Ack> = Vec::new();
    let mut i: usize = 0;
    while i < stored.len()
        invariant
            0 <= i <= stored@.len(),
            out@.len() == i,
            forall|j: int|
                0 <= j < i ==> (#[trigger] out@[j]).ok && out@[j].seq == Some(stored@[j].seq)
                    && out@[j].error is None,
        decreases stored@.len() - i,
    {
        out.push(Ack::ok(stored[i].seq));
        i = i + 1;
    }
    out
}

} // verus!
