# meta-agents-server

A server that ingests AI-agent introspection, metacognition, task progress and
lessons over HTTP, WebSocket, TCP and UDP, keeps them in bounded in-memory
LRU stores, and renders a web UI of them.

## Layout

- `src/` — the verified library (Verus):
  - `model.rs` the event schema and read models;
  - `recency.rs` a bounded recency list over `lru::LruCache`;
  - `storage.rs` the store: its abstract state, the invariant every operation
    keeps, ingestion and the queries;
  - `state.rs` payload limits and atomic batch ingestion;
  - `framing.rs` the size-bounded line framing of the TCP transport;
  - `text.rs`, `sort.rs` string and ordering helpers with their specifications;
  - `ui.rs`, `api.rs` what the pages and the REST API compute from the store;
  - `laws.rs` properties that span several operations.
- `app/` — the executable: command line, sockets, JSON encoding, HTML pages.
- `tests/` — tests of the library.
