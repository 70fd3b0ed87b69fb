# distributed_cluster

A small distributed search cluster, with its decision logic written in Verus
and proved against its contracts.

Each node gossips membership over UDP (SWIM style), spreads a partitioned
key/value store over the live nodes (256 partitions, a primary and backups
per partition, placed on a ring of node ids in string order), runs a task
queue whose workers claim tasks under 30-second leases, and serves a search
over an inverted index of the stored books.

## Layout

- `src/` — the verified library.
  - `membership/` — the member table, the gossip state machine (what each
    message and each failure-detector tick does to the view, and what to
    send), and the laws of the protocol.
  - `storage/` — partitioning and placement, the local side of the
    distributed map (where writes go, how reads are answered), the storage
    endpoints' replies, and the laws of placement.
  - `executor/` — the task table, the queue's task life cycle, the handler
    registry, one round of a worker's decisions, the task endpoints'
    replies, and the laws of leases.
  - `search/` — tokenizing documents and queries, scoring and ranking,
    paging of search replies, and their laws.
  - `ingestion/` — adding a book to a postings list.
  - `ui.rs`, `cli.rs` — the dashboard's upstream URLs (the node to ask, and
    the URL-encoded search it forwards), the node's arguments.
  - `sys.rs` — the calls into std and outside crates whose contracts are
    trusted; `keyed.rs`, `text.rs` — a keyed table and string order.
- `tests/` — tests of the library.
- `app/` — the node program: sockets, HTTP, timers, serialization, and the
  dashboard proxy (`dashboard` as first argument).
