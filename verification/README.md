# raft

The Raft consensus protocol: leader election with pre-vote, log replication
with pipelining, membership changes, snapshots, leadership transfer and
verification of leadership. The rules of the protocol are executable Rust whose
contracts are proved by Verus; threads, timers, sockets and files are kept
outside, around them.

## Layout

| Where | What |
| --- | --- |
| `src/raft.rs`, `state.rs` | the state of a node and the steps that change it |
| `src/vote.rs`, `election.rs` | votes, pre-votes, candidacies |
| `src/append.rs`, `apply.rs` | taking entries from a leader, handing committed ones to the state machine |
| `src/leader.rs`, `leadership.rs`, `replication.rs`, `commitment.rs` | what a leader does |
| `src/install.rs`, `snapshot.rs`, `file_snapshot.rs`, `inmem_snapshot.rs`, `crc64.rs` | snapshots |
| `src/log.rs`, `stable.rs`, `inmem_store.rs`, `log_cache.rs` | stores |
| `src/transport.rs`, `rpc.rs`, `net_transport.rs`, `inmem_transport.rs` | messages, how they are answered, how they travel |
| `src/api.rs`, `fsm.rs`, `future.rs`, `observer.rs` | what an application sees |
| `src/quorum.rs`, `safety.rs` | majorities meet; committed entries are not lost |
| `app/` | the asynchronous node: the loops that wait for events, ask the library what to do, and do it |
| `tests/` | tests, among them a cluster in one thread |

## Reading the contracts

A node is described by `NodeView` in `src/raft.rs`. A step of the protocol is a
method whose `ensures` gives the view afterwards as a spec function of the view
before, and says on which inputs each answer comes. Stores and state machines
are traits; what their methods promise stands in the trait, and what a step does
with a store that fails is stated in terms of what that store answered.

The functions named `law_...` state what holds across steps: that nobody votes
twice in a term, that logs which share an entry share everything before it, that
the commit index never goes back, that a later leader holds what was committed.

Calls into other crates stand behind small functions marked `external_body`;
the comment above each says which function it calls and what is believed of it.
