# clustodian

A verified control plane for replicated, partitioned resources. A controller
places the replicas of every partition on live instances and hands out state
transitions; participants carry them out; observers read the outcome. All of
them meet in an etcd namespace.

## Layout

- `src/` is the library. It performs no I/O. Every operation that talks to the
  store is a small machine: it hands out an action (read a key, commit a
  transaction, pause) and is given the outcome. Each machine has a model, and
  each step of it is proved to follow the model.
  - `model/`: identities, states, state models, ideal and observed placements.
  - `coordination/etcd/`: keys, entries, guarded transactions, snapshots,
    watches, the transition queue, registration, and publication behind fences.
    `commit_laws.rs` says what committed transactions leave in the store.
  - `election/`: candidates, leases, and the handover of leadership.
  - `controller/`: decoding of metadata, planning, message generation,
    selection and throttling, reconciliation, and the leader's loop.
  - `participant/`: handling of messages, the completion frontier, keeping a
    session alive, and the participant's loop.
  - `observe/` and `routing.rs`: snapshots for readers, and who serves what.
  - `admin/` and `cluster/`: validated configuration and what is written for it.
  - `ordered.rs`, `lists.rs`, `text.rs`, `time.rs`: maps and sets with a
    documented order, sorting, text, and durations.
- `tests/` runs the library on concrete values, and its machines on a store held
  in memory (`tests/store.rs`).
- `app/` connects the machines to etcd, timers, signals, JSON, and application
  callbacks.

## What is proved

Contracts are stated over models (`@`). Besides the contracts, the public proof
functions state what holds across operations: leadership is exclusive and first
come, first served; outputs are published only behind the fence of the input
that they were planned with; a replaced session is refused; a message is
completed once; dispatched transitions stay within every quota; observed input
is never forgotten.

The placement algorithms themselves are supplied by the application through
`Rebalancer` in `app/`: planning asks for an assignment or a placement, and goes
on with the answer.
