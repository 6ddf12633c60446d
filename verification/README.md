# hla_rti

The decisions of an HLA 4 run-time infrastructure node, verified with Verus:
federations and their members, publication and subscription, object instances,
interactions, ownership, regions, time management, synchronization points, save
and restore, and the life of a session from its first frame to its clean-up.

## Layout

| Place              | What it holds                                                     |
|--------------------|-------------------------------------------------------------------|
| `src/node.rs`      | The node: federations, connection limits, counters.               |
| `src/sessions.rs`  | Opening, serving, closing, suspending and resuming a session.     |
| `src/dispatch/`    | One module for each group of services; `calls.rs` ties them.      |
| `src/dispatch/invariants.rs` | What every request keeps true.                          |
| `src/federation.rs`| The state of a federation and its invariant.                      |
| `src/time.rs`      | The lower bound on time stamps and the grants of advances.        |
| `src/routing.rs`   | Who receives a callback, and the callbacks themselves.            |
| `src/persistence.rs` | Snapshots of a federation, and the names of their files.        |
| `src/modules.rs`   | The text of object model modules.                                 |
| `src/logical_time.rs` | Time stamps as bit patterns of doubles, their order and sum.   |
| `src/tables.rs`, `src/names.rs` | Sets and maps with a mathematical view.              |
| `src/connections.rs` | Connections and suspended sessions, kept in `dashmap` maps.     |
| `tests/`           | Scenarios on the library.                                         |
| `app/`             | Sockets, tasks, clocks and files around the library.              |

## Reading the contracts

A service is a function on a federation whose contract names an *outcome*: the
federation afterwards, the response, and the callbacks in the order in which they
are sent. `dispatch::calls::call_outcome` puts all outcomes together for the whole
node. Public proof functions beside the services state what holds across calls.

What the node cannot decide by itself comes in as a value: the result of reading
object model modules and snapshot files (`dispatch::calls::Outside`) and the events
of a session (`sessions::SessionEvent`).
