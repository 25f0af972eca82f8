# dagger

A library for running workflows: directed acyclic graphs of actions, agents that talk over
channels, and the bookkeeping around both (caches, limits, metrics, alerts, retries,
snapshots). Its logic is written in Verus: what each function returns or changes is stated in
its contract and proved.

## Layout

- `src/` is the library.
  - `text`, `string_map`, `dash_table`, `sums`, `clock`, `duration`, `ids`, `double`, `value`,
    `schema`, `graph`, `compression`: texts, tables, times, JSON values, schemas, graphs and
    packed bytes, on which the rest is built.
  - `errors`, `builders`, `limits`, `memory`, `concurrency`, `performance`, `monitoring`:
    errors, settings, and what is counted, bounded, cached, locked and watched.
  - `dag_flow/`: workflows, their nodes and settings, the cache of results, planning, the
    execution of nodes one by one and side by side, branches, trees of snapshots, drawings.
  - `coord/`: the coordinator of a parallel execution, its events, commands and hooks.
  - `pubsub/`, `pubsubagent/`: channels, messages and agents.
  - `storage/`: runs, nodes and artifacts as rows of a database.
- `tests/` holds the tests.
- `app/` is ordinary Rust around the library: tasks, locks, channels, databases, serialization,
  floating point, and the traits that users implement.

## Conventions

- Floating point numbers are held as bit patterns (`double::Double`) that can be compared; what
  is computed with them is computed in `app/`.
- The time and random numbers are arguments. Functions that read them themselves state what
  holds whatever was read.
- What is taken from other crates is stated at the wrapper that calls them. Each such wrapper
  is marked `external_body` and says what it claims of the call.
- Laws that relate several functions are public proof functions next to the functions that
  they speak of.
