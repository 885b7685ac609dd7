# salsita

An incremental computation library, verified with Verus.

Queries are functions of the database. Each query applied to its arguments
has a memo: the stored output, the memos it read while it was evaluated, the
revision at which it was last verified and the revision at which its output
last changed. Setting an input starts a new revision. A query is evaluated
again only when its memo was never verified or one of the memos it read
changed after the memo was last verified; otherwise the memo is reused. When
a query is evaluated again and its output is stored under the identifier it
had before, the memo keeps its revision of last change (and the memos it read
before), so its dependents are not evaluated again either.

The database tells its event handler of every registered query type, stored
value and new memo, and of the start and end of every query and evaluation.
A handler may keep a record of what it was told; `PerfHandler` does, and its
counters are what that record adds up to. A query answered from a memo
verified at the current revision records its query scope and nothing else.

The type-erased evaluation of a query type (a function pointer to the
evaluation of that type) is the one part of the dispatch that is trusted
rather than proved: Verus has no function pointer types, and a trait object
whose method takes the snapshot would make the snapshot's type contain itself
in a non-positive position.

## Layout

- `src/lib.rs`: the database (`Db`) and the snapshot through which queries
  run (`Snapshot`), with the verification of memos against their
  dependencies and the laws that hold across queries.
- `src/memo.rs`: the memo table.
- `src/storage.rs`: interned storage of values of any type, and the transfer
  of values into a fresh storage.
- `src/query.rs`: the `Query` and `Input` traits and input identifiers.
- `src/query_ops.rs`: the registry of query types and their type-erased
  evaluation.
- `src/event.rs`, `src/metrics.rs`: events emitted by the database and the
  handlers that count and time them.
- `tests/`: behaviour on concrete databases, and the benchmark graphs run as
  tests.
- `app/`: the `salsita bench` command, which runs the benchmark graphs and
  prints their measurements as JSON.
