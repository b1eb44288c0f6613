# rtdb

Verified core of the RTDB vector-database tooling, written in Verus.

- `src/jepsen/` — Jepsen-style consistency testing: the operation and
  history model, the linearizability and serializability checkers,
  history analysis (latencies, throughput, concurrency, error counts),
  workloads, the fault injectors' bookkeeping (nemesis, partitions,
  chaos monkey) and the decisions of a test run.
- `src/migration/` — data migration between vector databases: record
  validation, the binary, CSV, JSONL and Parquet record formats, source
  and target clients' requests and responses, checkpoints, progress,
  transformation rules and the streaming strategy's decisions.
- `app/` — the program around the library: command-line handling, file
  and network I/O, threads, the floating-point parts, and carrying out the
  nemesis's firewall rules and signals.
- `tests/` — tests of the library on concrete values.

`verus` checks every function in `src/` against its `requires` and
`ensures`; calls into outside crates go through small wrappers whose
contracts state what the crates' sources and documentation say.
