# gpuflux

A runtime that decides, for each object a GPU stage needs, whether to move its bytes, recompute
them here or recompute them on a remote node.  It predicts what each action will cost, chooses by

    J(a) = E[T_a] + lambda * P(T_a > D) + mu * U_a

executes, measures, and learns from the result.

`src/` is the library, verified with Verus:

- `binary64/`: IEEE 754 double-precision arithmetic on bit patterns, specified by exact integers
  and one rounding.  Everything else computes with it, so the formulas of the contracts are those
  of the running program, bit for bit.
- `observation/`: statistics per bucket, the event log, their encoding, and the `redb` store.
- `prediction/`: cost model, history, online regression, deadline risk.
- `decision/`: policies, the course of one decision, and the engine.
- `executor/`: the paths as step machines, and their reports.
- `telemetry`, `contention`, `cli`, `study`: readings, load files, options, statistics.

What the proofs take on trust are the contracts of the calls that leave the library: those of
`redb` in `observation/store.rs` (open a database, make its tables, read, write, count, greatest
key), and those of the standard library for the clock (`lib.rs`), for UTF-8 (`observation/codec.rs`)
and for `String::push` (`text.rs`).  `error.rs` carries the error types of both without looking
into them.

`app/` holds what touches the machine: files, clocks, threads, devices, and the platform's
logarithm and exponential, whose values the library takes as arguments.
