# undine

A scenario framework for benchmarks and failure tests, with its decision
logic verified by Verus.

- `src/` is the verified library: the typed-slot context store, parameters
  read from a `[params]` TOML table and run suites read from `[[runs]]`
  tables, metric aggregation and latency statistics (order statistics by the
  `ceil(p * n) - 1` rule), the step policies, how the children of a parallel
  block combine, and the schedule that a scenario run follows (hooks before
  and after each step, first failure stops the run).
- `app/` holds what runs around it: the async closures of steps and hooks,
  the loop that awaits each scheduled action and reports its outcome, the
  wait-all combinator, run timing and the floating-point run rate, and file
  reading.
- `tests/` exercises the library on concrete values.
