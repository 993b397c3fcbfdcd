# Estimated-wait admission

An opt-in admission guard for an inference gateway. It estimates how long each
worker would make a request wait, from the worker's own load reports and from
what was dispatched to it since, and refuses a request only if every eligible
worker of the pool is at or above its wait budget.

- `src/` is the verified library: double-precision arithmetic on bit patterns,
  the wait formula, configuration and validation, the estimate made of a load
  report, and the ledger of polls, credits and verdicts. `src/formula_laws.rs`,
  `src/error_laws.rs` and `src/ledger_laws.rs` state what holds of them.
- `tests/` runs the library on concrete values.
- `app/` is the guard in a gateway: shared behind a mutex, fed by the clock,
  configured through serde, exported to the metrics recorder, and answering over
  HTTP.
