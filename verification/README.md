# dev-mutate

Mutation testing results for Rust crates, built around `cargo mutants`.

- `src/` — the verified library (Verus):
  - `config.rs`: `MutateRun`, the run configuration, and the `cargo` argument list it becomes.
  - `runner.rs`: the step function of a run (probe the tool, launch, decode, finish).
  - `outcomes.rs`: record classification and the tally into a `MutateResult`.
  - `report.rs`: result types, exact kill ratios, weakest files, allow-list reclassification.
  - `order.rs`: what a stable sort produces; `text.rs`: character-level text operations.
  - `laws.rs`: properties of the library as a whole.
- `app/` — process spawning, serde wire types, floating-point kill rates and
  thresholds, and the `dev_report` integration (`MutateProducer`).
- `tests/` — tests of the library.
