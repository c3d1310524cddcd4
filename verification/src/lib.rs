//! Mutation testing results for Rust crates.
//!
//! `cargo mutants` makes small deliberate changes to a crate and runs its
//! tests against each. A mutant the tests catch is *killed*; one they miss
//! *survives*. This library holds the run configuration and the argument
//! list it becomes, decides each step of a run, parses the tool's JSON
//! record lines, tallies them into a `MutateResult` (survivors sorted by
//! `(file, line)`, a per-file breakdown sorted by file), computes kill rates
//! as exact fractions (`killed / (killed + survived)`, timeouts excluded),
//! finds the weakest files and reclassifies allow-listed survivors.
pub mod config;
pub mod laws;
pub mod order;
pub mod outcomes;
pub mod report;
pub mod runner;
pub mod text;

pub use config::MutateRun;
pub use outcomes::{outcome_from_value, tally_outcomes, MutantRecord, Outcome, OutcomeValue};
pub use report::{check_name, FileBreakdown, MutateError, MutateResult, SurvivingMutant};
pub use runner::{ProcessOutput, RunAction, RunEvent};
pub use text::{decimal_string, record_lines};
