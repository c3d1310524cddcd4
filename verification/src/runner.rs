//! The decisions of a run, as a step function: given what the last piece of
//! outside work reported, what to do next. The caller performs each action
//! (probe the tool, launch `cargo mutants`, decode the record lines) and
//! reports back, until the run finishes.
use vstd::prelude::*;

use crate::config::{mutants_args_of, opt_view, MutateRun};
use crate::outcomes::{is_tally_of, tally_outcomes, MutantRecord};
use crate::report::{reclassified, MutateError, MutateResult};
use crate::text::{chars_of, record_lines, record_lines_of, string_views, trim, trim_bounds};

verus! {

/// What a finished `cargo mutants` process left behind.
#[derive(Debug, Clone)]
pub struct ProcessOutput {
    /// The process exited with status 0.
    pub success: bool,
    /// Its standard output, as text.
    pub stdout: String,
    /// Its standard error, as text.
    pub stderr: String,
}

/// What the outside work of the previous step reported.
#[derive(Debug)]
pub enum RunEvent {
    /// The run begins.
    Started,
    /// `cargo mutants --version` ran and exited successfully (`true`), or
    /// could not run or failed (`false`).
    ToolProbed(bool),
    /// `cargo mutants` ran to completion, or could not be spawned (the
    /// error's message).
    Exited(Result<ProcessOutput, String>),
    /// The record lines, each decoded into a record (`None` where a line is
    /// not one).
    Decoded(Vec<Option<MutantRecord>>),
}

/// What to do next.
#[derive(Debug)]
pub enum RunAction {
    /// Run `cargo mutants --version` to see whether the tool is there.
    ProbeTool,
    /// Run `cargo` with these arguments, in this directory when given.
    Launch { args: Vec<String>, dir: Option<String> },
    /// Decode each of these lines as a JSON record.
    DecodeLines(Vec<String>),
    /// The run is over.
    Finish(Result<MutateResult, MutateError>),
}

impl MutateRun {
    /// The next action of a run after `event`.
    ///
    /// A missing tool finishes with `ToolNotInstalled`; a process that could
    /// not be spawned, or that failed with blank output, finishes with
    /// `SubprocessFailed`. Otherwise the output is parsed whatever the exit
    /// status (the tool exits non-zero when mutants survive), and the
    /// decoded records are tallied and their allow-listed survivors
    /// reclassified as killed.
    pub fn next_action(&self, event: RunEvent) -> (a: RunAction)
        ensures
            match event {
                RunEvent::Started => a is ProbeTool,
                RunEvent::ToolProbed(ok) => if ok {
                    a matches RunAction::Launch { args, dir } && string_views(args@)
                        == mutants_args_of(self@) && opt_view(dir) == self@.workdir
                } else {
                    a == RunAction::Finish(Err(MutateError::ToolNotInstalled))
                },
                RunEvent::Exited(Err(msg)) => a == RunAction::Finish(
                    Err(MutateError::SubprocessFailed(msg)),
                ),
                RunEvent::Exited(Ok(out)) => if trim(out.stdout@).len() == 0 && !out.success {
                    a == RunAction::Finish(Err(MutateError::SubprocessFailed(out.stderr)))
                } else {
                    a matches RunAction::DecodeLines(lines) && string_views(lines@)
                        == record_lines_of(out.stdout@)
                },
                RunEvent::Decoded(recs) => a matches RunAction::Finish(Ok(r)) && exists|
                    t: MutateResult,
                |
                    #[trigger] is_tally_of(t, recs@, self@.name, self@.version) && reclassified(
                        r,
                        t,
                        self@.allow_list,
                    ),
            },
    {
        match event {
            RunEvent::Started => RunAction::ProbeTool,
            RunEvent::ToolProbed(ok) => {
                if ok {
                    let dir = match self.workdir_path() {
                        Some(d) => Some(d.to_owned()),
                        None => None,
                    };
                    RunAction::Launch { args: self.mutants_args(), dir }
                } else {
                    RunAction::Finish(Err(MutateError::ToolNotInstalled))
                }
            },
            RunEvent::Exited(Err(msg)) => RunAction::Finish(Err(MutateError::SubprocessFailed(msg))),
            RunEvent::Exited(Ok(out)) => {
                let chars = chars_of(out.stdout.as_str());
                let (from, to) = trim_bounds(&chars, 0, chars.len());
                assert(chars@.subrange(0, chars@.len() as int) =~= chars@);
                if from == to && !out.success {
                    RunAction::Finish(Err(MutateError::SubprocessFailed(out.stderr)))
                } else {
                    RunAction::DecodeLines(record_lines(out.stdout.as_str()))
                }
            },
            RunEvent::Decoded(recs) => {
                let t = tally_outcomes(recs, self.subject(), self.subject_version());
                let r = t.reclassify_allowed(self.allow_list_view());
                RunAction::Finish(Ok(r))
            },
        }
    }
}

} // verus!
