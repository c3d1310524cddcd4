use std::time::Duration;

use dev_mutate::{
    decimal_string, outcome_from_value, record_lines, tally_outcomes, MutantRecord, MutateError,
    MutateRun, Outcome, OutcomeValue, ProcessOutput, RunAction, RunEvent,
};

fn strings(v: &[String]) -> Vec<&str> {
    v.iter().map(|s| s.as_str()).collect()
}

fn rec(scenario: &str, file: &str, line: u32, description: &str, outcome: &str) -> Option<MutantRecord> {
    Some(MutantRecord {
        scenario: scenario.into(),
        file: file.into(),
        line,
        description: description.into(),
        function: None,
        outcome: OutcomeValue::Plain(outcome.into()),
    })
}

#[test]
fn record_lines_trim_and_skip_blank_lines() {
    let text = "  a \r\n\n\u{3000}b\u{00A0}\n \t \nc";
    assert_eq!(strings(&record_lines(text)), vec!["a", "b", "c"]);
    assert!(record_lines("").is_empty());
    assert!(record_lines("\n\n  \n").is_empty());
}

#[test]
fn decimal_strings() {
    assert_eq!(decimal_string(0), "0");
    assert_eq!(decimal_string(7), "7");
    assert_eq!(decimal_string(120), "120");
    assert_eq!(decimal_string(u64::MAX), "18446744073709551615");
}

#[test]
fn mutants_args_follow_configuration() {
    let run = MutateRun::new("x", "0.1.0");
    assert_eq!(strings(&run.mutants_args()), vec!["mutants", "--json", "--no-shuffle"]);
    let run = MutateRun::new("x", "0.1.0")
        .workspace()
        .jobs(12)
        .timeout(120, 0)
        .exclude_re("^gen/")
        .exclude_re("^old/")
        .file("src/lib.rs");
    assert_eq!(
        strings(&run.mutants_args()),
        vec![
            "mutants", "--json", "--no-shuffle", "--workspace", "--jobs", "12", "--timeout",
            "120", "--exclude-re", "^gen/", "--exclude-re", "^old/", "--file", "src/lib.rs"
        ]
    );
}

#[test]
fn sub_second_timeout_is_one_second() {
    let half = Duration::from_millis(500);
    let run = MutateRun::new("x", "0.1.0").timeout(half.as_secs(), half.subsec_nanos());
    assert_eq!(strings(&run.mutants_args()), vec!["mutants", "--json", "--no-shuffle", "--timeout", "1"]);
    assert_eq!(run.timeout_value(), Some((0, 500_000_000)));
    let run = MutateRun::new("x", "0.1.0").timeout(9, 0).timeout(2, 500_000_000);
    assert_eq!(run.timeout_value(), Some((2, 500_000_000)));
    assert_eq!(strings(&run.mutants_args()), vec!["mutants", "--json", "--no-shuffle", "--timeout", "2"]);
    assert_eq!(MutateRun::new("x", "0.1.0").timeout_value(), None);
}

#[test]
fn builder_records_directory_and_allow_list() {
    let run = MutateRun::new("x", "0.1.0").in_dir("/tmp/crate").allow("a").allow_all(&["b", "c"]);
    assert_eq!(run.workdir_path(), Some("/tmp/crate"));
    assert_eq!(strings(run.allow_list_view()), vec!["a", "b", "c"]);
    assert_eq!(MutateRun::new("x", "0.1.0").workdir_path(), None);
}

#[test]
fn outcome_classification() {
    let plain = |s: &str| outcome_from_value(&OutcomeValue::Plain(s.into()));
    assert_eq!(plain("Caught"), Outcome::Caught);
    assert_eq!(plain("CAUGHT"), Outcome::Caught);
    assert_eq!(plain("missed"), Outcome::Missed);
    assert_eq!(plain("Timeout"), Outcome::Timeout);
    assert_eq!(plain("Failure"), Outcome::Other);
    assert_eq!(plain(""), Outcome::Other);
    let tagged = |keys: &[&str]| {
        outcome_from_value(&OutcomeValue::Tagged(keys.iter().map(|k| k.to_string()).collect()))
    };
    assert_eq!(tagged(&["Missed", "Caught"]), Outcome::Missed);
    assert_eq!(tagged(&[]), Outcome::Other);
    assert_eq!(outcome_from_value(&OutcomeValue::Other), Outcome::Other);
}

#[test]
fn scenario_match_ignores_ascii_case_only() {
    let records = vec![
        rec("MUTANT", "a.rs", 1, "x", "Caught"),
        rec("mutants", "a.rs", 2, "x", "Caught"),
        rec("Mutant", "a.rs", 3, "x", "Missed"),
        None,
    ];
    let r = tally_outcomes(records, "s", "1");
    assert_eq!(r.mutants_total, 2);
    assert_eq!(r.mutants_killed, 1);
    assert_eq!(r.mutants_survived, 1);
}

#[test]
fn breakdown_sorted_unique_and_consistent() {
    let records = vec![
        rec("Mutant", "b.rs", 1, "p", "Caught"),
        rec("Mutant", "a.rs", 1, "q", "Missed"),
        rec("Mutant", "b.rs", 2, "r", "Timeout"),
        rec("Mutant", "c.rs", 1, "s", "Unviable"),
        rec("Mutant", "", 9, "t", "Missed"),
        rec("Mutant", "b.rs", 3, "u", "Missed"),
    ];
    let r = tally_outcomes(records, "s", "1");
    let files: Vec<(&str, u64, u64, u64)> =
        r.files.iter().map(|f| (f.file.as_str(), f.killed, f.survived, f.timeout)).collect();
    assert_eq!(files, vec![("<unknown>", 0, 1, 0), ("a.rs", 0, 1, 0), ("b.rs", 1, 1, 1)]);
    assert_eq!(r.mutants_total, 6);
    assert_eq!((r.mutants_killed, r.mutants_survived, r.mutants_timeout), (1, 3, 1));
    let survivors: Vec<(&str, u32)> = r.survivors.iter().map(|s| (s.file.as_str(), s.line)).collect();
    assert_eq!(survivors, vec![("<unknown>", 9), ("a.rs", 1), ("b.rs", 3)]);
}

#[test]
fn survivor_sort_is_stable_and_by_code_point() {
    let records = vec![
        rec("Mutant", "a.rs", 5, "first", "Missed"),
        rec("Mutant", "é.rs", 1, "accent", "Missed"),
        rec("Mutant", "Z.rs", 1, "upper", "Missed"),
        rec("Mutant", "a.rs", 5, "second", "Missed"),
        rec("Mutant", "a.rs", 2, "earlier line", "Missed"),
    ];
    let r = tally_outcomes(records, "s", "1");
    let d: Vec<&str> = r.survivors.iter().map(|s| s.description.as_str()).collect();
    assert_eq!(d, vec!["upper", "earlier line", "first", "second", "accent"]);
}

#[test]
fn run_steps() {
    let run = MutateRun::new("subject", "1.0").in_dir("work").allow("x");
    assert!(matches!(run.next_action(RunEvent::Started), RunAction::ProbeTool));
    assert!(matches!(
        run.next_action(RunEvent::ToolProbed(false)),
        RunAction::Finish(Err(MutateError::ToolNotInstalled))
    ));
    match run.next_action(RunEvent::ToolProbed(true)) {
        RunAction::Launch { args, dir } => {
            assert_eq!(strings(&args), vec!["mutants", "--json", "--no-shuffle"]);
            assert_eq!(dir.as_deref(), Some("work"));
        }
        _ => panic!("expected a launch"),
    }
    match run.next_action(RunEvent::Exited(Err("no cargo".into()))) {
        RunAction::Finish(Err(MutateError::SubprocessFailed(m))) => assert_eq!(m, "no cargo"),
        _ => panic!("expected a failure"),
    }
    let out = |success: bool, stdout: &str| ProcessOutput {
        success,
        stdout: stdout.into(),
        stderr: "stderr text".into(),
    };
    match run.next_action(RunEvent::Exited(Ok(out(false, " \n\t")))) {
        RunAction::Finish(Err(MutateError::SubprocessFailed(m))) => assert_eq!(m, "stderr text"),
        _ => panic!("expected a failure"),
    }
    match run.next_action(RunEvent::Exited(Ok(out(true, " \n")))) {
        RunAction::DecodeLines(lines) => assert!(lines.is_empty()),
        _ => panic!("expected decoding"),
    }
    match run.next_action(RunEvent::Exited(Ok(out(false, "line one\n  line two  \n")))) {
        RunAction::DecodeLines(lines) => assert_eq!(strings(&lines), vec!["line one", "line two"]),
        _ => panic!("expected decoding"),
    }
    let decoded = vec![
        rec("Mutant", "a.rs", 1, "x", "Missed"),
        rec("Mutant", "a.rs", 2, "y", "Missed"),
        rec("Mutant", "a.rs", 3, "z", "Caught"),
    ];
    match run.next_action(RunEvent::Decoded(decoded)) {
        RunAction::Finish(Ok(r)) => {
            assert_eq!(r.name, "subject");
            assert_eq!(r.version, "1.0");
            assert_eq!(r.mutants_killed, 2);
            assert_eq!(r.mutants_survived, 1);
            assert_eq!(r.survivors.len(), 1);
            assert_eq!(r.survivors[0].description, "y");
            // The per-file breakdown is not reclassified.
            assert_eq!(r.files[0].survived, 2);
        }
        _ => panic!("expected a result"),
    }
}

#[test]
fn error_messages() {
    assert_eq!(
        MutateError::ToolNotInstalled.message(),
        "cargo-mutants is not installed; run `cargo install cargo-mutants`"
    );
    assert_eq!(MutateError::SubprocessFailed("boom".into()).message(), "cargo mutants failed: boom");
    assert_eq!(
        MutateError::ParseError("bad".into()).message(),
        "could not parse cargo mutants output: bad"
    );
}
