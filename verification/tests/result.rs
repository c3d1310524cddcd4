use std::time::Duration;

use dev_mutate::{FileBreakdown, MutateResult, MutateRun, SurvivingMutant};

fn sample(killed: u64, survived: u64, timeout: u64) -> MutateResult {
    MutateResult {
        name: "x".into(),
        version: "0.1.0".into(),
        mutants_total: killed + survived + timeout,
        mutants_killed: killed,
        mutants_survived: survived,
        mutants_timeout: timeout,
        survivors: Vec::new(),
        files: Vec::new(),
    }
}

fn pct(ratio: Option<(u64, u64)>) -> f64 {
    match ratio {
        Some((k, c)) => (k as f64 / c as f64) * 100.0,
        None => 0.0,
    }
}

#[test]
fn lib_kill_pct_excludes_timeouts() {
    // 80 / (80 + 20) = 80%, with 10 timeouts not counted.
    let r = sample(80, 20, 10);
    assert_eq!(r.kill_ratio(), Some((80, 100)));
    assert!((pct(r.kill_ratio()) - 80.0).abs() < 1e-9);
}

#[test]
fn kill_pct_zero_when_nothing_counted() {
    let r = sample(0, 0, 5);
    assert_eq!(r.kill_ratio(), None);
    assert_eq!(pct(r.kill_ratio()), 0.0);
}

#[test]
fn weakest_files_sorts_ascending_by_kill_pct() {
    let r = MutateResult {
        name: "x".into(),
        version: "0.1.0".into(),
        mutants_total: 0,
        mutants_killed: 0,
        mutants_survived: 0,
        mutants_timeout: 0,
        survivors: Vec::new(),
        files: vec![
            FileBreakdown {
                file: "a.rs".into(),
                killed: 9,
                survived: 1,
                timeout: 0,
            },
            FileBreakdown {
                file: "b.rs".into(),
                killed: 5,
                survived: 5,
                timeout: 0,
            },
            FileBreakdown {
                file: "c.rs".into(),
                killed: 7,
                survived: 3,
                timeout: 0,
            },
        ],
    };
    let weakest = r.weakest_files(2);
    assert_eq!(weakest.len(), 2);
    assert_eq!(weakest[0].file, "b.rs"); // 50%
    assert_eq!(weakest[1].file, "c.rs"); // 70%
}

#[test]
fn file_breakdown_kill_pct() {
    let f = FileBreakdown {
        file: "x".into(),
        killed: 7,
        survived: 3,
        timeout: 0,
    };
    assert!((pct(f.kill_ratio()) - 70.0).abs() < 1e-9);
}

#[test]
fn builder_chain_compiles() {
    let t = Duration::from_secs(120);
    let r = MutateRun::new("x", "0.1.0")
        .workspace()
        .jobs(4)
        .timeout(t.as_secs(), t.subsec_nanos())
        .exclude_re(r"^src/generated/")
        .file("src/lib.rs")
        .allow("replace + with -")
        .allow_all(&["a", "b"]);
    assert_eq!(r.subject(), "x");
    assert_eq!(r.subject_version(), "0.1.0");
    assert!(r.workspace_flag());
    assert_eq!(r.jobs_value(), Some(4));
    assert_eq!(r.exclude_re_view().len(), 1);
    assert_eq!(r.file_filters_view().len(), 1);
    assert_eq!(r.allow_list_view().len(), 3);
}

#[test]
fn weakest_files_keeps_ties_in_order_and_treats_empty_as_zero() {
    let mk = |file: &str, killed: u64, survived: u64, timeout: u64| FileBreakdown {
        file: file.into(),
        killed,
        survived,
        timeout,
    };
    let r = MutateResult {
        files: vec![
            mk("full.rs", 4, 0, 0),
            mk("half1.rs", 1, 1, 0),
            mk("none.rs", 0, 0, 7),
            mk("half2.rs", 3, 3, 9),
            mk("zero.rs", 0, 4, 0),
        ],
        ..sample(0, 0, 0)
    };
    let all = r.weakest_files(10);
    let names: Vec<&str> = all.iter().map(|f| f.file.as_str()).collect();
    // "none.rs" counted nothing (rate 0) and comes before "zero.rs" (0 of 4), as in `files`.
    assert_eq!(names, vec!["none.rs", "zero.rs", "half1.rs", "half2.rs", "full.rs"]);
    assert_eq!(r.weakest_files(0).len(), 0);
}

#[test]
fn allow_list_reclassifies_survivors_as_killed() {
    let surv = |file: &str, line: u32, d: &str| SurvivingMutant {
        file: file.into(),
        line,
        description: d.into(),
        function: None,
    };
    let mut r = sample(6, 3, 1);
    r.survivors = vec![surv("a.rs", 1, "x"), surv("a.rs", 2, "y"), surv("b.rs", 1, "x")];
    let r = r.reclassify_allowed(&["x".to_string()]);
    assert_eq!(r.mutants_killed, 8);
    assert_eq!(r.mutants_survived, 1);
    assert_eq!(r.mutants_timeout, 1);
    assert_eq!(r.survivors.len(), 1);
    assert_eq!(r.survivors[0].description, "y");
    // A second application changes nothing.
    let again = r.reclassify_allowed(&["x".to_string()]);
    assert_eq!(again.mutants_killed, 8);
    assert_eq!(again.mutants_survived, 1);
}

#[test]
fn allow_list_saturates() {
    let mut r = sample(u64::MAX, 0, 0);
    r.survivors = vec![SurvivingMutant {
        file: "a.rs".into(),
        line: 1,
        description: "x".into(),
        function: Some("f".into()),
    }];
    let r = r.reclassify_allowed(&["x".to_string()]);
    assert_eq!(r.mutants_killed, u64::MAX);
    assert_eq!(r.mutants_survived, 0);
    assert!(r.survivors.is_empty());
}

#[test]
fn empty_allow_list_changes_nothing() {
    let mut r = sample(1, 1, 0);
    r.survivors = vec![SurvivingMutant {
        file: "a.rs".into(),
        line: 1,
        description: "x".into(),
        function: None,
    }];
    let r = r.reclassify_allowed(&[]);
    assert_eq!(r.mutants_killed, 1);
    assert_eq!(r.mutants_survived, 1);
    assert_eq!(r.survivors.len(), 1);
}

#[test]
fn first_survivor_attached_as_location() {
    let mut r = sample(80, 20, 0);
    assert_eq!(r.first_survivor_location(), None);
    r.survivors = vec![
        SurvivingMutant {
            file: "src/lib.rs".into(),
            line: 42,
            description: "replace + with -".into(),
            function: Some("add".into()),
        },
        SurvivingMutant {
            file: "src/z.rs".into(),
            line: 1,
            description: "y".into(),
            function: None,
        },
    ];
    assert_eq!(r.first_survivor_location(), Some(("src/lib.rs", 42)));
    r.survivors[0].line = 0;
    assert_eq!(r.first_survivor_location(), Some(("src/lib.rs", 1)));
    assert_eq!(dev_mutate::check_name(&r.name), "mutate::x");
}

#[test]
fn weakest_files_shorter_answer_is_prefix() {
    let mk = |file: &str, killed: u64, survived: u64| FileBreakdown {
        file: file.into(),
        killed,
        survived,
        timeout: 0,
    };
    let r = MutateResult {
        files: vec![mk("a", 3, 1), mk("b", 1, 3), mk("c", 2, 2), mk("d", 1, 3), mk("e", 0, 0)],
        ..sample(0, 0, 0)
    };
    let long: Vec<&str> = r.weakest_files(5).iter().map(|f| f.file.as_str()).collect();
    assert_eq!(long, vec!["e", "b", "d", "c", "a"]);
    for n in 0..=5 {
        let short: Vec<&str> = r.weakest_files(n).iter().map(|f| f.file.as_str()).collect();
        assert_eq!(short, long[..n].to_vec());
    }
}
