use dev_mutate::{FileBreakdown, MutateResult, MutateRun};

fn make_result(killed: u64, survived: u64, timeout: u64) -> MutateResult {
    MutateResult {
        name: "x".into(),
        version: "0.1.0".into(),
        mutants_total: killed + survived + timeout,
        mutants_killed: killed,
        mutants_survived: survived,
        mutants_timeout: timeout,
        survivors: Vec::new(),
        files: Vec::new(),
    }
}

fn pct(ratio: Option<(u64, u64)>) -> f64 {
    match ratio {
        Some((k, c)) => (k as f64 / c as f64) * 100.0,
        None => 0.0,
    }
}

#[test]
fn run_builds() {
    let _ = MutateRun::new("x", "0.1.0");
}

#[test]
fn kill_pct_basic() {
    let r = make_result(80, 20, 0);
    assert!((pct(r.kill_ratio()) - 80.0).abs() < 0.0001);
}

#[test]
fn smoke_kill_pct_excludes_timeouts() {
    let r = make_result(80, 20, 20);
    assert!((pct(r.kill_ratio()) - 80.0).abs() < 0.0001);
}

#[test]
fn file_breakdown_kill_pct_excludes_timeouts() {
    let f = FileBreakdown {
        file: "x.rs".into(),
        killed: 7,
        survived: 3,
        timeout: 5,
    };
    assert!((pct(f.kill_ratio()) - 70.0).abs() < 1e-9);
}
