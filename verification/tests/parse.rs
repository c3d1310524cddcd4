use dev_mutate::{record_lines, tally_outcomes, MutantRecord, MutateResult, OutcomeValue};
use serde_json::Value;

/// Decodes one record line the way the record's wire shape does: missing
/// fields default; a line that is not a JSON object, or a field of the wrong
/// type, is no record.
fn decode(line: &str) -> Option<MutantRecord> {
    let v: Value = serde_json::from_str(line).ok()?;
    let obj = v.as_object()?;
    fn text(o: &serde_json::Map<String, Value>, k: &str) -> Option<String> {
        match o.get(k) {
            None => Some(String::new()),
            Some(Value::String(s)) => Some(s.clone()),
            Some(_) => None,
        }
    }
    let empty = serde_json::Map::new();
    let mutant = match obj.get("mutant") {
        None => &empty,
        Some(Value::Object(m)) => m,
        Some(_) => return None,
    };
    let line = match mutant.get("line") {
        None => 0,
        Some(l) => u32::try_from(l.as_u64()?).ok()?,
    };
    let function = match mutant.get("function") {
        None | Some(Value::Null) => None,
        Some(Value::String(f)) => Some(f.clone()),
        Some(_) => return None,
    };
    let outcome = match obj.get("outcome") {
        Some(Value::String(s)) => OutcomeValue::Plain(s.clone()),
        Some(Value::Object(m)) => OutcomeValue::Tagged(m.keys().cloned().collect()),
        _ => OutcomeValue::Other,
    };
    Some(MutantRecord {
        scenario: text(obj, "scenario")?,
        file: text(mutant, "file")?,
        line,
        description: text(mutant, "description")?,
        function,
        outcome,
    })
}

fn parse_outcomes(ndjson: &str, subject: &str, version: &str) -> MutateResult {
    let records = record_lines(ndjson).iter().map(|l| decode(l)).collect();
    tally_outcomes(records, subject, version)
}

#[test]
fn empty_input_yields_zero_result() {
    let r = parse_outcomes("", "x", "0.1.0");
    assert_eq!(r.mutants_total, 0);
    assert_eq!(r.mutants_killed, 0);
    assert_eq!(r.mutants_survived, 0);
    assert_eq!(r.kill_ratio(), None);
}

#[test]
fn parses_caught_missed_timeout() {
    let ndjson: String = [
        r#"{"scenario":"Mutant","mutant":{"file":"src/lib.rs","line":10,"description":"replace + with -"},"outcome":"Caught"}"#,
        "\n",
        r#"{"scenario":"Mutant","mutant":{"file":"src/lib.rs","line":20,"description":"replace - with +"},"outcome":"Missed"}"#,
        "\n",
        r#"{"scenario":"Mutant","mutant":{"file":"src/lib.rs","line":30,"description":"slow"},"outcome":"Timeout"}"#,
    ].concat();
    let r = parse_outcomes(&ndjson, "x", "0.1.0");
    assert_eq!(r.mutants_killed, 1);
    assert_eq!(r.mutants_survived, 1);
    assert_eq!(r.mutants_timeout, 1);
    assert_eq!(r.survivors.len(), 1);
    assert_eq!(r.survivors[0].line, 20);
}

#[test]
fn tagged_enum_outcome_shape_is_recognized() {
    let ndjson: String = [
        r#"{"scenario":"Mutant","mutant":{"file":"a","line":1,"description":"x"},"outcome":{"Caught":{}}}"#,
        "\n",
        r#"{"scenario":"Mutant","mutant":{"file":"a","line":2,"description":"y"},"outcome":{"Missed":{}}}"#,
    ].concat();
    let r = parse_outcomes(&ndjson, "x", "0.1.0");
    assert_eq!(r.mutants_killed, 1);
    assert_eq!(r.mutants_survived, 1);
}

#[test]
fn baseline_and_other_scenarios_ignored() {
    let ndjson: String = [
        r#"{"scenario":"Baseline","mutant":{"file":"a","line":1,"description":"x"},"outcome":"Success"}"#,
        "\n",
        r#"{"scenario":"Mutant","mutant":{"file":"a","line":1,"description":"x"},"outcome":"Caught"}"#,
    ].concat();
    let r = parse_outcomes(&ndjson, "x", "0.1.0");
    assert_eq!(r.mutants_total, 1);
    assert_eq!(r.mutants_killed, 1);
}

#[test]
fn non_json_lines_are_skipped() {
    let ndjson: String = [
        "    Building cargo-mutants\n",
        r#"{"scenario":"Mutant","mutant":{"file":"a","line":1,"description":"x"},"outcome":"Missed"}"#,
        "\n",
        "garbage\n",
    ].concat();
    let r = parse_outcomes(&ndjson, "x", "0.1.0");
    assert_eq!(r.mutants_survived, 1);
}

#[test]
fn unrecognized_outcome_strings_stay_uncounted() {
    let ndjson: String = [
        r#"{"scenario":"Mutant","mutant":{"file":"a","line":1,"description":"x"},"outcome":"Failure"}"#,
        "\n",
        r#"{"scenario":"Mutant","mutant":{"file":"a","line":2,"description":"y"},"outcome":"Unviable"}"#,
    ].concat();
    let r = parse_outcomes(&ndjson, "x", "0.1.0");
    assert_eq!(r.mutants_total, 2);
    assert_eq!(r.mutants_killed, 0);
    assert_eq!(r.mutants_survived, 0);
    assert_eq!(r.mutants_timeout, 0);
}

#[test]
fn per_file_breakdown_computed() {
    let ndjson: String = [
        r#"{"scenario":"Mutant","mutant":{"file":"a.rs","line":1,"description":"x"},"outcome":"Caught"}"#,
        "\n",
        r#"{"scenario":"Mutant","mutant":{"file":"a.rs","line":2,"description":"y"},"outcome":"Missed"}"#,
        "\n",
        r#"{"scenario":"Mutant","mutant":{"file":"b.rs","line":1,"description":"z"},"outcome":"Caught"}"#,
        "\n",
        r#"{"scenario":"Mutant","mutant":{"file":"b.rs","line":2,"description":"w"},"outcome":"Caught"}"#,
    ].concat();
    let r = parse_outcomes(&ndjson, "x", "0.1.0");
    assert_eq!(r.files.len(), 2);
    let a = r.files.iter().find(|f| f.file == "a.rs").unwrap();
    let b = r.files.iter().find(|f| f.file == "b.rs").unwrap();
    let pct = |x: Option<(u64, u64)>| x.map(|(k, c)| k as f64 / c as f64 * 100.0).unwrap_or(0.0);
    assert!((pct(a.kill_ratio()) - 50.0).abs() < 1e-9);
    assert!((pct(b.kill_ratio()) - 100.0).abs() < 1e-9);
}

#[test]
fn survivors_sorted_by_file_then_line() {
    let ndjson: String = [
        r#"{"scenario":"Mutant","mutant":{"file":"b.rs","line":5,"description":"x"},"outcome":"Missed"}"#,
        "\n",
        r#"{"scenario":"Mutant","mutant":{"file":"a.rs","line":10,"description":"y"},"outcome":"Missed"}"#,
        "\n",
        r#"{"scenario":"Mutant","mutant":{"file":"a.rs","line":3,"description":"z"},"outcome":"Missed"}"#,
    ].concat();
    let r = parse_outcomes(&ndjson, "x", "0.1.0");
    assert_eq!(r.survivors[0].file, "a.rs");
    assert_eq!(r.survivors[0].line, 3);
    assert_eq!(r.survivors[1].file, "a.rs");
    assert_eq!(r.survivors[1].line, 10);
    assert_eq!(r.survivors[2].file, "b.rs");
}

#[test]
fn missing_file_field_falls_back_to_placeholder() {
    let ndjson =
        r#"{"scenario":"Mutant","mutant":{"line":1,"description":"x"},"outcome":"Missed"}"#;
    let r = parse_outcomes(ndjson, "x", "0.1.0");
    assert_eq!(r.mutants_survived, 1);
    assert_eq!(r.survivors[0].file, "<unknown>");
}

#[test]
fn record_with_out_of_range_line_is_no_record() {
    let ndjson = [
        r#"{"scenario":"Mutant","mutant":{"file":"a","line":5000000000,"description":"x"},"outcome":"Missed"}"#,
        "\n",
        r#"{"scenario":"Mutant","mutant":{"file":"a","line":7,"description":"y"},"outcome":"Missed"}"#,
    ]
    .concat();
    let r = parse_outcomes(&ndjson, "x", "0.1.0");
    assert_eq!(r.mutants_total, 1);
    assert_eq!(r.survivors[0].line, 7);
}
