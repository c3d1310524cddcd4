//! Classifying `cargo mutants --json` records and tallying them into a
//! `MutateResult`.
//!
//! Each line of the tool's output is one JSON record. The decoding of a
//! line into a `MutantRecord` is done by the caller (it is a `serde`
//! derive on the wire shape); everything after that is here: only
//! `Mutant`-scenario records count, `Caught` is killed, `Missed` survived,
//! `Timeout` timed out, anything else is counted in the total only.
use vstd::prelude::*;

use crate::order::is_stable_sort_of;
use crate::report::{
    sort_survivors, survivor_order, survivor_views, FileBreakdown, MutateResult, SurvivingMutant,
    SurvivorView,
};
use crate::text::{
    ascii_lower_seq, ascii_lowercase, chars_contain, chars_eq_ignore_ascii_case, chars_less,
    chars_lt, chars_of, contains_seq, eq_ignore_ascii_case, lemma_chars_lt_asymmetric,
    lemma_chars_lt_irreflexive, lemma_chars_lt_total, lemma_chars_lt_transitive,
};

verus! {

// ---------------------------------------------------------------------------
// Records
// ---------------------------------------------------------------------------

/// How a mutant fared.
#[derive(Clone, Copy, PartialEq, Eq, Structural, Debug)]
pub enum Outcome {
    /// A test failed: the mutant was killed.
    Caught,
    /// Every test passed: the mutant survived.
    Missed,
    /// The tests timed out.
    Timeout,
    /// Anything else (build failure, unviable mutant, ...).
    Other,
}

/// The `outcome` field of a record, as decoded from JSON.
#[derive(Debug, Clone)]
pub enum OutcomeValue {
    /// A JSON string: `"outcome": "Caught"`.
    Plain(String),
    /// A JSON object (a tagged enum, `{"Caught": ...}`): its keys in the
    /// decoder's iteration order.
    Tagged(Vec<String>),
    /// Any other JSON value, or no `outcome` field.
    Other,
}

/// One decoded record of `cargo mutants --json` output. Missing fields
/// decode as empty strings, line 0 and `None`.
#[derive(Debug, Clone)]
pub struct MutantRecord {
    pub scenario: String,
    pub file: String,
    pub line: u32,
    pub description: String,
    pub function: Option<String>,
    pub outcome: OutcomeValue,
}

/// The text the outcome is classified by: a plain string itself, the first
/// key of a non-empty object, otherwise empty.
pub open spec fn outcome_label(v: OutcomeValue) -> Seq<char> {
    match v {
        OutcomeValue::Plain(s) => s@,
        OutcomeValue::Tagged(keys) => if keys@.len() > 0 {
            keys@[0]@
        } else {
            Seq::empty()
        },
        OutcomeValue::Other => Seq::empty(),
    }
}

/// Classification of an outcome label, ignoring ASCII case: containing
/// `caught`, else `missed`, else `timeout`, else other.
pub open spec fn classify_label(label: Seq<char>) -> Outcome {
    let l = ascii_lower_seq(label);
    if contains_seq(l, seq!['c', 'a', 'u', 'g', 'h', 't']) {
        Outcome::Caught
    } else if contains_seq(l, seq!['m', 'i', 's', 's', 'e', 'd']) {
        Outcome::Missed
    } else if contains_seq(l, seq!['t', 'i', 'm', 'e', 'o', 'u', 't']) {
        Outcome::Timeout
    } else {
        Outcome::Other
    }
}

/// The outcome of a record.
pub open spec fn record_outcome(r: MutantRecord) -> Outcome {
    classify_label(outcome_label(r.outcome))
}

/// The record describes a mutant (its scenario is `mutant`, in any ASCII case).
pub open spec fn is_mutant_record(r: MutantRecord) -> bool {
    eq_ignore_ascii_case(r.scenario@, "mutant"@)
}

/// The file a record is counted under: its own, or `<unknown>` when empty.
pub open spec fn effective_file(r: MutantRecord) -> Seq<char> {
    if r.file@.len() == 0 {
        "<unknown>"@
    } else {
        r.file@
    }
}

/// The mutant records among the decoded lines, in order.
pub open spec fn mutant_records(recs: Seq<Option<MutantRecord>>) -> Seq<MutantRecord>
    decreases recs.len(),
{
    if recs.len() == 0 {
        Seq::empty()
    } else {
        let rest = mutant_records(recs.drop_last());
        match recs.last() {
            Some(r) => if is_mutant_record(r) {
                rest.push(r)
            } else {
                rest
            },
            None => rest,
        }
    }
}

/// Number of records with outcome `o`.
pub open spec fn count_outcome(ms: Seq<MutantRecord>, o: Outcome) -> nat
    decreases ms.len(),
{
    if ms.len() == 0 {
        0
    } else {
        count_outcome(ms.drop_last(), o) + if record_outcome(ms.last()) == o {
            1nat
        } else {
            0nat
        }
    }
}

/// Number of records counted under file `f` with outcome `o`.
pub open spec fn count_file_outcome(ms: Seq<MutantRecord>, f: Seq<char>, o: Outcome) -> nat
    decreases ms.len(),
{
    if ms.len() == 0 {
        0
    } else {
        count_file_outcome(ms.drop_last(), f, o) + if effective_file(ms.last()) == f
            && record_outcome(ms.last()) == o {
            1nat
        } else {
            0nat
        }
    }
}

/// The survivor a missed record describes.
pub open spec fn survivor_of(r: MutantRecord) -> SurvivorView {
    SurvivorView {
        file: effective_file(r),
        line: r.line,
        description: r.description@,
        function: match r.function {
            Some(f) => Some(f@),
            None => None,
        },
    }
}

/// The survivors the missed records describe, in record order.
pub open spec fn missed_survivors(ms: Seq<MutantRecord>) -> Seq<SurvivorView>
    decreases ms.len(),
{
    if ms.len() == 0 {
        Seq::empty()
    } else {
        let rest = missed_survivors(ms.drop_last());
        if record_outcome(ms.last()) == Outcome::Missed {
            rest.push(survivor_of(ms.last()))
        } else {
            rest
        }
    }
}

/// The count field of a breakdown that `o` adds to (0 for other outcomes).
pub open spec fn field_of(f: FileBreakdown, o: Outcome) -> int {
    match o {
        Outcome::Caught => f.killed as int,
        Outcome::Missed => f.survived as int,
        Outcome::Timeout => f.timeout as int,
        Outcome::Other => 0,
    }
}

/// Sum of one count field over a breakdown.
pub open spec fn breakdown_sum(files: Seq<FileBreakdown>, o: Outcome) -> int
    decreases files.len(),
{
    if files.len() == 0 {
        0
    } else {
        breakdown_sum(files.drop_last(), o) + field_of(files.last(), o)
    }
}

/// `files` is the per-file breakdown of the records `ms`: one entry per file
/// that has a caught, missed or timed-out record, ascending by file, each
/// holding that file's counts.
pub open spec fn breakdown_of(files: Seq<FileBreakdown>, ms: Seq<MutantRecord>) -> bool {
    &&& forall|i: int, j: int|
        0 <= i < j < files.len() ==> chars_lt(#[trigger] files[i].file@, #[trigger] files[j].file@)
    &&& forall|i: int|
        0 <= i < files.len() ==> {
            &&& #[trigger] files[i].killed == count_file_outcome(ms, files[i].file@, Outcome::Caught)
            &&& files[i].survived == count_file_outcome(ms, files[i].file@, Outcome::Missed)
            &&& files[i].timeout == count_file_outcome(ms, files[i].file@, Outcome::Timeout)
            &&& files[i].killed + files[i].survived + files[i].timeout > 0
        }
    &&& forall|k: int|
        0 <= k < ms.len() && record_outcome(#[trigger] ms[k]) != Outcome::Other ==> exists|i: int|
            0 <= i < files.len() && #[trigger] files[i].file@ == effective_file(ms[k])
}

/// `r` is the tally of the decoded lines `recs` for `subject` at `version`:
/// the mutant records counted by outcome, the survivors of the missed ones
/// stably sorted by `(file, line)`, and the per-file breakdown, whose
/// counts add up to the totals.
pub open spec fn is_tally_of(
    r: MutateResult,
    recs: Seq<Option<MutantRecord>>,
    subject: Seq<char>,
    version: Seq<char>,
) -> bool {
    let ms = mutant_records(recs);
    &&& r.name@ == subject
    &&& r.version@ == version
    &&& r.mutants_total == ms.len()
    &&& r.mutants_killed == count_outcome(ms, Outcome::Caught)
    &&& r.mutants_survived == count_outcome(ms, Outcome::Missed)
    &&& r.mutants_timeout == count_outcome(ms, Outcome::Timeout)
    &&& is_stable_sort_of(survivor_views(r.survivors@), missed_survivors(ms), survivor_order())
    &&& breakdown_of(r.files@, ms)
    &&& breakdown_sum(r.files@, Outcome::Caught) == r.mutants_killed
    &&& breakdown_sum(r.files@, Outcome::Missed) == r.mutants_survived
    &&& breakdown_sum(r.files@, Outcome::Timeout) == r.mutants_timeout
}

// ---------------------------------------------------------------------------
// Counting lemmas
// ---------------------------------------------------------------------------

pub proof fn lemma_count_outcome_le(ms: Seq<MutantRecord>, o: Outcome)
    ensures
        count_outcome(ms, o) <= ms.len(),
    decreases ms.len(),
{
    if ms.len() > 0 {
        lemma_count_outcome_le(ms.drop_last(), o);
    }
}

/// The caught, missed and timed-out records together are at most all records.
pub proof fn lemma_counts_within_total(ms: Seq<MutantRecord>)
    ensures
        count_outcome(ms, Outcome::Caught) + count_outcome(ms, Outcome::Missed) + count_outcome(
            ms,
            Outcome::Timeout,
        ) <= ms.len(),
    decreases ms.len(),
{
    if ms.len() > 0 {
        lemma_counts_within_total(ms.drop_last());
    }
}

pub proof fn lemma_count_file_le(ms: Seq<MutantRecord>, f: Seq<char>, o: Outcome)
    ensures
        count_file_outcome(ms, f, o) <= ms.len(),
    decreases ms.len(),
{
    if ms.len() > 0 {
        lemma_count_file_le(ms.drop_last(), f, o);
    }
}

proof fn lemma_count_file_zero(ms: Seq<MutantRecord>, f: Seq<char>, o: Outcome)
    requires
        o != Outcome::Other,
        forall|k: int|
            0 <= k < ms.len() && record_outcome(#[trigger] ms[k]) != Outcome::Other
                ==> effective_file(ms[k]) != f,
    ensures
        count_file_outcome(ms, f, o) == 0,
    decreases ms.len(),
{
    if ms.len() > 0 {
        assert forall|k: int|
            0 <= k < ms.drop_last().len() && record_outcome(
                #[trigger] ms.drop_last()[k],
            ) != Outcome::Other implies effective_file(ms.drop_last()[k]) != f by {
            assert(ms.drop_last()[k] == ms[k]);
        }
        lemma_count_file_zero(ms.drop_last(), f, o);
        assert(ms.last() == ms[ms.len() - 1]);
    }
}

/// The number of missed survivors is the number of missed records.
pub proof fn lemma_missed_len(ms: Seq<MutantRecord>)
    ensures
        missed_survivors(ms).len() == count_outcome(ms, Outcome::Missed),
    decreases ms.len(),
{
    if ms.len() > 0 {
        lemma_missed_len(ms.drop_last());
    }
}

proof fn lemma_sum_update(files: Seq<FileBreakdown>, p: int, x: FileBreakdown, o: Outcome)
    requires
        0 <= p < files.len(),
    ensures
        breakdown_sum(files.update(p, x), o) == breakdown_sum(files, o) - field_of(files[p], o)
            + field_of(x, o),
    decreases files.len(),
{
    let u = files.update(p, x);
    if p == files.len() - 1 {
        assert(u.drop_last() =~= files.drop_last());
    } else {
        assert(u.drop_last() =~= files.drop_last().update(p, x));
        lemma_sum_update(files.drop_last(), p, x, o);
    }
}

proof fn lemma_sum_insert(files: Seq<FileBreakdown>, p: int, x: FileBreakdown, o: Outcome)
    requires
        0 <= p <= files.len(),
    ensures
        breakdown_sum(files.insert(p, x), o) == breakdown_sum(files, o) + field_of(x, o),
    decreases files.len(),
{
    let u = files.insert(p, x);
    if p == files.len() {
        assert(u.drop_last() =~= files);
    } else {
        assert(u.drop_last() =~= files.drop_last().insert(p, x));
        lemma_sum_insert(files.drop_last(), p, x, o);
    }
}

// ---------------------------------------------------------------------------
// Executable
// ---------------------------------------------------------------------------

/// Classify a record's outcome value.
pub fn outcome_from_value(v: &OutcomeValue) -> (o: Outcome)
    ensures
        o == classify_label(outcome_label(*v)),
{
    let label: Vec<char> = match v {
        OutcomeValue::Plain(s) => chars_of(s.as_str()),
        OutcomeValue::Tagged(keys) => {
            if keys.len() > 0 {
                chars_of(keys[0].as_str())
            } else {
                Vec::new()
            }
        },
        OutcomeValue::Other => Vec::new(),
    };
    assert(label@ == outcome_label(*v));
    let lower = ascii_lowercase(&label);
    if chars_contain(&lower, &vec!['c', 'a', 'u', 'g', 'h', 't']) {
        Outcome::Caught
    } else if chars_contain(&lower, &vec!['m', 'i', 's', 's', 'e', 'd']) {
        Outcome::Missed
    } else if chars_contain(&lower, &vec!['t', 'i', 'm', 'e', 'o', 'u', 't']) {
        Outcome::Timeout
    } else {
        Outcome::Other
    }
}

/// Adds one record with outcome `o` under `file` to a breakdown.
fn count_in_breakdown(
    files: &mut Vec<FileBreakdown>,
    file: String,
    o: Outcome,
    Ghost(ms): Ghost<Seq<MutantRecord>>,
    Ghost(r): Ghost<MutantRecord>,
)
    requires
        breakdown_of(old(files)@, ms),
        ms.len() < u64::MAX,
        o != Outcome::Other,
        o == record_outcome(r),
        file@ == effective_file(r),
    ensures
        breakdown_of(final(files)@, ms.push(r)),
        forall|q: Outcome|
            breakdown_sum(#[trigger] final(files)@, q) == breakdown_sum(old(files)@, q) + if q == o {
                1int
            } else {
                0int
            },
{
    let ghost old_files = files@;
    let ghost ms2 = ms.push(r);
    let ghost f = file@;
    assert(ms2.drop_last() =~= ms);
    assert(ms2.last() == r);
    let fc = chars_of(file.as_str());
    let mut p: usize = 0;
    while p < files.len() && chars_less(&chars_of(files[p].file.as_str()), &fc)
        invariant
            p <= files.len(),
            files@ == old_files,
            fc@ == f,
            forall|i: int| 0 <= i < p ==> chars_lt(#[trigger] files@[i].file@, f),
        decreases files.len() - p,
    {
        p = p + 1;
    }
    let found = p < files.len() && files[p].file == file;
    if found {
        let ghost e = files@[p as int];
        proof {
            lemma_count_file_le(ms, f, Outcome::Caught);
            lemma_count_file_le(ms, f, Outcome::Missed);
            lemma_count_file_le(ms, f, Outcome::Timeout);
        }
        let mut entry = FileBreakdown {
            file: file,
            killed: files[p].killed,
            survived: files[p].survived,
            timeout: files[p].timeout,
        };
        match o {
            Outcome::Caught => entry.killed = entry.killed + 1,
            Outcome::Missed => entry.survived = entry.survived + 1,
            _ => entry.timeout = entry.timeout + 1,
        }
        let ghost x = entry;
        files.set(p, entry);
        proof {
            assert(files@ == old_files.update(p as int, x));
            assert forall|q: Outcome| breakdown_sum(#[trigger] files@, q) == breakdown_sum(old_files, q)
                + if q == o {
                1int
            } else {
                0int
            } by {
                lemma_sum_update(old_files, p as int, x, q);
            }
            assert forall|i: int, j: int|
                0 <= i < j < files@.len() implies chars_lt(
                #[trigger] files@[i].file@,
                #[trigger] files@[j].file@,
            ) by {
                assert(old_files[i].file@ == files@[i].file@);
                assert(old_files[j].file@ == files@[j].file@);
            }
            assert forall|i: int| 0 <= i < files@.len() implies {
                &&& #[trigger] files@[i].killed == count_file_outcome(
                    ms2,
                    files@[i].file@,
                    Outcome::Caught,
                )
                &&& files@[i].survived == count_file_outcome(ms2, files@[i].file@, Outcome::Missed)
                &&& files@[i].timeout == count_file_outcome(ms2, files@[i].file@, Outcome::Timeout)
                &&& files@[i].killed + files@[i].survived + files@[i].timeout > 0
            } by {
                if i != p {
                    if i < p {
                        assert(chars_lt(old_files[i].file@, old_files[p as int].file@));
                    } else {
                        assert(chars_lt(old_files[p as int].file@, old_files[i].file@));
                    }
                    if old_files[i].file@ == f {
                        lemma_chars_lt_irreflexive(f);
                    }
                }
            }
            assert forall|k: int|
                0 <= k < ms2.len() && record_outcome(#[trigger] ms2[k]) != Outcome::Other implies exists|
                i: int,
            | 0 <= i < files@.len() && #[trigger] files@[i].file@ == effective_file(ms2[k]) by {
                if k < ms.len() {
                    assert(ms2[k] == ms[k]);
                    let i = choose|i: int|
                        0 <= i < old_files.len() && #[trigger] old_files[i].file@ == effective_file(
                            ms[k],
                        );
                    assert(files@[i].file@ == old_files[i].file@);
                } else {
                    assert(files@[p as int].file@ == effective_file(ms2[k]));
                }
            }
        }
    } else {
        proof {
            assert forall|k: int|
                0 <= k < ms.len() && record_outcome(#[trigger] ms[k]) != Outcome::Other
                    implies effective_file(ms[k]) != f by {
                if effective_file(ms[k]) == f {
                    let i = choose|i: int|
                        0 <= i < old_files.len() && #[trigger] old_files[i].file@ == effective_file(
                            ms[k],
                        );
                    if i < p {
                        lemma_chars_lt_irreflexive(f);
                    } else {
                        assert(p < old_files.len());
                        lemma_chars_lt_total(old_files[p as int].file@, f);
                        if i > p {
                            assert(chars_lt(old_files[p as int].file@, old_files[i].file@));
                            lemma_chars_lt_asymmetric(f, old_files[p as int].file@);
                        }
                    }
                }
            }
            lemma_count_file_zero(ms, f, Outcome::Caught);
            lemma_count_file_zero(ms, f, Outcome::Missed);
            lemma_count_file_zero(ms, f, Outcome::Timeout);
            if p < old_files.len() {
                lemma_chars_lt_total(old_files[p as int].file@, f);
            }
        }
        let entry = FileBreakdown {
            file: file,
            killed: if o == Outcome::Caught {
                1
            } else {
                0
            },
            survived: if o == Outcome::Missed {
                1
            } else {
                0
            },
            timeout: if o == Outcome::Timeout {
                1
            } else {
                0
            },
        };
        let ghost x = entry;
        files.insert(p, entry);
        proof {
            assert(files@ == old_files.insert(p as int, x));
            assert forall|q: Outcome| breakdown_sum(#[trigger] files@, q) == breakdown_sum(old_files, q)
                + if q == o {
                1int
            } else {
                0int
            } by {
                lemma_sum_insert(old_files, p as int, x, q);
            }
            assert forall|i: int, j: int|
                0 <= i < j < files@.len() implies chars_lt(
                #[trigger] files@[i].file@,
                #[trigger] files@[j].file@,
            ) by {
                if j < p {
                    assert(files@[i] == old_files[i] && files@[j] == old_files[j]);
                } else if j == p {
                    assert(files@[i] == old_files[i]);
                } else if i == p {
                    assert(files@[j] == old_files[j - 1]);
                    if j - 1 > p {
                        assert(chars_lt(old_files[p as int].file@, old_files[j - 1].file@));
                        lemma_chars_lt_transitive(f, old_files[p as int].file@, old_files[j - 1].file@);
                    }
                } else if i < p {
                    assert(files@[i] == old_files[i] && files@[j] == old_files[j - 1]);
                } else {
                    assert(files@[i] == old_files[i - 1] && files@[j] == old_files[j - 1]);
                }
            }
            assert forall|i: int| 0 <= i < files@.len() implies {
                &&& #[trigger] files@[i].killed == count_file_outcome(
                    ms2,
                    files@[i].file@,
                    Outcome::Caught,
                )
                &&& files@[i].survived == count_file_outcome(ms2, files@[i].file@, Outcome::Missed)
                &&& files@[i].timeout == count_file_outcome(ms2, files@[i].file@, Outcome::Timeout)
                &&& files@[i].killed + files@[i].survived + files@[i].timeout > 0
            } by {
                if i != p {
                    let oi = if i < p {
                        i
                    } else {
                        i - 1
                    };
                    assert(files@[i] == old_files[oi]);
                    if old_files[oi].file@ == f {
                        if oi < p {
                            lemma_chars_lt_irreflexive(f);
                        } else {
                            if oi > p {
                                assert(chars_lt(old_files[p as int].file@, old_files[oi].file@));
                                lemma_chars_lt_asymmetric(f, old_files[p as int].file@);
                            }
                        }
                    }
                }
            }
            assert forall|k: int|
                0 <= k < ms2.len() && record_outcome(#[trigger] ms2[k]) != Outcome::Other implies exists|
                i: int,
            | 0 <= i < files@.len() && #[trigger] files@[i].file@ == effective_file(ms2[k]) by {
                if k < ms.len() {
                    assert(ms2[k] == ms[k]);
                    let i = choose|i: int|
                        0 <= i < old_files.len() && #[trigger] old_files[i].file@ == effective_file(
                            ms[k],
                        );
                    if i < p {
                        assert(files@[i] == old_files[i]);
                    } else {
                        assert(files@[i + 1] == old_files[i]);
                    }
                } else {
                    assert(files@[p as int].file@ == effective_file(ms2[k]));
                }
            }
        }
    }
}

/// Tally decoded records into a result: counts by outcome, the survivors
/// sorted by `(file, line)` and the per-file breakdown sorted by file.
pub fn tally_outcomes(records: Vec<Option<MutantRecord>>, subject: &str, version: &str) -> (r:
    MutateResult)
    ensures
        is_tally_of(r, records@, subject@, version@),
{
    let ghost recs = records@;
    let n = records.len();
    let mut total: u64 = 0;
    let mut killed: u64 = 0;
    let mut survived: u64 = 0;
    let mut timeout: u64 = 0;
    let mut found: Vec<SurvivingMutant> = Vec::new();
    let mut files: Vec<FileBreakdown> = Vec::new();
    let mutant = chars_of("mutant");
    let mut k: usize = 0;
    assert(recs.take(0) =~= Seq::<Option<MutantRecord>>::empty());
    assert(survivor_views(found@) =~= Seq::<SurvivorView>::empty());
    for rec in it: records
        invariant
            it.seq() == recs,
            n == recs.len(),
            k == it.index(),
            mutant@ == "mutant"@,
            mutant_records(recs.take(k as int)).len() <= k,
            total == mutant_records(recs.take(k as int)).len(),
            killed == count_outcome(mutant_records(recs.take(k as int)), Outcome::Caught),
            survived == count_outcome(mutant_records(recs.take(k as int)), Outcome::Missed),
            timeout == count_outcome(mutant_records(recs.take(k as int)), Outcome::Timeout),
            survivor_views(found@) == missed_survivors(mutant_records(recs.take(k as int))),
            breakdown_of(files@, mutant_records(recs.take(k as int))),
            breakdown_sum(files@, Outcome::Caught) == killed,
            breakdown_sum(files@, Outcome::Missed) == survived,
            breakdown_sum(files@, Outcome::Timeout) == timeout,
    {
        assert(k < n);
        let ghost ms = mutant_records(recs.take(k as int));
        let ghost next = recs.take(k + 1);
        assert(next.drop_last() =~= recs.take(k as int));
        assert(next.last() == rec);
        proof {
            lemma_count_outcome_le(ms, Outcome::Caught);
            lemma_count_outcome_le(ms, Outcome::Missed);
            lemma_count_outcome_le(ms, Outcome::Timeout);
        }
        match rec {
            Some(r) => {
                let scenario = chars_of(r.scenario.as_str());
                if chars_eq_ignore_ascii_case(&scenario, &mutant) {
                    let ghost gr = r;
                    let ghost ms2 = ms.push(gr);
                    assert(mutant_records(next) == ms2);
                    assert(ms2.drop_last() =~= ms);
                    assert(ms2.last() == gr);
                    total = total + 1;
                    let outcome = outcome_from_value(&r.outcome);
                    let file = if r.file.as_str().is_empty() {
                        "<unknown>".to_owned()
                    } else {
                        r.file
                    };
                    assert(file@ == effective_file(gr));
                    match outcome {
                        Outcome::Caught => {
                            killed = killed + 1;
                            count_in_breakdown(&mut files, file, outcome, Ghost(ms), Ghost(gr));
                        },
                        Outcome::Missed => {
                            survived = survived + 1;
                            count_in_breakdown(
                                &mut files,
                                file.clone(),
                                outcome,
                                Ghost(ms),
                                Ghost(gr),
                            );
                            let s = SurvivingMutant {
                                file: file,
                                line: r.line,
                                description: r.description,
                                function: r.function,
                            };
                            assert(s@ == survivor_of(gr));
                            found.push(s);
                            assert(survivor_views(found@) =~= missed_survivors(ms).push(
                                survivor_of(gr),
                            ));
                        },
                        Outcome::Timeout => {
                            timeout = timeout + 1;
                            count_in_breakdown(&mut files, file, outcome, Ghost(ms), Ghost(gr));
                        },
                        Outcome::Other => {
                            assert(breakdown_of(files@, ms2)) by {
                                assert forall|i: int| 0 <= i < files@.len() implies {
                                    &&& #[trigger] files@[i].killed == count_file_outcome(
                                        ms2,
                                        files@[i].file@,
                                        Outcome::Caught,
                                    )
                                    &&& files@[i].survived == count_file_outcome(
                                        ms2,
                                        files@[i].file@,
                                        Outcome::Missed,
                                    )
                                    &&& files@[i].timeout == count_file_outcome(
                                        ms2,
                                        files@[i].file@,
                                        Outcome::Timeout,
                                    )
                                    &&& files@[i].killed + files@[i].survived + files@[i].timeout
                                        > 0
                                } by {}
                                assert forall|j: int|
                                    0 <= j < ms2.len() && record_outcome(#[trigger] ms2[j])
                                        != Outcome::Other implies exists|i: int|
                                    0 <= i < files@.len() && #[trigger] files@[i].file@
                                        == effective_file(ms2[j]) by {
                                    assert(ms2[j] == ms[j]);
                                }
                            }
                        },
                    }
                } else {
                    assert(mutant_records(next) == ms);
                }
            },
            None => {
                assert(mutant_records(next) == ms);
            },
        }
        k = k + 1;
    }
    assert(recs.take(k as int) =~= recs);
    let ghost ms = mutant_records(recs);
    let survivors = sort_survivors(found);
    MutateResult {
        name: subject.to_owned(),
        version: version.to_owned(),
        mutants_total: total,
        mutants_killed: killed,
        mutants_survived: survived,
        mutants_timeout: timeout,
        survivors: survivors,
        files: files,
    }
}

} // verus!
