//! Properties of the library as a whole, proved from the contracts of its
//! functions.
use vstd::prelude::*;

use crate::order::{is_stable_sort_of, lemma_stable_sort_unique, sorted_by, stable_arrangement};
use crate::outcomes::{
    classify_label, is_tally_of, lemma_counts_within_total, lemma_missed_len, missed_survivors,
    mutant_records, outcome_label, record_outcome, survivor_of, MutantRecord, Outcome, OutcomeValue,
};
use crate::config::{flag_pairs, jobs_args, mutants_args_of, timeout_args, workspace_args, RunConfigView};
use crate::text::{ascii_lower_seq, decimal, contains_seq, is_trimmed_nonblank, lemma_record_lines_trimmed, record_lines_of, split_lines};
use crate::report::{
    kill_ratio_of, lemma_without_allowed_len, rate_den, rate_le, rate_num, rate_order, reclassified, survivor_order,
    survivor_views, without_allowed, FileBreakdown, MutateResult, SurvivingMutant,
};

verus! {

/// A kill rate is a fraction between 0 and 1 with a positive denominator,
/// and timeouts take no part in it: it depends on the killed and surviving
/// counts alone.
pub proof fn law_kill_ratio_is_a_fraction(killed: u64, survived: u64)
    requires
        killed + survived <= u64::MAX,
    ensures
        kill_ratio_of(killed, survived) is None <==> killed + survived == 0,
        kill_ratio_of(killed, survived) matches Some((n, d)) ==> 0 <= n <= d && d > 0 && n
            == killed && d == killed + survived,
{
}

/// The record lines of a text are non-empty and carry no leading or
/// trailing white space.
pub proof fn law_record_lines_trimmed(text: Seq<char>)
    ensures
        forall|i: int|
            0 <= i < record_lines_of(text).len() ==> is_trimmed_nonblank(
                #[trigger] record_lines_of(text)[i],
            ),
{
    lemma_record_lines_trimmed(split_lines(text));
}

/// A tally counts every mutant record once at most in killed, survived and
/// timed out together, and it lists one survivor per surviving mutant.
pub proof fn law_tally_counts(
    t: MutateResult,
    recs: Seq<Option<MutantRecord>>,
    subject: Seq<char>,
    version: Seq<char>,
)
    requires
        is_tally_of(t, recs, subject, version),
    ensures
        t.mutants_killed + t.mutants_survived + t.mutants_timeout <= t.mutants_total,
        t.survivors@.len() == t.mutants_survived,
{
    let ms = mutant_records(recs);
    lemma_counts_within_total(ms);
    lemma_missed_len(ms);
    let perm = choose|perm: Seq<int>|
        stable_arrangement(survivor_views(t.survivors@), missed_survivors(ms), perm, survivor_order());
}

/// The survivors of a tally are in ascending `(file, line)` order.
pub proof fn law_tally_survivors_sorted(
    t: MutateResult,
    recs: Seq<Option<MutantRecord>>,
    subject: Seq<char>,
    version: Seq<char>,
)
    requires
        is_tally_of(t, recs, subject, version),
    ensures
        sorted_by(survivor_views(t.survivors@), survivor_order()),
{
    let ms = mutant_records(recs);
    let perm = choose|perm: Seq<int>|
        stable_arrangement(survivor_views(t.survivors@), missed_survivors(ms), perm, survivor_order());
}

/// The plain-string outcome shape and the tagged-enum shape whose first key
/// is the same string classify alike.
pub proof fn law_outcome_shapes_agree(s: String, keys: Vec<String>)
    requires
        keys@.len() > 0,
        keys@[0]@ == s@,
    ensures
        classify_label(outcome_label(OutcomeValue::Plain(s))) == classify_label(
            outcome_label(OutcomeValue::Tagged(keys)),
        ),
{
}

proof fn lemma_without_allowed_idempotent(s: Seq<SurvivingMutant>, allow: Seq<Seq<char>>)
    ensures
        without_allowed(without_allowed(s, allow), allow) == without_allowed(s, allow),
        forall|i: int|
            0 <= i < without_allowed(s, allow).len() ==> !allow.contains(
                #[trigger] without_allowed(s, allow)[i].description@,
            ),
    decreases s.len(),
{
    if s.len() > 0 {
        let rest = without_allowed(s.drop_last(), allow);
        lemma_without_allowed_idempotent(s.drop_last(), allow);
        if !allow.contains(s.last().description@) {
            let w = rest.push(s.last());
            assert(w.drop_last() =~= rest);
            assert(w.last() == s.last());
        }
    }
}

/// After the allow-list, no survivor carries an allow-listed description,
/// and applying the same allow-list again changes nothing.
pub proof fn law_allow_list_idempotent(
    old: MutateResult,
    r: MutateResult,
    r2: MutateResult,
    allow: Seq<Seq<char>>,
)
    requires
        reclassified(r, old, allow),
        reclassified(r2, r, allow),
    ensures
        forall|i: int|
            0 <= i < r.survivors@.len() ==> !allow.contains(#[trigger] r.survivors@[i].description@),
        r2.survivors@ == r.survivors@,
        r2.mutants_killed == r.mutants_killed,
        r2.mutants_survived == r.mutants_survived,
        r2.mutants_total == r.mutants_total,
        r2.mutants_timeout == r.mutants_timeout,
        r2.files == r.files,
{
    lemma_without_allowed_idempotent(old.survivors@, allow);
}

proof fn lemma_without_allowed_sorted(s: Seq<SurvivingMutant>, allow: Seq<Seq<char>>)
    requires
        sorted_by(survivor_views(s), survivor_order()),
    ensures
        sorted_by(survivor_views(without_allowed(s, allow)), survivor_order()),
        forall|i: int|
            0 <= i < without_allowed(s, allow).len() ==> exists|k: int|
                0 <= k < s.len() && s[k] == #[trigger] without_allowed(s, allow)[i],
    decreases s.len(),
{
    if s.len() > 0 {
        let d = s.drop_last();
        assert(sorted_by(survivor_views(d), survivor_order())) by {
            assert forall|i: int, j: int| 0 <= i < j < survivor_views(d).len() implies #[trigger] survivor_order()(
                survivor_views(d)[i],
                survivor_views(d)[j],
            ) by {
                assert(survivor_views(d)[i] == survivor_views(s)[i]);
                assert(survivor_views(d)[j] == survivor_views(s)[j]);
            }
        }
        lemma_without_allowed_sorted(d, allow);
        let rest = without_allowed(d, allow);
        if !allow.contains(s.last().description@) {
            let w = rest.push(s.last());
            assert forall|i: int, j: int| 0 <= i < j < survivor_views(w).len() implies #[trigger] survivor_order()(
                survivor_views(w)[i],
                survivor_views(w)[j],
            ) by {
                if j == w.len() - 1 {
                    let k = choose|k: int| 0 <= k < d.len() && d[k] == #[trigger] rest[i];
                    assert(survivor_views(s)[k] == survivor_views(w)[i]);
                    assert(survivor_views(s)[s.len() - 1] == survivor_views(w)[j]);
                } else {
                    assert(survivor_views(w)[i] == survivor_views(rest)[i]);
                    assert(survivor_views(w)[j] == survivor_views(rest)[j]);
                }
            }
            assert forall|i: int| 0 <= i < w.len() implies exists|k: int|
                0 <= k < s.len() && s[k] == #[trigger] w[i] by {
                if i == w.len() - 1 {
                    assert(s[s.len() - 1] == w[i]);
                } else {
                    let k = choose|k: int| 0 <= k < d.len() && d[k] == #[trigger] rest[i];
                    assert(s[k] == w[i]);
                }
            }
        } else {
            assert forall|i: int| 0 <= i < rest.len() implies exists|k: int|
                0 <= k < s.len() && s[k] == #[trigger] rest[i] by {
                let k = choose|k: int| 0 <= k < d.len() && d[k] == #[trigger] rest[i];
                assert(s[k] == rest[i]);
            }
        }
    }
}

/// The allow-list keeps the survivors in ascending `(file, line)` order.
pub proof fn law_allow_list_keeps_order(old: MutateResult, r: MutateResult, allow: Seq<Seq<char>>)
    requires
        reclassified(r, old, allow),
        sorted_by(survivor_views(old.survivors@), survivor_order()),
    ensures
        sorted_by(survivor_views(r.survivors@), survivor_order()),
{
    lemma_without_allowed_sorted(old.survivors@, allow);
}

/// Allow-listed survivors are counted as killed instead: when the survivor
/// list is no longer than the surviving count (as after a tally) and the
/// counts fit, killed plus survived is unchanged and killed never
/// decreases, so the kill rate never drops.
pub proof fn law_allow_list_raises_kill_rate(old: MutateResult, r: MutateResult, allow: Seq<Seq<char>>)
    requires
        reclassified(r, old, allow),
        old.survivors@.len() <= old.mutants_survived,
        old.mutants_killed + old.mutants_survived <= u64::MAX,
    ensures
        r.mutants_killed + r.mutants_survived == old.mutants_killed + old.mutants_survived,
        r.mutants_killed >= old.mutants_killed,
        r.survivors@.len() <= r.mutants_survived,
{
    lemma_without_allowed_len(old.survivors@, allow);
}

/// Two answers of `weakest_files` for the same files agree: the shorter is
/// a prefix of the longer (the stable sort they are cut from is unique).
pub proof fn law_weakest_files_prefix(
    files: Seq<FileBreakdown>,
    short: Seq<FileBreakdown>,
    long: Seq<FileBreakdown>,
)
    requires
        exists|s: Seq<FileBreakdown>|
            #[trigger] is_stable_sort_of(s, files, rate_order()) && short == s.take(short.len() as int),
        exists|s: Seq<FileBreakdown>|
            #[trigger] is_stable_sort_of(s, files, rate_order()) && long == s.take(long.len() as int),
        short.len() <= long.len() <= files.len(),
    ensures
        short == long.take(short.len() as int),
{
    let s1 = choose|s: Seq<FileBreakdown>|
        #[trigger] is_stable_sort_of(s, files, rate_order()) && short == s.take(short.len() as int);
    let s2 = choose|s: Seq<FileBreakdown>|
        #[trigger] is_stable_sort_of(s, files, rate_order()) && long == s.take(long.len() as int);
    lemma_stable_sort_unique(s1, s2, files, rate_order());
    let p1 = choose|p: Seq<int>| stable_arrangement(s1, files, p, rate_order());
    assert(s1.len() == files.len());
    assert(short =~= long.take(short.len() as int));
}

/// The files `weakest_files` returns are in ascending kill-rate order.
pub proof fn law_weakest_files_ascending(files: Seq<FileBreakdown>, sorted: Seq<FileBreakdown>, m: int)
    requires
        is_stable_sort_of(sorted, files, rate_order()),
        0 <= m <= sorted.len(),
    ensures
        sorted_by(sorted.take(m), rate_order()),
{
    let perm = choose|perm: Seq<int>| stable_arrangement(sorted, files, perm, rate_order());
    assert forall|i: int, j: int| 0 <= i < j < sorted.take(m).len() implies #[trigger] rate_order()(
        sorted.take(m)[i],
        sorted.take(m)[j],
    ) by {
        assert(sorted.take(m)[i] == sorted[i] && sorted.take(m)[j] == sorted[j]);
    }
}

/// What a finished run reports (a tally followed by the allow-list): the
/// survivors are in ascending `(file, line)` order, no more than the
/// surviving count, killed plus survived is what the tally counted, killed
/// only grew, and killed, survived and timed out together never exceed the
/// total.
pub proof fn law_finished_run(
    t: MutateResult,
    r: MutateResult,
    recs: Seq<Option<MutantRecord>>,
    subject: Seq<char>,
    version: Seq<char>,
    allow: Seq<Seq<char>>,
)
    requires
        is_tally_of(t, recs, subject, version),
        reclassified(r, t, allow),
    ensures
        sorted_by(survivor_views(r.survivors@), survivor_order()),
        r.survivors@.len() <= r.mutants_survived,
        r.mutants_killed + r.mutants_survived == t.mutants_killed + t.mutants_survived,
        r.mutants_killed >= t.mutants_killed,
        r.mutants_killed + r.mutants_survived + r.mutants_timeout <= r.mutants_total,
{
    law_tally_counts(t, recs, subject, version);
    law_tally_survivors_sorted(t, recs, subject, version);
    law_allow_list_keeps_order(t, r, allow);
    law_allow_list_raises_kill_rate(t, r, allow);
}

// ---------------------------------------------------------------------------
// The argument list
// ---------------------------------------------------------------------------

proof fn lemma_flag_pairs_shape(flag: Seq<char>, vs: Seq<Seq<char>>)
    ensures
        flag_pairs(flag, vs).len() == 2 * vs.len(),
        forall|i: int| 0 <= i < vs.len() ==> #[trigger] flag_pairs(flag, vs)[2 * i] === flag,
        forall|i: int| 0 <= i < vs.len() ==> #[trigger] flag_pairs(flag, vs)[2 * i + 1] === vs[i],
    decreases vs.len(),
{
    if vs.len() > 0 {
        let d = vs.drop_last();
        lemma_flag_pairs_shape(flag, d);
        let f = flag_pairs(flag, vs);
        let g = flag_pairs(flag, d);
        assert(f == g + seq![flag, vs.last()]);
        assert forall|i: int| 0 <= i < vs.len() implies #[trigger] f[2 * i] === flag by {
            if i < d.len() {
                assert(f[2 * i] == g[2 * i]);
            } else {
                assert(f[2 * i] == seq![flag, vs.last()][0]);
            }
        }
        assert forall|i: int| 0 <= i < vs.len() implies #[trigger] f[2 * i + 1] === vs[i] by {
            if i < d.len() {
                assert(f[2 * i + 1] == g[2 * i + 1]);
                assert(d[i] == vs[i]);
            } else {
                assert(f[2 * i + 1] == seq![flag, vs.last()][1]);
            }
        }
    }
}

/// Number of arguments `--workspace`, `--jobs <n>` and `--timeout <s>` take.
pub open spec fn optional_arg_count(c: RunConfigView) -> int {
    (if c.workspace { 1int } else { 0int }) + (if c.jobs is Some { 2int } else { 0int }) + (
    if c.timeout is Some { 2int } else { 0int })
}

/// The argument list of a configuration: `mutants --json --no-shuffle`
/// first; then `--workspace` when set, `--jobs <n>` when a job count is
/// set, and `--timeout <s>` with the whole seconds of the timeout (at
/// least 1) when one is set; then every `--exclude-re` pattern and every
/// `--file` pattern, each right after its own flag, in the order given.
/// So there are exactly as many `--exclude-re` and `--file` pairs as
/// patterns.
pub proof fn law_mutants_args_pass_every_filter(c: RunConfigView)
    ensures
        ({
            let a = mutants_args_of(c);
            let k = 3 + optional_arg_count(c);
            let m = c.exclude_re.len() as int;
            let n = c.file_filters.len() as int;
            &&& a.len() == k + 2 * m + 2 * n
            &&& a[0] == "mutants"@
            &&& a[1] == "--json"@
            &&& a[2] == "--no-shuffle"@
            &&& c.workspace ==> a[3] == "--workspace"@
            &&& ({
                let p = if c.workspace {
                    4int
                } else {
                    3int
                };
                let q = if c.jobs is Some {
                    p + 2
                } else {
                    p
                };
                &&& (c.jobs matches Some(j) ==> a[p] == "--jobs"@ && a[p + 1] == decimal(j as nat))
                &&& (c.timeout matches Some((secs, nanos)) ==> a[q] == "--timeout"@ && a[q + 1]
                    == decimal(if secs == 0 { 1nat } else { secs as nat }))
            })
            &&& forall|i: int|
                0 <= i < m ==> a[k + 2 * i] == "--exclude-re"@ && a[k + 2 * i + 1]
                    == #[trigger] c.exclude_re[i]
            &&& forall|i: int|
                0 <= i < n ==> a[k + 2 * m + 2 * i] == "--file"@ && a[k + 2 * m + 2 * i + 1]
                    == #[trigger] c.file_filters[i]
        }),
{
    let head = seq!["mutants"@, "--json"@, "--no-shuffle"@] + workspace_args(c.workspace) + jobs_args(
        c.jobs,
    ) + timeout_args(c.timeout);
    let ex = flag_pairs("--exclude-re"@, c.exclude_re);
    let fi = flag_pairs("--file"@, c.file_filters);
    lemma_flag_pairs_shape("--exclude-re"@, c.exclude_re);
    lemma_flag_pairs_shape("--file"@, c.file_filters);
    let a = mutants_args_of(c);
    assert(a == head + ex + fi);
    let k = 3 + optional_arg_count(c);
    let m = c.exclude_re.len() as int;
    assert(head.len() == k);
    assert(a[0] == head[0] && a[1] == head[1] && a[2] == head[2]);
    let w = workspace_args(c.workspace);
    let jb = jobs_args(c.jobs);
    let tm = timeout_args(c.timeout);
    let h3 = seq!["mutants"@, "--json"@, "--no-shuffle"@];
    assert(head == h3 + w + jb + tm);
    let p: int = 3 + w.len() as int;
    let q: int = p + jb.len() as int;
    if c.workspace {
        assert(a[3] == head[3] && head[3] == w[0]);
    }
    if c.jobs is Some {
        assert(a[p] == head[p] && head[p] == jb[0]);
        assert(a[p + 1] == head[p + 1] && head[p + 1] == jb[1]);
    }
    if c.timeout is Some {
        assert(a[q] == head[q] && head[q] == tm[0]);
        assert(a[q + 1] == head[q + 1] && head[q + 1] == tm[1]);
    }
    assert forall|i: int| 0 <= i < m implies a[k + 2 * i] == "--exclude-re"@ && a[k + 2 * i + 1]
        == #[trigger] c.exclude_re[i] by {
        assert(ex[2 * i] == "--exclude-re"@);
        assert(ex[2 * i + 1] == c.exclude_re[i]);
        assert(a[k + 2 * i] == ex[2 * i]);
        assert(a[k + 2 * i + 1] == ex[2 * i + 1]);
    }
    assert forall|i: int| 0 <= i < c.file_filters.len() implies a[k + 2 * m + 2 * i] == "--file"@
        && a[k + 2 * m + 2 * i + 1] == #[trigger] c.file_filters[i] by {
        assert(fi[2 * i] == "--file"@);
        assert(fi[2 * i + 1] == c.file_filters[i]);
        assert(a[k + 2 * m + 2 * i] == fi[2 * i]);
        assert(a[k + 2 * m + 2 * i + 1] == fi[2 * i + 1]);
    }
}

// ---------------------------------------------------------------------------
// Outcome classification
// ---------------------------------------------------------------------------

/// An outcome is classified by the text of its label (`label`: a plain
/// string, or the first key of a tagged object; empty otherwise) with
/// ASCII letters lowered (`l`): it is `Caught` exactly when that text contains `caught`;
/// `Missed` exactly when it contains `missed` but not `caught`; `Timeout`
/// exactly when it contains `timeout` but neither of the others; and
/// `Other` (counted in the total only) exactly when it contains none of
/// the three, so labels such as `Success`, `Failure` or `Unviable` never
/// count as killed, survived or timed out.
pub proof fn law_outcome_classification(v: OutcomeValue, label: Seq<char>, l: Seq<char>)
    requires
        label == match v {
            OutcomeValue::Plain(s) => s@,
            OutcomeValue::Tagged(keys) => if keys@.len() > 0 {
                keys@[0]@
            } else {
                Seq::<char>::empty()
            },
            OutcomeValue::Other => Seq::<char>::empty(),
        },
        l.len() == label.len(),
        forall|j: int|
            0 <= j < l.len() ==> #[trigger] l[j] == if 'A' <= label[j] && label[j] <= 'Z' {
                ((label[j] as u32) + 32) as char
            } else {
                label[j]
            },
    ensures
        ({
            let caught = exists|i: int|
                0 <= i && i + 6 <= l.len() && #[trigger] l.subrange(i, i + 6) == seq![
                    'c',
                    'a',
                    'u',
                    'g',
                    'h',
                    't',
                ];
            let missed = exists|i: int|
                0 <= i && i + 6 <= l.len() && #[trigger] l.subrange(i, i + 6) == seq![
                    'm',
                    'i',
                    's',
                    's',
                    'e',
                    'd',
                ];
            let timeout = exists|i: int|
                0 <= i && i + 7 <= l.len() && #[trigger] l.subrange(i, i + 7) == seq![
                    't',
                    'i',
                    'm',
                    'e',
                    'o',
                    'u',
                    't',
                ];
            let o = classify_label(outcome_label(v));
            &&& (o == Outcome::Caught <==> caught)
            &&& (o == Outcome::Missed <==> !caught && missed)
            &&& (o == Outcome::Timeout <==> !caught && !missed && timeout)
            &&& (o == Outcome::Other <==> !caught && !missed && !timeout)
        }),
{
    assert(l =~= ascii_lower_seq(label));
    let pc = seq!['c', 'a', 'u', 'g', 'h', 't'];
    let pm = seq!['m', 'i', 's', 's', 'e', 'd'];
    let pt = seq!['t', 'i', 'm', 'e', 'o', 'u', 't'];
    assert(pc.len() == 6 && pm.len() == 6 && pt.len() == 7);
    assert(contains_seq(l, pc) == exists|i: int|
        0 <= i && i + 6 <= l.len() && #[trigger] l.subrange(i, i + 6) == pc);
    assert(contains_seq(l, pm) == exists|i: int|
        0 <= i && i + 6 <= l.len() && #[trigger] l.subrange(i, i + 6) == pm);
    assert(contains_seq(l, pt) == exists|i: int|
        0 <= i && i + 7 <= l.len() && #[trigger] l.subrange(i, i + 7) == pt);
    let o = classify_label(label);
    if contains_seq(l, pc) {
        assert(o == Outcome::Caught);
    } else if contains_seq(l, pm) {
        assert(o == Outcome::Missed);
    } else if contains_seq(l, pt) {
        assert(o == Outcome::Timeout);
    } else {
        assert(o == Outcome::Other);
    }
}

// ---------------------------------------------------------------------------
// Survivors of a tally
// ---------------------------------------------------------------------------

proof fn lemma_missed_survivors_from(ms: Seq<MutantRecord>)
    ensures
        forall|j: int|
            0 <= j < missed_survivors(ms).len() ==> exists|k: int|
                0 <= k < ms.len() && record_outcome(ms[k]) == Outcome::Missed
                    && #[trigger] missed_survivors(ms)[j] == survivor_of(ms[k]),
    decreases ms.len(),
{
    if ms.len() > 0 {
        let d = ms.drop_last();
        lemma_missed_survivors_from(d);
        let rest = missed_survivors(d);
        assert forall|j: int| 0 <= j < missed_survivors(ms).len() implies exists|k: int|
            0 <= k < ms.len() && record_outcome(ms[k]) == Outcome::Missed
                && #[trigger] missed_survivors(ms)[j] == survivor_of(ms[k]) by {
            if j < rest.len() {
                let k = choose|k: int|
                    0 <= k < d.len() && record_outcome(d[k]) == Outcome::Missed
                        && #[trigger] rest[j] == survivor_of(d[k]);
                assert(d[k] == ms[k]);
                assert(missed_survivors(ms)[j] == rest[j]);
            } else {
                assert(ms[ms.len() - 1] == ms.last());
            }
        }
    }
}

/// `s` carries exactly what the mutant record `m` says of its mutant: its
/// file (`<unknown>` when the record names none), line, description, and
/// the function it lived in.
pub open spec fn carries_record(s: SurvivingMutant, m: MutantRecord) -> bool {
    &&& s.file@ == if m.file@.len() == 0 {
        "<unknown>"@
    } else {
        m.file@
    }
    &&& s.line == m.line
    &&& s.description@ == m.description@
    &&& match (s.function, m.function) {
        (Some(f), Some(g)) => f@ == g@,
        (None, None) => true,
        _ => false,
    }
}

/// `s` carries what one missed record of `ms` says of its mutant.
pub open spec fn carries_missed_record(s: SurvivingMutant, ms: Seq<MutantRecord>) -> bool {
    exists|k: int|
        0 <= k < ms.len() && record_outcome(ms[k]) == Outcome::Missed && carries_record(
            s,
            #[trigger] ms[k],
        )
}

/// Every survivor a tally lists is one missed mutant record, field for
/// field: the record's file (or `<unknown>`), line, description, and the
/// function it lived in, unchanged (a record naming function `f` gives a
/// survivor naming `f`).
pub proof fn law_tally_survivors_carry_records(
    t: MutateResult,
    recs: Seq<Option<MutantRecord>>,
    subject: Seq<char>,
    version: Seq<char>,
)
    requires
        is_tally_of(t, recs, subject, version),
    ensures
        forall|i: int|
            0 <= i < t.survivors@.len() ==> carries_missed_record(
                #[trigger] t.survivors@[i],
                mutant_records(recs),
            ),
{
    let ms = mutant_records(recs);
    let perm = choose|perm: Seq<int>|
        stable_arrangement(survivor_views(t.survivors@), missed_survivors(ms), perm, survivor_order());
    lemma_missed_survivors_from(ms);
    assert forall|i: int| 0 <= i < t.survivors@.len() implies carries_missed_record(
        #[trigger] t.survivors@[i],
        ms,
    ) by {
        let j = perm[i];
        assert(survivor_views(t.survivors@)[i] == missed_survivors(ms)[j]);
        let k = choose|k: int|
            0 <= k < ms.len() && record_outcome(ms[k]) == Outcome::Missed
                && #[trigger] missed_survivors(ms)[j] == survivor_of(ms[k]);
        assert(t.survivors@[i]@ == survivor_of(ms[k]));
        assert(carries_record(t.survivors@[i], ms[k]));
    }
}

// ---------------------------------------------------------------------------
// Kill-rate ranking
// ---------------------------------------------------------------------------

/// The ranking `weakest_files` cuts its answer from lists every file once
/// and goes by kill rate `killed / (killed + survived)`, a file with
/// nothing counted having rate 0: of two files, the earlier one `a` and
/// the later one `b`, when both have counts
/// `a.killed * (b.killed + b.survived) <= b.killed * (a.killed + a.survived)`,
/// and when `b` has none, `a` killed nothing. So a file with a strictly
/// lower kill rate always comes first, whatever its raw counts.
pub proof fn law_weakest_files_by_kill_rate(files: Seq<FileBreakdown>, sorted: Seq<FileBreakdown>)
    requires
        is_stable_sort_of(sorted, files, rate_order()),
    ensures
        sorted.len() == files.len(),
        forall|i: int, j: int|
            0 <= i < j < sorted.len() ==> {
                let a = #[trigger] sorted[i];
                let b = #[trigger] sorted[j];
                &&& (a.killed + a.survived > 0 && b.killed + b.survived > 0) ==> a.killed * (
                b.killed + b.survived) <= b.killed * (a.killed + a.survived)
                &&& b.killed + b.survived == 0 ==> a.killed == 0
            },
{
    let perm = choose|perm: Seq<int>| stable_arrangement(sorted, files, perm, rate_order());
    assert forall|i: int, j: int| 0 <= i < j < sorted.len() implies {
        let a = #[trigger] sorted[i];
        let b = #[trigger] sorted[j];
        &&& (a.killed + a.survived > 0 && b.killed + b.survived > 0) ==> a.killed * (b.killed
            + b.survived) <= b.killed * (a.killed + a.survived)
        &&& b.killed + b.survived == 0 ==> a.killed == 0
    } by {
        let a = sorted[i];
        let b = sorted[j];
        assert(rate_order()(a, b));
        assert(rate_le(a, b));
        if b.killed + b.survived == 0 {
            assert(rate_num(b) * rate_den(a) == 0) by (nonlinear_arith)
                requires
                    rate_num(b) == 0,
            ;
            assert(rate_num(a) * rate_den(b) == rate_num(a));
        }
    }
}

/// Files are ranked by kill rate alone: a file whose killed and surviving
/// counts are those of another scaled by the same factor ranks against
/// every third file exactly as that other file does.
pub proof fn law_kill_rate_ignores_scale(a: FileBreakdown, b: FileBreakdown, x: FileBreakdown, m: int)
    requires
        m > 0,
        b.killed == m * a.killed,
        b.survived == m * a.survived,
    ensures
        rate_order()(a, x) == rate_order()(b, x),
        rate_order()(x, a) == rate_order()(x, b),
{
    let xn = rate_num(x);
    let xd = rate_den(x);
    if a.killed + a.survived == 0 {
        assert(b.killed + b.survived == m * (a.killed + a.survived)) by (nonlinear_arith)
            requires
                b.killed == m * a.killed,
                b.survived == m * a.survived,
        ;
        assert(b.killed + b.survived == 0) by (nonlinear_arith)
            requires
                b.killed + b.survived == m * (a.killed + a.survived),
                a.killed + a.survived == 0,
        ;
    } else {
        let an = a.killed as int;
        let ad = a.killed + a.survived;
        assert(b.killed + b.survived == m * ad) by (nonlinear_arith)
            requires
                b.killed == m * a.killed,
                b.survived == m * a.survived,
                ad == a.killed + a.survived,
        ;
        assert(m * ad > 0) by (nonlinear_arith)
            requires
                m > 0,
                ad > 0,
        ;
        assert(rate_num(b) == m * an && rate_den(b) == m * ad);
        assert((m * an) * xd <= xn * (m * ad) <==> an * xd <= xn * ad) by (nonlinear_arith)
            requires
                m > 0,
        ;
        assert(xn * (m * ad) <= (m * an) * xd <==> xn * ad <= an * xd) by (nonlinear_arith)
            requires
                m > 0,
        ;
    }
}

// ---------------------------------------------------------------------------
// Allow-list
// ---------------------------------------------------------------------------

proof fn lemma_without_allowed_is_filter(s: Seq<SurvivingMutant>, allow: Seq<Seq<char>>)
    ensures
        without_allowed(s, allow) == s.filter(|m: SurvivingMutant| !allow.contains(m.description@)),
        s.filter(|m: SurvivingMutant| allow.contains(m.description@)).len() + without_allowed(
            s,
            allow,
        ).len() == s.len(),
    decreases s.len(),
{
    reveal(Seq::filter);
    if s.len() > 0 {
        lemma_without_allowed_is_filter(s.drop_last(), allow);
    }
}

/// The allow-list removes a survivor exactly when its description equals
/// one of the entries; a description that merely contains an entry, or is
/// contained in one, stays. The survivors left are those whose description
/// is no entry, in their order, and exactly the removed ones move from
/// survived to killed (saturating at the bounds of `u64`).
pub proof fn law_allow_list_exact_match(old: MutateResult, r: MutateResult, allow: Seq<Seq<char>>)
    requires
        reclassified(r, old, allow),
    ensures
        r.survivors@ == old.survivors@.filter(
            |m: SurvivingMutant| !allow.contains(m.description@),
        ),
        ({
            let removed = old.survivors@.filter(
                |m: SurvivingMutant| allow.contains(m.description@),
            ).len();
            &&& r.survivors@.len() + removed == old.survivors@.len()
            &&& r.mutants_killed == if old.mutants_killed + removed <= u64::MAX {
                old.mutants_killed + removed
            } else {
                u64::MAX as int
            }
            &&& r.mutants_survived == if old.mutants_survived >= removed {
                old.mutants_survived - removed
            } else {
                0
            }
        }),
{
    lemma_without_allowed_is_filter(old.survivors@, allow);
    assert(old.survivors.len() == old.survivors@.len());
}

} // verus!
