//! The result of a mutation-testing run: survivors, per-file breakdown,
//! kill rates, the weakest files and the allow-list reclassification.
use vstd::prelude::*;

use crate::order::{is_stable_sort_of, lemma_stable_insert, stable_arrangement, total_preorder};
use crate::text::{chars_less, chars_lt, chars_of, lemma_chars_lt_total, lemma_chars_lt_transitive, push_str};

verus! {

// ---------------------------------------------------------------------------
// SurvivingMutant
// ---------------------------------------------------------------------------

/// A surviving mutant: one the test suite did not catch.
#[derive(Debug, Clone)]
pub struct SurvivingMutant {
    /// Source file the mutation was applied to.
    pub file: String,
    /// Line number (1-indexed).
    pub line: u32,
    /// Description of the mutation (e.g. "replace `+` with `-`").
    pub description: String,
    /// Function the mutation lived in, when the underlying tool exposed it.
    pub function: Option<String>,
}

/// The abstract content of a `SurvivingMutant`.
pub struct SurvivorView {
    pub file: Seq<char>,
    pub line: u32,
    pub description: Seq<char>,
    pub function: Option<Seq<char>>,
}

impl View for SurvivingMutant {
    type V = SurvivorView;

    open spec fn view(&self) -> SurvivorView {
        SurvivorView {
            file: self.file@,
            line: self.line,
            description: self.description@,
            function: match self.function {
                Some(f) => Some(f@),
                None => None,
            },
        }
    }
}

/// The views of a sequence of survivors.
pub open spec fn survivor_views(s: Seq<SurvivingMutant>) -> Seq<SurvivorView> {
    s.map_values(|m: SurvivingMutant| m@)
}

/// Survivor order: by file (code point order), then by line.
pub open spec fn survivor_le(a: SurvivorView, b: SurvivorView) -> bool {
    chars_lt(a.file, b.file) || (a.file == b.file && a.line <= b.line)
}

/// `survivor_le` as a relation value.
pub open spec fn survivor_order() -> spec_fn(SurvivorView, SurvivorView) -> bool {
    |a: SurvivorView, b: SurvivorView| survivor_le(a, b)
}

/// The survivor order is a total preorder.
pub proof fn lemma_survivor_order()
    ensures
        total_preorder(survivor_order()),
{
    assert forall|a: SurvivorView, b: SurvivorView|
        #[trigger] survivor_order()(a, b) || survivor_order()(b, a) by {
        lemma_chars_lt_total(a.file, b.file);
    }
    assert forall|a: SurvivorView, b: SurvivorView, c: SurvivorView|
        #[trigger] survivor_order()(a, b) && #[trigger] survivor_order()(b, c) implies survivor_order()(
        a,
        c,
    ) by {
        if chars_lt(a.file, b.file) && chars_lt(b.file, c.file) {
            lemma_chars_lt_transitive(a.file, b.file, c.file);
        }
    }
}

/// `survivor_le(a@, b@)`.
fn survivor_leq(a: &SurvivingMutant, b: &SurvivingMutant) -> (r: bool)
    ensures
        r == survivor_le(a@, b@),
{
    let fa = chars_of(a.file.as_str());
    let fb = chars_of(b.file.as_str());
    if chars_less(&fa, &fb) {
        true
    } else {
        a.file == b.file && a.line <= b.line
    }
}

/// Stable sort of survivors by `(file, line)`.
pub fn sort_survivors(v: Vec<SurvivingMutant>) -> (r: Vec<SurvivingMutant>)
    ensures
        is_stable_sort_of(survivor_views(r@), survivor_views(v@), survivor_order()),
{
    let ghost inp = survivor_views(v@);
    let ghost le = survivor_order();
    proof {
        lemma_survivor_order();
    }
    let mut out: Vec<SurvivingMutant> = Vec::new();
    let ghost mut perm: Seq<int> = Seq::empty();
    let mut k: usize = 0;
    let n = v.len();
    assert(survivor_views(out@) =~= Seq::<SurvivorView>::empty());
    assert(inp.take(0) =~= Seq::<SurvivorView>::empty());
    for x in it: v
        invariant
            inp == survivor_views(v@),
            it.seq() == v@,
            n == v@.len(),
            k == it.index(),
            le == survivor_order(),
            total_preorder(le),
            stable_arrangement(survivor_views(out@), inp.take(k as int), perm, le),
    {
        assert(k < n);
        assert(x@ == inp[k as int]);
        let mut p: usize = 0;
        while p < out.len() && survivor_leq(&out[p], &x)
            invariant
                p <= out.len(),
                forall|i: int| 0 <= i < p ==> #[trigger] le(survivor_views(out@)[i], x@),
                le == survivor_order(),
            decreases out.len() - p,
        {
            p = p + 1;
        }
        proof {
            lemma_stable_insert(survivor_views(out@), inp, perm, le, k as int, p as int);
            perm = perm.insert(p as int, k as int);
        }
        let ghost before = out@;
        out.insert(p, x);
        assert(survivor_views(out@) =~= survivor_views(before).insert(p as int, inp[k as int]));
        k = k + 1;
    }
    assert(inp.take(k as int) =~= inp);
    out
}

// ---------------------------------------------------------------------------
// FileBreakdown
// ---------------------------------------------------------------------------

/// Per-file mutation outcome counts.
#[derive(Debug, Clone)]
pub struct FileBreakdown {
    /// Source file path.
    pub file: String,
    /// Mutants caught by the test suite (for this file).
    pub killed: u64,
    /// Mutants the test suite missed (for this file).
    pub survived: u64,
    /// Mutants that timed out (excluded from the kill rate).
    pub timeout: u64,
}

/// The kill rate of `killed` and `survived` as an exact fraction
/// `(killed, killed + survived)`, or `None` when nothing was counted (a
/// kill rate of 0). Timeouts play no part.
pub open spec fn kill_ratio_of(killed: u64, survived: u64) -> Option<(u64, u64)> {
    if killed + survived == 0 {
        None
    } else {
        Some((killed, (killed + survived) as u64))
    }
}

/// Numerator of a file's kill rate (0 when nothing was counted).
pub open spec fn rate_num(f: FileBreakdown) -> int {
    if f.killed + f.survived == 0 {
        0
    } else {
        f.killed as int
    }
}

/// Denominator of a file's kill rate (1 when nothing was counted).
pub open spec fn rate_den(f: FileBreakdown) -> int {
    if f.killed + f.survived == 0 {
        1
    } else {
        f.killed + f.survived
    }
}

/// The kill rate of `a` is at most that of `b`.
pub open spec fn rate_le(a: FileBreakdown, b: FileBreakdown) -> bool {
    rate_num(a) * rate_den(b) <= rate_num(b) * rate_den(a)
}

/// `rate_le` as a relation value.
pub open spec fn rate_order() -> spec_fn(FileBreakdown, FileBreakdown) -> bool {
    |a: FileBreakdown, b: FileBreakdown| rate_le(a, b)
}

proof fn lemma_fraction_le_transitive(a: int, b: int, c: int, d: int, e: int, f: int)
    requires
        a >= 0,
        c >= 0,
        e >= 0,
        b > 0,
        d > 0,
        f > 0,
        a * d <= c * b,
        c * f <= e * d,
    ensures
        a * f <= e * b,
{
    assert(a * d * f <= c * b * f) by (nonlinear_arith)
        requires
            a * d <= c * b,
            f > 0,
    ;
    assert(c * f * b <= e * d * b) by (nonlinear_arith)
        requires
            c * f <= e * d,
            b > 0,
    ;
    assert(a * f * d <= e * b * d) by (nonlinear_arith)
        requires
            a * d * f <= c * b * f,
            c * f * b <= e * d * b,
    ;
    assert(a * f <= e * b) by (nonlinear_arith)
        requires
            a * f * d <= e * b * d,
            d > 0,
    ;
}

/// The kill-rate order is a total preorder.
pub proof fn lemma_rate_order()
    ensures
        total_preorder(rate_order()),
{
    assert forall|a: FileBreakdown, b: FileBreakdown, c: FileBreakdown|
        #[trigger] rate_order()(a, b) && #[trigger] rate_order()(b, c) implies rate_order()(a, c) by {
        lemma_fraction_le_transitive(
            rate_num(a),
            rate_den(a),
            rate_num(b),
            rate_den(b),
            rate_num(c),
            rate_den(c),
        );
    }
}

impl FileBreakdown {
    /// Kill rate of this file as `(killed, killed + survived)`, or `None`
    /// when nothing was counted. Timeouts excluded.
    pub fn kill_ratio(&self) -> (r: Option<(u64, u64)>)
        requires
            self.killed + self.survived <= u64::MAX,
        ensures
            r == kill_ratio_of(self.killed, self.survived),
    {
        if self.killed + self.survived == 0 {
            None
        } else {
            Some((self.killed, self.killed + self.survived))
        }
    }
}

/// `rate_le(*a, *b)`.
fn rate_leq(a: &FileBreakdown, b: &FileBreakdown) -> (r: bool)
    requires
        a.killed + a.survived <= u64::MAX,
        b.killed + b.survived <= u64::MAX,
    ensures
        r == rate_le(*a, *b),
{
    let (an, ad): (u128, u128) = match a.kill_ratio() {
        Some((k, c)) => (k as u128, c as u128),
        None => (0, 1),
    };
    let (bn, bd): (u128, u128) = match b.kill_ratio() {
        Some((k, c)) => (k as u128, c as u128),
        None => (0, 1),
    };
    assert(an * bd <= u64::MAX * u64::MAX) by (nonlinear_arith)
        requires
            an <= u64::MAX,
            bd <= u64::MAX,
    ;
    assert(bn * ad <= u64::MAX * u64::MAX) by (nonlinear_arith)
        requires
            bn <= u64::MAX,
            ad <= u64::MAX,
    ;
    an * bd <= bn * ad
}

/// The values behind a sequence of references.
pub open spec fn deref_all(s: Seq<&FileBreakdown>) -> Seq<FileBreakdown> {
    s.map_values(|f: &FileBreakdown| *f)
}

// ---------------------------------------------------------------------------
// MutateResult
// ---------------------------------------------------------------------------

/// Result of a mutation testing run.
#[derive(Debug, Clone)]
pub struct MutateResult {
    /// Subject name.
    pub name: String,
    /// Subject version.
    pub version: String,
    /// Total mutants generated.
    pub mutants_total: u64,
    /// Mutants caught by the test suite.
    pub mutants_killed: u64,
    /// Mutants the test suite missed.
    pub mutants_survived: u64,
    /// Mutants that timed out (excluded from the kill rate).
    pub mutants_timeout: u64,
    /// Per-survivor detail (sorted by `(file, line)`).
    pub survivors: Vec<SurvivingMutant>,
    /// Per-file breakdown (sorted by `file`).
    pub files: Vec<FileBreakdown>,
}

/// The survivors whose description is not in `allow`, in their order.
pub open spec fn without_allowed(s: Seq<SurvivingMutant>, allow: Seq<Seq<char>>) -> Seq<SurvivingMutant>
    decreases s.len(),
{
    if s.len() == 0 {
        s
    } else {
        let rest = without_allowed(s.drop_last(), allow);
        if allow.contains(s.last().description@) {
            rest
        } else {
            rest.push(s.last())
        }
    }
}

/// `r` is `old` with the survivors named in `allow` removed and counted
/// as killed instead.
pub open spec fn reclassified(r: MutateResult, old: MutateResult, allow: Seq<Seq<char>>) -> bool {
    let kept = without_allowed(old.survivors@, allow);
    let removed = (old.survivors@.len() - kept.len()) as u64;
    &&& r.survivors@ == kept
    &&& r.mutants_survived == if old.mutants_survived >= removed {
        (old.mutants_survived - removed) as u64
    } else {
        0u64
    }
    &&& r.mutants_killed == if old.mutants_killed + removed <= u64::MAX {
        (old.mutants_killed + removed) as u64
    } else {
        u64::MAX
    }
    &&& r.name == old.name
    &&& r.version == old.version
    &&& r.mutants_total == old.mutants_total
    &&& r.mutants_timeout == old.mutants_timeout
    &&& r.files == old.files
}

pub proof fn lemma_without_allowed_len(s: Seq<SurvivingMutant>, allow: Seq<Seq<char>>)
    ensures
        without_allowed(s, allow).len() <= s.len(),
    decreases s.len(),
{
    if s.len() > 0 {
        lemma_without_allowed_len(s.drop_last(), allow);
    }
}

/// `d` is one of `allow`.
fn is_allowed(allow: &[String], d: &String) -> (r: bool)
    ensures
        r == allow@.map_values(|a: String| a@).contains(d@),
{
    let ghost views = allow@.map_values(|a: String| a@);
    let mut i: usize = 0;
    while i < allow.len()
        invariant
            i <= allow.len(),
            views == allow@.map_values(|a: String| a@),
            forall|k: int| 0 <= k < i ==> views[k] != d@,
        decreases allow.len() - i,
    {
        if allow[i] == *d {
            assert(views[i as int] == d@);
            return true;
        }
        i = i + 1;
    }
    false
}

impl MutateResult {
    /// Kill rate as `(killed, killed + survived)`, or `None` when nothing was
    /// counted (a kill rate of 0). Timeouts excluded.
    pub fn kill_ratio(&self) -> (r: Option<(u64, u64)>)
        requires
            self.mutants_killed + self.mutants_survived <= u64::MAX,
        ensures
            r == kill_ratio_of(self.mutants_killed, self.mutants_survived),
    {
        if self.mutants_killed + self.mutants_survived == 0 {
            None
        } else {
            Some((self.mutants_killed, self.mutants_killed + self.mutants_survived))
        }
    }

    /// The `n` files with the lowest kill rate, ascending; files with equal
    /// kill rates keep their order in `files`.
    pub fn weakest_files(&self, n: usize) -> (r: Vec<&FileBreakdown>)
        requires
            forall|i: int|
                0 <= i < self.files@.len() ==> #[trigger] self.files@[i].killed
                    + self.files@[i].survived <= u64::MAX,
        ensures
            r@.len() == if n < self.files@.len() {
                n as int
            } else {
                self.files@.len() as int
            },
            exists|sorted: Seq<FileBreakdown>|
                #[trigger] is_stable_sort_of(sorted, self.files@, rate_order()) && deref_all(r@)
                    == sorted.take(r@.len() as int),
    {
        let ghost inp = self.files@;
        let ghost le = rate_order();
        proof {
            lemma_rate_order();
        }
        let mut out: Vec<&FileBreakdown> = Vec::new();
        let ghost mut perm: Seq<int> = Seq::empty();
        let mut k: usize = 0;
        assert(deref_all(out@) =~= Seq::<FileBreakdown>::empty());
        assert(inp.take(0) =~= Seq::<FileBreakdown>::empty());
        while k < self.files.len()
            invariant
                k <= self.files.len(),
                inp == self.files@,
                le == rate_order(),
                total_preorder(le),
                forall|i: int|
                    0 <= i < self.files@.len() ==> #[trigger] self.files@[i].killed
                        + self.files@[i].survived <= u64::MAX,
                forall|i: int|
                    0 <= i < out@.len() ==> #[trigger] out@[i].killed + out@[i].survived
                        <= u64::MAX,
                stable_arrangement(deref_all(out@), inp.take(k as int), perm, le),
            decreases self.files.len() - k,
        {
            let x = &self.files[k];
            let mut p: usize = 0;
            while p < out.len() && rate_leq(out[p], x)
                invariant
                    p <= out.len(),
                    x.killed + x.survived <= u64::MAX,
                    forall|i: int|
                        0 <= i < out@.len() ==> #[trigger] out@[i].killed + out@[i].survived
                            <= u64::MAX,
                    forall|i: int| 0 <= i < p ==> #[trigger] le(deref_all(out@)[i], *x),
                    le == rate_order(),
                decreases out.len() - p,
            {
                p = p + 1;
            }
            proof {
                lemma_stable_insert(deref_all(out@), inp, perm, le, k as int, p as int);
                perm = perm.insert(p as int, k as int);
            }
            let ghost before = out@;
            out.insert(p, x);
            assert(deref_all(out@) =~= deref_all(before).insert(p as int, inp[k as int]));
            k = k + 1;
        }
        assert(inp.take(k as int) =~= inp);
        let ghost sorted = deref_all(out@);
        assert(stable_arrangement(sorted, inp, perm, le));
        assert(is_stable_sort_of(sorted, self.files@, rate_order()));
        let m = if n < out.len() {
            n
        } else {
            out.len()
        };
        out.truncate(m);
        assert(deref_all(out@) =~= sorted.take(m as int));
        out
    }

    /// Where the first survivor points: its file, and its line raised to at
    /// least 1. `None` without survivors.
    pub fn first_survivor_location(&self) -> (r: Option<(&str, u32)>)
        ensures
            match r {
                Some((file, line)) => self.survivors@.len() > 0 && file@
                    == self.survivors@[0].file@ && line == if self.survivors@[0].line < 1 {
                    1
                } else {
                    self.survivors@[0].line
                },
                None => self.survivors@.len() == 0,
            },
    {
        if self.survivors.len() == 0 {
            None
        } else {
            let first = &self.survivors[0];
            let line = if first.line < 1 {
                1
            } else {
                first.line
            };
            Some((first.file.as_str(), line))
        }
    }

    /// This result with every survivor whose description is in `allow`
    /// removed and reclassified as killed (saturating at the bounds of `u64`).
    pub fn reclassify_allowed(self, allow: &[String]) -> (r: MutateResult)
        ensures
            reclassified(r, self, allow@.map_values(|a: String| a@)),
    {
        let ghost views = allow@.map_values(|a: String| a@);
        let ghost olds = self.survivors@;
        let before = self.survivors.len();
        let n = before;
        let mut kept: Vec<SurvivingMutant> = Vec::new();
        let mut k: usize = 0;
        for s in it: self.survivors
            invariant
                it.seq() == olds,
                n == olds.len(),
                k == it.index(),
                views == allow@.map_values(|a: String| a@),
                kept@ == without_allowed(olds.take(k as int), views),
        {
            assert(k < n);
            assert(olds.take(k + 1).drop_last() =~= olds.take(k as int));
            assert(olds.take(k + 1).last() == s);
            if !is_allowed(allow, &s.description) {
                kept.push(s);
            }
            k = k + 1;
        }
        assert(olds.take(k as int) =~= olds);
        proof {
            lemma_without_allowed_len(olds, views);
        }
        let removed = (before - kept.len()) as u64;
        MutateResult {
            name: self.name,
            version: self.version,
            mutants_total: self.mutants_total,
            mutants_killed: self.mutants_killed.saturating_add(removed),
            mutants_survived: self.mutants_survived.saturating_sub(removed),
            mutants_timeout: self.mutants_timeout,
            survivors: kept,
            files: self.files,
        }
    }
}

/// The name of the check a run of `subject` reports: `mutate::<subject>`.
pub fn check_name(subject: &str) -> (r: String)
    ensures
        r@ == "mutate::"@ + subject@,
{
    let mut r = "mutate::".to_owned();
    push_str(&mut r, subject);
    r
}

// ---------------------------------------------------------------------------
// MutateError
// ---------------------------------------------------------------------------

/// Errors that can arise during a mutation testing run.
#[derive(Debug)]
pub enum MutateError {
    /// `cargo-mutants` is not installed.
    ToolNotInstalled,
    /// Subprocess returned a fatal error and no parseable JSON.
    SubprocessFailed(String),
    /// JSON output could not be parsed.
    ParseError(String),
}

/// The message of an error.
pub open spec fn error_message(e: MutateError) -> Seq<char> {
    match e {
        MutateError::ToolNotInstalled => "cargo-mutants is not installed; run `cargo install cargo-mutants`"@,
        MutateError::SubprocessFailed(s) => "cargo mutants failed: "@ + s@,
        MutateError::ParseError(s) => "could not parse cargo mutants output: "@ + s@,
    }
}

impl MutateError {
    /// Human-readable message (what `Display` shows).
    pub fn message(&self) -> (r: String)
        ensures
            r@ == error_message(*self),
    {
        match self {
            MutateError::ToolNotInstalled => {
                "cargo-mutants is not installed; run `cargo install cargo-mutants`".to_owned()
            },
            MutateError::SubprocessFailed(s) => {
                let mut r = "cargo mutants failed: ".to_owned();
                push_str(&mut r, s.as_str());
                r
            },
            MutateError::ParseError(s) => {
                let mut r = "could not parse cargo mutants output: ".to_owned();
                push_str(&mut r, s.as_str());
                r
            },
        }
    }
}

} // verus!
