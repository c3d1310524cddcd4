//! `MutateRun`: the configuration of one mutation-testing run, and the
//! `cargo mutants` argument list derived from it.
use vstd::prelude::*;

use crate::text::{decimal, decimal_string, string_views};

verus! {

/// The abstract content of a `MutateRun`.
pub struct RunConfigView {
    pub name: Seq<char>,
    pub version: Seq<char>,
    pub workdir: Option<Seq<char>>,
    pub workspace: bool,
    pub jobs: Option<u32>,
    /// `(whole seconds, sub-second nanoseconds)` of the per-mutant timeout.
    pub timeout: Option<(u64, u32)>,
    pub exclude_re: Seq<Seq<char>>,
    pub file_filters: Seq<Seq<char>>,
    pub allow_list: Seq<Seq<char>>,
}

/// Configuration for a mutation testing run.
#[derive(Debug)]
pub struct MutateRun {
    name: String,
    version: String,
    workdir: Option<String>,
    workspace: bool,
    jobs: Option<u32>,
    timeout: Option<(u64, u32)>,
    exclude_re: Vec<String>,
    file_filters: Vec<String>,
    allow_list: Vec<String>,
}

/// The view of an optional string.
pub open spec fn opt_view(o: Option<String>) -> Option<Seq<char>> {
    match o {
        Some(s) => Some(s@),
        None => None,
    }
}

impl View for MutateRun {
    type V = RunConfigView;

    closed spec fn view(&self) -> RunConfigView {
        RunConfigView {
            name: self.name@,
            version: self.version@,
            workdir: opt_view(self.workdir),
            workspace: self.workspace,
            jobs: self.jobs,
            timeout: self.timeout,
            exclude_re: string_views(self.exclude_re@),
            file_filters: string_views(self.file_filters@),
            allow_list: string_views(self.allow_list@),
        }
    }
}

/// A copy of `v`.
fn clone_strings(v: &Vec<String>) -> (r: Vec<String>)
    ensures
        r@ == v@,
{
    let mut r: Vec<String> = Vec::new();
    let mut i: usize = 0;
    while i < v.len()
        invariant
            i <= v.len(),
            r@ == v@.subrange(0, i as int),
        decreases v.len() - i,
    {
        r.push(v[i].clone());
        assert(r@ =~= v@.subrange(0, i + 1));
        i = i + 1;
    }
    assert(r@ =~= v@);
    r
}

impl Clone for MutateRun {
    fn clone(&self) -> (r: Self)
        ensures
            r@ == self@,
    {
        proof {
            use_type_invariant(self);
        }
        MutateRun {
            name: self.name.clone(),
            version: self.version.clone(),
            workdir: match &self.workdir {
                Some(d) => Some(d.clone()),
                None => None,
            },
            workspace: self.workspace,
            jobs: self.jobs,
            timeout: self.timeout,
            exclude_re: clone_strings(&self.exclude_re),
            file_filters: clone_strings(&self.file_filters),
            allow_list: clone_strings(&self.allow_list),
        }
    }
}

impl MutateRun {
    /// The configuration invariant: a stored timeout has fewer than 10^9
    /// sub-second nanoseconds.
    #[verifier::type_invariant]
    closed spec fn wf(&self) -> bool {
        match self.timeout {
            Some((_, nanos)) => nanos < 1_000_000_000,
            None => true,
        }
    }

    /// Begin a new mutation testing run. `name` and `version` identify the
    /// subject in the produced result.
    pub fn new(name: &str, version: &str) -> (r: Self)
        ensures
            r@ == (RunConfigView {
                name: name@,
                version: version@,
                workdir: None,
                workspace: false,
                jobs: None,
                timeout: None,
                exclude_re: Seq::empty(),
                file_filters: Seq::empty(),
                allow_list: Seq::empty(),
            }),
    {
        let r = MutateRun {
            name: name.to_owned(),
            version: version.to_owned(),
            workdir: None,
            workspace: false,
            jobs: None,
            timeout: None,
            exclude_re: Vec::new(),
            file_filters: Vec::new(),
            allow_list: Vec::new(),
        };
        assert(string_views(r.exclude_re@) =~= Seq::empty());
        assert(string_views(r.file_filters@) =~= Seq::empty());
        assert(string_views(r.allow_list@) =~= Seq::empty());
        r
    }

    /// Run `cargo mutants` from `dir` instead of the current directory.
    pub fn in_dir(self, dir: &str) -> (r: Self)
        ensures
            r@ == (RunConfigView { workdir: Some(dir@), ..self@ }),
    {
        proof {
            use_type_invariant(&self);
        }
        MutateRun { workdir: Some(dir.to_owned()), ..self }
    }

    /// Pass `--workspace` so every workspace member is mutated.
    pub fn workspace(self) -> (r: Self)
        ensures
            r@ == (RunConfigView { workspace: true, ..self@ }),
    {
        proof {
            use_type_invariant(&self);
        }
        MutateRun { workspace: true, ..self }
    }

    /// Pass `--jobs <n>` (parallel mutation runs).
    pub fn jobs(self, n: u32) -> (r: Self)
        ensures
            r@ == (RunConfigView { jobs: Some(n), ..self@ }),
    {
        proof {
            use_type_invariant(&self);
        }
        MutateRun { jobs: Some(n), ..self }
    }

    /// Per-mutant timeout of `secs` whole seconds and `subsec_nanos`
    /// nanoseconds (a `Duration`'s `as_secs` and `subsec_nanos`), passed as
    /// `--timeout <whole seconds, at least 1>`.
    pub fn timeout(self, secs: u64, subsec_nanos: u32) -> (r: Self)
        requires
            subsec_nanos < 1_000_000_000,
        ensures
            r@ == (RunConfigView { timeout: Some((secs, subsec_nanos)), ..self@ }),
    {
        MutateRun { timeout: Some((secs, subsec_nanos)), ..self }
    }

    /// Skip files matching the given regex (`--exclude-re <pattern>`).
    /// Repeatable.
    pub fn exclude_re(self, pattern: &str) -> (r: Self)
        ensures
            r@ == (RunConfigView { exclude_re: self@.exclude_re.push(pattern@), ..self@ }),
    {
        proof {
            use_type_invariant(&self);
        }
        let mut v = self.exclude_re;
        let ghost before = v@;
        v.push(pattern.to_owned());
        assert(string_views(v@) =~= string_views(before).push(pattern@));
        MutateRun { exclude_re: v, ..self }
    }

    /// Restrict to files matching the given glob or path (`--file <pattern>`).
    /// Repeatable.
    pub fn file(self, pattern: &str) -> (r: Self)
        ensures
            r@ == (RunConfigView { file_filters: self@.file_filters.push(pattern@), ..self@ }),
    {
        proof {
            use_type_invariant(&self);
        }
        let mut v = self.file_filters;
        let ghost before = v@;
        v.push(pattern.to_owned());
        assert(string_views(v@) =~= string_views(before).push(pattern@));
        MutateRun { file_filters: v, ..self }
    }

    /// Suppress a known survivor by its description: it is reclassified as
    /// killed.
    pub fn allow(self, description: &str) -> (r: Self)
        ensures
            r@ == (RunConfigView { allow_list: self@.allow_list.push(description@), ..self@ }),
    {
        proof {
            use_type_invariant(&self);
        }
        let mut v = self.allow_list;
        let ghost before = v@;
        v.push(description.to_owned());
        assert(string_views(v@) =~= string_views(before).push(description@));
        MutateRun { allow_list: v, ..self }
    }

    /// Bulk version of `allow`: the descriptions are appended in order.
    pub fn allow_all(self, descriptions: &[&str]) -> (r: Self)
        ensures
            r@ == (RunConfigView {
                allow_list: self@.allow_list + descriptions@.map_values(|d: &str| d@),
                ..self@
            }),
    {
        let mut s = self;
        let mut i: usize = 0;
        while i < descriptions.len()
            invariant
                i <= descriptions.len(),
                s@ == (RunConfigView {
                    allow_list: self@.allow_list + descriptions@.subrange(0, i as int).map_values(
                        |d: &str| d@,
                    ),
                    ..self@
                }),
            decreases descriptions.len() - i,
        {
            s = s.allow(descriptions[i]);
            assert(descriptions@.subrange(0, i + 1).map_values(|d: &str| d@) =~= descriptions@.subrange(
                0,
                i as int,
            ).map_values(|d: &str| d@).push(descriptions@[i as int]@));
            i = i + 1;
        }
        assert(descriptions@.subrange(0, descriptions@.len() as int) =~= descriptions@);
        s
    }

    /// Subject name passed to `new`.
    pub fn subject(&self) -> (r: &str)
        ensures
            r@ == self@.name,
    {
        self.name.as_str()
    }

    /// Subject version passed to `new`.
    pub fn subject_version(&self) -> (r: &str)
        ensures
            r@ == self@.version,
    {
        self.version.as_str()
    }

    /// Directory `cargo mutants` runs in, when set.
    pub fn workdir_path(&self) -> (r: Option<&str>)
        ensures
            match r {
                Some(d) => self@.workdir == Some(d@),
                None => self@.workdir is None,
            },
    {
        match &self.workdir {
            Some(d) => Some(d.as_str()),
            None => None,
        }
    }

    /// Whether `--workspace` is passed.
    pub fn workspace_flag(&self) -> (r: bool)
        ensures
            r == self@.workspace,
    {
        self.workspace
    }

    /// The `--jobs` value, when set.
    pub fn jobs_value(&self) -> (r: Option<u32>)
        ensures
            r == self@.jobs,
    {
        self.jobs
    }

    /// The per-mutant timeout as `(whole seconds, sub-second nanoseconds)`,
    /// when set.
    pub fn timeout_value(&self) -> (r: Option<(u64, u32)>)
        ensures
            r == self@.timeout,
    {
        self.timeout
    }

    /// The `--exclude-re` patterns, in the order given.
    pub fn exclude_re_view(&self) -> (r: &[String])
        ensures
            string_views(r@) == self@.exclude_re,
    {
        self.exclude_re.as_slice()
    }

    /// The `--file` patterns, in the order given.
    pub fn file_filters_view(&self) -> (r: &[String])
        ensures
            string_views(r@) == self@.file_filters,
    {
        self.file_filters.as_slice()
    }

    /// The allow-listed survivor descriptions, in the order given.
    pub fn allow_list_view(&self) -> (r: &[String])
        ensures
            string_views(r@) == self@.allow_list,
    {
        self.allow_list.as_slice()
    }

    /// The arguments given to `cargo`: `mutants --json --no-shuffle`, then
    /// `--workspace`, `--jobs <n>`, `--timeout <secs>` (at least 1),
    /// each `--exclude-re <pattern>` and each `--file <pattern>`.
    pub fn mutants_args(&self) -> (args: Vec<String>)
        ensures
            string_views(args@) == mutants_args_of(self@),
    {
        let mut args: Vec<String> = Vec::new();
        args.push("mutants".to_owned());
        args.push("--json".to_owned());
        args.push("--no-shuffle".to_owned());
        let ghost base = string_views(args@);
        assert(base =~= seq!["mutants"@, "--json"@, "--no-shuffle"@]);
        if self.workspace {
            args.push("--workspace".to_owned());
        }
        let ghost after_ws = string_views(args@);
        assert(after_ws =~= base + workspace_args(self@.workspace));
        match self.jobs {
            Some(j) => {
                args.push("--jobs".to_owned());
                args.push(decimal_string(j as u64));
            },
            None => {},
        }
        let ghost after_jobs = string_views(args@);
        assert(after_jobs =~= after_ws + jobs_args(self@.jobs));
        match self.timeout {
            Some((secs, _)) => {
                let s = if secs < 1 {
                    1
                } else {
                    secs
                };
                args.push("--timeout".to_owned());
                args.push(decimal_string(s));
            },
            None => {},
        }
        let ghost after_timeout = string_views(args@);
        assert(after_timeout =~= after_jobs + timeout_args(self@.timeout));
        let mut i: usize = 0;
        while i < self.exclude_re.len()
            invariant
                i <= self.exclude_re.len(),
                string_views(args@) == after_timeout + flag_pairs(
                    "--exclude-re"@,
                    string_views(self.exclude_re@).subrange(0, i as int),
                ),
            decreases self.exclude_re.len() - i,
        {
            let ghost before = string_views(args@);
            args.push("--exclude-re".to_owned());
            args.push(self.exclude_re[i].clone());
            proof {
                let pats = string_views(self.exclude_re@);
                assert(string_views(args@) =~= before + seq!["--exclude-re"@, pats[i as int]]);
                assert(pats.subrange(0, i + 1).last() == pats[i as int]);
                assert(pats.subrange(0, i + 1).drop_last() =~= pats.subrange(0, i as int));
                assert(string_views(args@) =~= after_timeout + flag_pairs(
                    "--exclude-re"@,
                    pats.subrange(0, i + 1),
                ));
            }
            i = i + 1;
        }
        assert(string_views(self.exclude_re@).subrange(0, self.exclude_re@.len() as int)
            =~= string_views(self.exclude_re@));
        let ghost after_exclude = string_views(args@);
        let mut k: usize = 0;
        while k < self.file_filters.len()
            invariant
                k <= self.file_filters.len(),
                string_views(args@) == after_exclude + flag_pairs(
                    "--file"@,
                    string_views(self.file_filters@).subrange(0, k as int),
                ),
            decreases self.file_filters.len() - k,
        {
            let ghost before = string_views(args@);
            args.push("--file".to_owned());
            args.push(self.file_filters[k].clone());
            proof {
                let pats = string_views(self.file_filters@);
                assert(string_views(args@) =~= before + seq!["--file"@, pats[k as int]]);
                assert(pats.subrange(0, k + 1).last() == pats[k as int]);
                assert(pats.subrange(0, k + 1).drop_last() =~= pats.subrange(0, k as int));
                assert(string_views(args@) =~= after_exclude + flag_pairs(
                    "--file"@,
                    pats.subrange(0, k + 1),
                ));
            }
            k = k + 1;
        }
        assert(string_views(self.file_filters@).subrange(0, self.file_filters@.len() as int)
            =~= string_views(self.file_filters@));
        args
    }
}

/// `flag` before each of `values`.
pub open spec fn flag_pairs(flag: Seq<char>, values: Seq<Seq<char>>) -> Seq<Seq<char>>
    decreases values.len(),
{
    if values.len() == 0 {
        Seq::empty()
    } else {
        flag_pairs(flag, values.drop_last()) + seq![flag, values.last()]
    }
}

/// `--workspace` when set.
pub open spec fn workspace_args(workspace: bool) -> Seq<Seq<char>> {
    if workspace {
        seq!["--workspace"@]
    } else {
        Seq::empty()
    }
}

/// `--jobs <n>` when set.
pub open spec fn jobs_args(jobs: Option<u32>) -> Seq<Seq<char>> {
    match jobs {
        Some(j) => seq!["--jobs"@, decimal(j as nat)],
        None => Seq::empty(),
    }
}

/// `--timeout <whole seconds, at least 1>` when set.
pub open spec fn timeout_args(timeout: Option<(u64, u32)>) -> Seq<Seq<char>> {
    match timeout {
        Some((secs, _)) => seq!["--timeout"@, decimal(if secs < 1 { 1 } else { secs as nat })],
        None => Seq::empty(),
    }
}

/// The argument list of `cargo` for a configuration.
pub open spec fn mutants_args_of(c: RunConfigView) -> Seq<Seq<char>> {
    seq!["mutants"@, "--json"@, "--no-shuffle"@] + workspace_args(c.workspace) + jobs_args(c.jobs)
        + timeout_args(c.timeout) + flag_pairs("--exclude-re"@, c.exclude_re) + flag_pairs(
        "--file"@,
        c.file_filters,
    )
}

} // verus!
