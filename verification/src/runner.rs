//! Recording one benchmark run: the result document it starts from, what the
//! benchmark adds to it, and how it ends.
use vstd::prelude::*;

use crate::model::{
    Benchmark, BenchmarkGroup, BenchmarkStatus, Measurement, MetricId, SchemaVersion, Timestamp,
};
use crate::sorted::{has_key, lookup, stored, SortedMap};
use crate::text::{chars_of, owned, push_str, string_of, trim, trim_chars};

verus! {

/// A benchmark as its crate declares it.
#[derive(Debug, Clone, Copy)]
pub struct BenchmarkDefinition {
    pub repository: &'static str,
    pub name: &'static str,
    pub description: &'static str,
}

/// What a run records about where and when it ran: values of the process
/// environment and of git, as the caller read them.
#[derive(Debug)]
pub struct RunContext {
    /// `GITHUB_SHA`.
    pub github_sha: Option<String>,
    /// `git rev-parse HEAD`, read when `GITHUB_SHA` is unset.
    pub git_commit: Option<String>,
    /// `GITHUB_REF_NAME`.
    pub github_ref_name: Option<String>,
    /// `git branch --show-current`, read when `GITHUB_REF_NAME` is unset.
    pub git_branch: Option<String>,
    /// `git log -1 --pretty=%B`.
    pub commit_message: Option<String>,
    /// The start time.
    pub date: Timestamp,
    pub github_run_attempt: Option<String>,
    pub github_run_id: Option<String>,
    pub github_run_number: Option<String>,
    pub runner_name: Option<String>,
    pub runner_os: Option<String>,
}

/// The first of two values that is known, else `unknown`.
pub open spec fn known_or_unknown(first: Option<String>, second: Option<String>) -> Seq<char> {
    match first {
        Some(v) => v@,
        None => match second {
            Some(v) => v@,
            None => "unknown"@,
        },
    }
}

fn first_known(first: &Option<String>, second: &Option<String>) -> (r: String)
    ensures
        r@ == known_or_unknown(*first, *second),
        first matches Some(v) ==> r@ == v@,
        first is None && second is Some ==> r@ == second->0@,
        first is None && second is None ==> r@ == "unknown"@,
{
    match first {
        Some(v) => owned(v.as_str()),
        None => match second {
            Some(v) => owned(v.as_str()),
            None => owned("unknown"),
        },
    }
}

/// The environment entry that a run records under `key`: the five CI
/// variables that are set.
pub open spec fn recorded_environment(ctx: RunContext, key: Seq<char>) -> Option<String> {
    if key == "GITHUB_RUN_ATTEMPT"@ {
        ctx.github_run_attempt
    } else if key == "GITHUB_RUN_ID"@ {
        ctx.github_run_id
    } else if key == "GITHUB_RUN_NUMBER"@ {
        ctx.github_run_number
    } else if key == "RUNNER_NAME"@ {
        ctx.runner_name
    } else if key == "RUNNER_OS"@ {
        ctx.runner_os
    } else {
        None
    }
}

/// The entry under `t` holds the text recorded for `t`, if any.
pub open spec fn holds_recorded(env: Seq<(String, String)>, ctx: RunContext, t: Seq<char>) -> bool {
    match recorded_environment(ctx, t) {
        Some(w) => lookup(env, t) matches Some(v) && v@ == w@,
        None => true,
    }
}

/// Records `value` under `key` when it is set.
fn copy_env(target: &mut SortedMap<String, String>, key: &str, value: &Option<String>)
    ensures
        forall|t: Seq<char>|
            #[trigger] has_key(final(target)@, t) <==> has_key(old(target)@, t) || (t == key@
                && value is Some),
        forall|t: Seq<char>|
            t != key@ ==> #[trigger] lookup(final(target)@, t) == lookup(old(target)@, t),
        value matches Some(v) ==> lookup(final(target)@, key@) matches Some(w) && w@ == v@,
{
    match value {
        Some(v) => {
            target.insert(owned(key), owned(v.as_str()));
        },
        None => {},
    }
}

/// Builds up the result document of one run and hands it over at the end.
pub struct Recorder {
    output: String,
    benchmark: Benchmark,
}

impl View for Recorder {
    type V = (Seq<char>, Benchmark);

    closed spec fn view(&self) -> (Seq<char>, Benchmark) {
        (self.output@, self.benchmark)
    }
}

impl Recorder {
    /// Starts the document of a successful run of `definition`, written to
    /// `output`: commit and branch from CI or git (else `unknown`), no
    /// measurements, parameters, or error, and the CI variables that are set.
    pub fn new(definition: BenchmarkDefinition, output: String, ctx: RunContext) -> (r: Recorder)
        ensures
            r@.0 == output@,
            r@.1.group.repository@ == definition.repository@,
            r@.1.group.name@ == definition.name@,
            r@.1.description@ == definition.description@,
            r@.1.commit@ == known_or_unknown(ctx.github_sha, ctx.git_commit),
            r@.1.branch@ == known_or_unknown(ctx.github_ref_name, ctx.git_branch),
            r@.1.commit_message == ctx.commit_message,
            r@.1.date == ctx.date,
            r@.1.run_id == ctx.github_run_id,
            r@.1.status == BenchmarkStatus::Success,
            r@.1.error is None,
            r@.1.measurements@.len() == 0,
            r@.1.parameters@.len() == 0,
            forall|t: Seq<char>|
                #[trigger] has_key(r@.1.environment@, t) <==> recorded_environment(ctx, t) is Some,
            forall|t: Seq<char>| #[trigger] holds_recorded(r@.1.environment@, ctx, t),
            ctx.github_run_attempt matches Some(v) ==> lookup(r@.1.environment@, "GITHUB_RUN_ATTEMPT"@) matches Some(w)
                && w@ == v@,
            ctx.github_run_attempt is None ==> !has_key(r@.1.environment@, "GITHUB_RUN_ATTEMPT"@),
            ctx.github_run_id matches Some(v) ==> lookup(r@.1.environment@, "GITHUB_RUN_ID"@) matches Some(w)
                && w@ == v@,
            ctx.github_run_id is None ==> !has_key(r@.1.environment@, "GITHUB_RUN_ID"@),
            ctx.github_run_number matches Some(v) ==> lookup(r@.1.environment@, "GITHUB_RUN_NUMBER"@) matches Some(w)
                && w@ == v@,
            ctx.github_run_number is None ==> !has_key(r@.1.environment@, "GITHUB_RUN_NUMBER"@),
            ctx.runner_name matches Some(v) ==> lookup(r@.1.environment@, "RUNNER_NAME"@) matches Some(w)
                && w@ == v@,
            ctx.runner_name is None ==> !has_key(r@.1.environment@, "RUNNER_NAME"@),
            ctx.runner_os matches Some(v) ==> lookup(r@.1.environment@, "RUNNER_OS"@) matches Some(w)
                && w@ == v@,
            ctx.runner_os is None ==> !has_key(r@.1.environment@, "RUNNER_OS"@),
            forall|t: Seq<char>|
                #[trigger] has_key(r@.1.environment@, t) ==> t == "GITHUB_RUN_ATTEMPT"@ || t
                    == "GITHUB_RUN_ID"@ || t == "GITHUB_RUN_NUMBER"@ || t == "RUNNER_NAME"@ || t
                    == "RUNNER_OS"@,
            ctx.github_sha matches Some(v) ==> r@.1.commit@ == v@,
            ctx.github_sha is None && ctx.git_commit is Some ==> r@.1.commit@ == ctx.git_commit->0@,
            ctx.github_sha is None && ctx.git_commit is None ==> r@.1.commit@ == "unknown"@,
            ctx.github_ref_name matches Some(v) ==> r@.1.branch@ == v@,
            ctx.github_ref_name is None && ctx.git_branch is Some ==> r@.1.branch@
                == ctx.git_branch->0@,
            ctx.github_ref_name is None && ctx.git_branch is None ==> r@.1.branch@ == "unknown"@,
    {
        let commit = first_known(&ctx.github_sha, &ctx.git_commit);
        let branch = first_known(&ctx.github_ref_name, &ctx.git_branch);
        let mut environment: SortedMap<String, String> = SortedMap::new();
        let ghost e0 = environment@;
        copy_env(&mut environment, "GITHUB_RUN_ATTEMPT", &ctx.github_run_attempt);
        let ghost e1 = environment@;
        copy_env(&mut environment, "GITHUB_RUN_ID", &ctx.github_run_id);
        let ghost e2 = environment@;
        copy_env(&mut environment, "GITHUB_RUN_NUMBER", &ctx.github_run_number);
        let ghost e3 = environment@;
        copy_env(&mut environment, "RUNNER_NAME", &ctx.runner_name);
        let ghost e4 = environment@;
        copy_env(&mut environment, "RUNNER_OS", &ctx.runner_os);
        proof {
            reveal_strlit("GITHUB_RUN_ATTEMPT");
            reveal_strlit("GITHUB_RUN_ID");
            reveal_strlit("GITHUB_RUN_NUMBER");
            reveal_strlit("RUNNER_NAME");
            reveal_strlit("RUNNER_OS");
            let k1 = "GITHUB_RUN_ATTEMPT"@;
            let k2 = "GITHUB_RUN_ID"@;
            let k3 = "GITHUB_RUN_NUMBER"@;
            let k4 = "RUNNER_NAME"@;
            let k5 = "RUNNER_OS"@;
            assert(k1.len() == 18 && k2.len() == 13 && k3.len() == 17 && k4.len() == 11 && k5.len()
                == 9);
            assert forall|t: Seq<char>| #[trigger]
                has_key(environment@, t) <==> recorded_environment(ctx, t) is Some by {
                assert(has_key(environment@, t) == (has_key(e4, t) || (t == k5
                    && ctx.runner_os is Some)));
                assert(has_key(e4, t) == (has_key(e3, t) || (t == k4 && ctx.runner_name is Some)));
                assert(has_key(e3, t) == (has_key(e2, t) || (t == k3
                    && ctx.github_run_number is Some)));
                assert(has_key(e2, t) == (has_key(e1, t) || (t == k2 && ctx.github_run_id is Some)));
                assert(has_key(e1, t) == (has_key(e0, t) || (t == k1
                    && ctx.github_run_attempt is Some)));
                assert(!has_key(e0, t));
            }
            assert forall|t: Seq<char>| #[trigger] holds_recorded(environment@, ctx, t) by {
                if t == k1 {
                    assert(lookup(environment@, t) == lookup(e4, t));
                    assert(lookup(e4, t) == lookup(e3, t));
                    assert(lookup(e3, t) == lookup(e2, t));
                    assert(lookup(e2, t) == lookup(e1, t));
                } else if t == k2 {
                    assert(lookup(environment@, t) == lookup(e4, t));
                    assert(lookup(e4, t) == lookup(e3, t));
                    assert(lookup(e3, t) == lookup(e2, t));
                } else if t == k3 {
                    assert(lookup(environment@, t) == lookup(e4, t));
                    assert(lookup(e4, t) == lookup(e3, t));
                } else if t == k4 {
                    assert(lookup(environment@, t) == lookup(e4, t));
                }
            }
            // each variable that is set is recorded under its own name, and
            // later entries leave it alone
            if ctx.github_run_attempt is Some {
                assert(lookup(e1, k1) matches Some(w) && w@ == ctx.github_run_attempt->0@);
            } else {
                assert(!has_key(e1, k1));
            }
            if ctx.github_run_attempt is Some {
                assert(lookup(e2, k1) matches Some(w) && w@ == ctx.github_run_attempt->0@);
            } else {
                assert(!has_key(e2, k1));
            }
            if ctx.github_run_attempt is Some {
                assert(lookup(e3, k1) matches Some(w) && w@ == ctx.github_run_attempt->0@);
            } else {
                assert(!has_key(e3, k1));
            }
            if ctx.github_run_attempt is Some {
                assert(lookup(e4, k1) matches Some(w) && w@ == ctx.github_run_attempt->0@);
            } else {
                assert(!has_key(e4, k1));
            }
            if ctx.github_run_attempt is Some {
                assert(lookup(environment@, k1) matches Some(w) && w@ == ctx.github_run_attempt->0@);
            } else {
                assert(!has_key(environment@, k1));
            }
            if ctx.github_run_id is Some {
                assert(lookup(e2, k2) matches Some(w) && w@ == ctx.github_run_id->0@);
            } else {
                assert(!has_key(e2, k2));
            }
            if ctx.github_run_id is Some {
                assert(lookup(e3, k2) matches Some(w) && w@ == ctx.github_run_id->0@);
            } else {
                assert(!has_key(e3, k2));
            }
            if ctx.github_run_id is Some {
                assert(lookup(e4, k2) matches Some(w) && w@ == ctx.github_run_id->0@);
            } else {
                assert(!has_key(e4, k2));
            }
            if ctx.github_run_id is Some {
                assert(lookup(environment@, k2) matches Some(w) && w@ == ctx.github_run_id->0@);
            } else {
                assert(!has_key(environment@, k2));
            }
            if ctx.github_run_number is Some {
                assert(lookup(e3, k3) matches Some(w) && w@ == ctx.github_run_number->0@);
            } else {
                assert(!has_key(e3, k3));
            }
            if ctx.github_run_number is Some {
                assert(lookup(e4, k3) matches Some(w) && w@ == ctx.github_run_number->0@);
            } else {
                assert(!has_key(e4, k3));
            }
            if ctx.github_run_number is Some {
                assert(lookup(environment@, k3) matches Some(w) && w@ == ctx.github_run_number->0@);
            } else {
                assert(!has_key(environment@, k3));
            }
            if ctx.runner_name is Some {
                assert(lookup(e4, k4) matches Some(w) && w@ == ctx.runner_name->0@);
            } else {
                assert(!has_key(e4, k4));
            }
            if ctx.runner_name is Some {
                assert(lookup(environment@, k4) matches Some(w) && w@ == ctx.runner_name->0@);
            } else {
                assert(!has_key(environment@, k4));
            }
            if ctx.runner_os is Some {
                assert(lookup(environment@, k5) matches Some(w) && w@ == ctx.runner_os->0@);
            } else {
                assert(!has_key(environment@, k5));
            }
            assert forall|t: Seq<char>| #[trigger] has_key(environment@, t) implies t == k1 || t
                == k2 || t == k3 || t == k4 || t == k5 by {
                assert(has_key(environment@, t) == (has_key(e4, t) || (t == k5
                    && ctx.runner_os is Some)));
                assert(has_key(e4, t) == (has_key(e3, t) || (t == k4 && ctx.runner_name is Some)));
                assert(has_key(e3, t) == (has_key(e2, t) || (t == k3
                    && ctx.github_run_number is Some)));
                assert(has_key(e2, t) == (has_key(e1, t) || (t == k2 && ctx.github_run_id is Some)));
                assert(has_key(e1, t) == (has_key(e0, t) || (t == k1
                    && ctx.github_run_attempt is Some)));
                assert(!has_key(e0, t));
            }
        }
        let RunContext { commit_message, date, github_run_id, .. } = ctx;
        Recorder {
            output,
            benchmark: Benchmark {
                schema_version: SchemaVersion,
                group: BenchmarkGroup {
                    repository: owned(definition.repository),
                    name: owned(definition.name),
                },
                commit,
                branch,
                commit_message,
                description: owned(definition.description),
                date,
                measurements: SortedMap::new(),
                run_id: github_run_id,
                status: BenchmarkStatus::Success,
                error: None,
                parameters: SortedMap::new(),
                environment,
            },
        }
    }

    /// Where the document is written.
    pub fn output(&self) -> (r: &str)
        ensures
            r@ == self@.0,
    {
        self.output.as_str()
    }

    /// The document so far.
    pub fn benchmark(&self) -> (r: &Benchmark)
        ensures
            *r == self@.1,
    {
        &self.benchmark
    }

    /// Records an input of the benchmark.
    pub fn parameter(&mut self, key: String, value: String)
        ensures
            final(self)@.0 == old(self)@.0,
            stored(old(self)@.1.parameters@, final(self)@.1.parameters@, key, value),
            final(self)@.1.measurements == old(self)@.1.measurements,
            final(self)@.1.environment == old(self)@.1.environment,
    {
        self.benchmark.parameters.insert(key, value);
    }

    /// Records an entry of the execution environment.
    pub fn environment(&mut self, key: String, value: String)
        ensures
            final(self)@.0 == old(self)@.0,
            stored(old(self)@.1.environment@, final(self)@.1.environment@, key, value),
            final(self)@.1.measurements == old(self)@.1.measurements,
            final(self)@.1.parameters == old(self)@.1.parameters,
    {
        self.benchmark.environment.insert(key, value);
    }

    /// Records a measurement under its ID.
    pub fn value(&mut self, id: MetricId, value: Measurement)
        ensures
            final(self)@.0 == old(self)@.0,
            stored(old(self)@.1.measurements@, final(self)@.1.measurements@, id, value),
            final(self)@.1.parameters == old(self)@.1.parameters,
            final(self)@.1.environment == old(self)@.1.environment,
    {
        self.benchmark.measurements.insert(id, value);
    }

    /// Ends a successful run: the output path and the document to write.
    pub fn success(self) -> (r: (String, Benchmark))
        ensures
            r.0@ == self@.0,
            r.1 == self@.1,
    {
        (self.output, self.benchmark)
    }

    /// Ends a failed run: the document is marked failed with the error text.
    pub fn failure(self, error: String) -> (r: (String, Benchmark))
        ensures
            r.0@ == self@.0,
            r.1.status == BenchmarkStatus::Failed,
            r.1.error == Some(error),
            r.1.group == self@.1.group,
            r.1.commit == self@.1.commit,
            r.1.branch == self@.1.branch,
            r.1.commit_message == self@.1.commit_message,
            r.1.description == self@.1.description,
            r.1.date == self@.1.date,
            r.1.measurements == self@.1.measurements,
            r.1.run_id == self@.1.run_id,
            r.1.parameters == self@.1.parameters,
            r.1.environment == self@.1.environment,
    {
        let Recorder { output, mut benchmark } = self;
        benchmark.status = BenchmarkStatus::Failed;
        benchmark.error = Some(error);
        (output, benchmark)
    }
}

/// The error of a command that exited unsuccessfully:
/// "{program} failed with {status}: {stderr, trimmed}".
pub fn command_failure(program: &str, status: &str, stderr: &str) -> (r: String)
    ensures
        r@ == program@ + " failed with "@ + status@ + ": "@ + trim(stderr@),
{
    let mut s = owned(program);
    push_str(&mut s, " failed with ");
    push_str(&mut s, status);
    push_str(&mut s, ": ");
    let err = chars_of(stderr);
    let trimmed = trim_chars(&err);
    let t = string_of(&trimmed);
    push_str(&mut s, t.as_str());
    s
}

/// The value a git query yields: its output, trimmed, when the command
/// succeeded and the trimmed output is not empty.
pub fn git_value_text(succeeded: bool, stdout: &str) -> (r: Option<String>)
    ensures
        r is Some <==> succeeded && trim(stdout@).len() > 0,
        r matches Some(v) ==> v@ == trim(stdout@),
{
    if !succeeded {
        return None;
    }
    let out = chars_of(stdout);
    let trimmed = trim_chars(&out);
    if trimmed.len() == 0 {
        None
    } else {
        Some(string_of(&trimmed))
    }
}

} // verus!
