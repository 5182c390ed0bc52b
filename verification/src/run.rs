//! Running experiments: how many samples each step takes, how forager
//! failures are classified, and how they are reported.
use vstd::prelude::*;

use crate::experiment::{StepDef, SummaryDef};
use crate::text::{append_str, chars_of, string_of, trim, trimmed};

verus! {

/// One entry in the up-front plan handed to a `RunReporter`.
#[derive(Debug, Clone)]
pub struct StepPlan {
    pub name: String,
    pub samples: usize,
}

/// Receives lifecycle events while an experiment runs. Every method does
/// nothing by default.
pub trait RunReporter {
    fn run_started(&self, experiment: &str, commit: &str, steps: &[StepPlan]) {
    }

    fn step_started(&self, step: &str) {
    }

    /// A forager invocation is about to start.
    fn sample_started(&self, step: &str, iter: usize, samples: usize) {
    }

    fn sample_done(&self, step: &str, iter: usize, samples: usize) {
    }

    fn step_finished(&self, step: &str) {
    }

    fn run_finished(&self) {
    }
}

/// Samples to take of `step`: the largest `samples` among the summaries on
/// that step, and at least one.
pub open spec fn step_sample_count(sums: Seq<SummaryDef>, step: Seq<char>) -> usize
    decreases sums.len(),
{
    if sums.len() == 0 {
        1
    } else {
        let m = step_sample_count(sums.drop_last(), step);
        if sums.last().step@ == step && sums.last().samples > m {
            sums.last().samples
        } else {
            m
        }
    }
}

/// Every step takes at least one sample.
pub proof fn lemma_sample_count_positive(sums: Seq<SummaryDef>, step: Seq<char>)
    ensures
        step_sample_count(sums, step) >= 1,
    decreases sums.len(),
{
    if sums.len() > 0 {
        lemma_sample_count_positive(sums.drop_last(), step);
    }
}

fn same(a: &String, b: &String) -> (r: bool)
    ensures
        r == (a@ == b@),
{
    let av = chars_of(a.as_str());
    let bv = chars_of(b.as_str());
    crate::text::chars_eq(&av, &bv)
}

/// Number of forager invocations of a step.
pub fn samples_for_step(summaries: &[SummaryDef], step: &String) -> (n: usize)
    ensures
        n == step_sample_count(summaries@, step@),
        n >= 1,
{
    let mut m: usize = 1;
    let mut k: usize = 0;
    while k < summaries.len()
        invariant
            k <= summaries@.len(),
            m == step_sample_count(summaries@.subrange(0, k as int), step@),
            m >= 1,
        decreases summaries.len() - k,
    {
        let ghost pre = summaries@.subrange(0, k + 1);
        assert(pre.drop_last() == summaries@.subrange(0, k as int));
        if same(&summaries[k].step, step) && summaries[k].samples > m {
            m = summaries[k].samples;
        }
        k = k + 1;
    }
    assert(summaries@.subrange(0, summaries@.len() as int) == summaries@);
    m
}

/// The plan of a run: every step in order with its sample count.
pub fn plan_steps(steps: &[StepDef], summaries: &[SummaryDef]) -> (plan: Vec<StepPlan>)
    ensures
        plan@.len() == steps@.len(),
        forall|i: int|
            0 <= i < steps@.len() ==> #[trigger] plan@[i].name@ == steps@[i].name@
                && plan@[i].samples == step_sample_count(summaries@, steps@[i].name@),
{
    let mut plan: Vec<StepPlan> = Vec::new();
    let mut i: usize = 0;
    while i < steps.len()
        invariant
            i <= steps@.len(),
            plan@.len() == i,
            forall|k: int|
                0 <= k < i ==> #[trigger] plan@[k].name@ == steps@[k].name@
                    && plan@[k].samples == step_sample_count(summaries@, steps@[k].name@),
        decreases steps.len() - i,
    {
        let n = samples_for_step(summaries, &steps[i].name);
        plan.push(StepPlan { name: steps[i].name.clone(), samples: n });
        i = i + 1;
    }
    plan
}

/// Why a forager invocation failed. The exit status is kept as the text it
/// displays as.
#[derive(Debug)]
pub enum StepError {
    PluginNotFound { binary: String },
    SpawnFailed { binary: String, reason: String },
    PluginFailed { step: String, binary: String, status: String, stdout: String, stderr: String },
    NoOutput { step: String, binary: String },
    Other(String),
}

/// The captured output appended to a failed forager's message: the trimmed
/// stderr, then the trimmed stdout, each under a header and only when not
/// empty.
pub open spec fn spec_fmt_captured(stdout: Seq<char>, stderr: Seq<char>) -> Seq<char> {
    (if trim(stderr).len() > 0 {
        "\n--- stderr ---\n"@ + trim(stderr)
    } else {
        ""@
    }) + (if trim(stdout).len() > 0 {
        "\n--- stdout ---\n"@ + trim(stdout)
    } else {
        ""@
    })
}

fn push_captured(out: &mut Vec<char>, stdout: &str, stderr: &str)
    ensures
        final(out)@ == old(out)@ + spec_fmt_captured(stdout@, stderr@),
{
    let e = chars_of(stderr);
    let e = trimmed(&e);
    let o = chars_of(stdout);
    let o = trimmed(&o);
    let ghost start = out@;
    if e.len() > 0 {
        append_str(out, "\n--- stderr ---\n");
        crate::text::append_chars(out, &e);
    } else {
        append_str(out, "");
    }
    let ghost mid = out@;
    if o.len() > 0 {
        append_str(out, "\n--- stdout ---\n");
        crate::text::append_chars(out, &o);
    } else {
        append_str(out, "");
    }
    assert(out@ == start + spec_fmt_captured(stdout@, stderr@));
}

/// Captured stdout/stderr of a failed forager, formatted for its message.
pub fn fmt_captured(stdout: &str, stderr: &str) -> (r: String)
    ensures
        r@ == spec_fmt_captured(stdout@, stderr@),
{
    let mut out: Vec<char> = Vec::new();
    push_captured(&mut out, stdout, stderr);
    string_of(&out)
}

/// The message a step error is reported with.
pub open spec fn step_error_message(e: StepError) -> Seq<char> {
    match e {
        StepError::PluginNotFound { binary } => "`"@ + binary@
            + "` not found in the local store — is it installed?"@,
        StepError::SpawnFailed { binary, reason } => "failed to spawn `"@ + binary@ + "`: "@ + reason@,
        StepError::PluginFailed { step, binary, status, stdout, stderr } => "step '"@ + step@ + "': `"@
            + binary@ + "` exited with "@ + status@ + spec_fmt_captured(stdout@, stderr@),
        StepError::NoOutput { step, binary } => "step '"@ + step@ + "': `"@ + binary@
            + "` did not write FORAGER_OUT"@,
        StepError::Other(e) => e@,
    }
}

impl StepError {
    /// A hard failure (the forager is missing or cannot be started) ends the
    /// run; others only lose that sample.
    pub fn is_hard(&self) -> (r: bool)
        ensures
            r == (self is PluginNotFound || self is SpawnFailed),
    {
        match self {
            StepError::PluginNotFound { .. } | StepError::SpawnFailed { .. } => true,
            _ => false,
        }
    }

    /// The message the error is reported with.
    pub fn message(&self) -> (r: String)
        ensures
            r@ == step_error_message(*self),
    {
        let mut m: Vec<char> = Vec::new();
        match self {
            StepError::PluginNotFound { binary } => {
                append_str(&mut m, "`");
                append_str(&mut m, binary.as_str());
                append_str(&mut m, "` not found in the local store — is it installed?");
            },
            StepError::SpawnFailed { binary, reason } => {
                append_str(&mut m, "failed to spawn `");
                append_str(&mut m, binary.as_str());
                append_str(&mut m, "`: ");
                append_str(&mut m, reason.as_str());
            },
            StepError::PluginFailed { step, binary, status, stdout, stderr } => {
                append_str(&mut m, "step '");
                append_str(&mut m, step.as_str());
                append_str(&mut m, "': `");
                append_str(&mut m, binary.as_str());
                append_str(&mut m, "` exited with ");
                append_str(&mut m, status.as_str());
                push_captured(&mut m, stdout.as_str(), stderr.as_str());
            },
            StepError::NoOutput { step, binary } => {
                append_str(&mut m, "step '");
                append_str(&mut m, step.as_str());
                append_str(&mut m, "': `");
                append_str(&mut m, binary.as_str());
                append_str(&mut m, "` did not write FORAGER_OUT");
            },
            StepError::Other(e) => {
                append_str(&mut m, e.as_str());
            },
        }
        string_of(&m)
    }
}

/// Name of a forager's binary: `forager-<name>`.
pub fn forager_binary_name(name: &str) -> (r: String)
    ensures
        r@ == "forager-"@ + name@,
{
    let mut m: Vec<char> = Vec::new();
    append_str(&mut m, "forager-");
    append_str(&mut m, name);
    string_of(&m)
}


/// Directory name of a saved run: the start timestamp with `:` turned into
/// `-`, then the commit's short SHA.
pub fn saved_run_id(started_at: &str, commit: &str) -> (r: String)
    ensures
        r@ == crate::standalone::replace_all(started_at@, ':', '-') + "-"@
            + crate::upstream::spec_short_sha(commit@),
{
    let ts = crate::text::chars_of(started_at);
    let mut m: Vec<char> = Vec::new();
    let mut i: usize = 0;
    while i < ts.len()
        invariant
            i <= ts@.len(),
            m@ == crate::standalone::replace_all(ts@.subrange(0, i as int), ':', '-'),
        decreases ts.len() - i,
    {
        m.push(if ts[i] == ':' { '-' } else { ts[i] });
        assert(crate::standalone::replace_all(ts@.subrange(0, i + 1), ':', '-')
            == crate::standalone::replace_all(ts@.subrange(0, i as int), ':', '-').push(
            if ts@[i as int] == ':' { '-' } else { ts@[i as int] },
        ));
        i = i + 1;
    }
    assert(ts@.subrange(0, ts@.len() as int) == ts@);
    crate::text::append_str(&mut m, "-");
    let short = crate::upstream::short_sha(commit);
    crate::text::append_str(&mut m, short.as_str());
    crate::text::string_of(&m)
}

/// The name tried for a saved run's directory on the `attempt`-th try:
/// the id itself first, then the id with `-1`, `-2`, ... appended, so runs
/// in the same second against the same commit do not collide.
pub fn run_dir_name(id: &str, attempt: usize) -> (r: String)
    ensures
        attempt == 0 ==> r@ == id@,
        attempt > 0 ==> r@ == id@ + "-"@ + crate::text::decimal(attempt as nat),
{
    if attempt == 0 {
        return id.to_string();
    }
    let mut m: Vec<char> = Vec::new();
    crate::text::append_str(&mut m, id);
    crate::text::append_str(&mut m, "-");
    let d = crate::text::usize_digits(attempt);
    crate::text::append_chars(&mut m, &d);
    crate::text::string_of(&m)
}

} // verus!
