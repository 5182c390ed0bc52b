//! Experiments: the steps of `.wezel/experiments/<name>/experiment.toml`,
//! put into source order, checked and flattened into an `ExperimentDef`.
use vstd::prelude::*;

use crate::text::{append_str, string_of};
use crate::types::Aggregation;

verus! {

/// Opaque JSON value (forager inputs), carried through unchanged.
#[verifier::external_type_specification]
#[verifier::external_body]
pub struct ExJsonValue(serde_json::Value);

/// Where experiment results are stored.
#[derive(Debug)]
pub enum StorageTarget {
    ServerUrl(String),
    DataBranch(String),
}

impl StorageTarget {
    /// The default target: the `wezel/data` data branch.
    pub fn default_target() -> (t: StorageTarget)
        ensures
            t matches StorageTarget::DataBranch(b) && b@ == "wezel/data"@,
    {
        StorageTarget::DataBranch("wezel/data".to_owned())
    }

    /// The server URL, when results go to a server.
    pub fn server_url(&self) -> (r: Option<&str>)
        ensures
            match self {
                StorageTarget::ServerUrl(u) => r matches Some(s) && s@ == u@,
                StorageTarget::DataBranch(_) => r is None,
            },
    {
        if let StorageTarget::ServerUrl(url) = &self {
            Some(url.as_str())
        } else {
            None
        }
    }

    /// The data branch, when results are kept in git.
    pub fn data_branch(&self) -> (r: Option<&str>)
        ensures
            match self {
                StorageTarget::DataBranch(b) => r matches Some(s) && s@ == b@,
                StorageTarget::ServerUrl(_) => r is None,
            },
    {
        if let StorageTarget::DataBranch(branch) = &self {
            Some(branch.as_str())
        } else {
            None
        }
    }

    /// The effective target: a non-empty `WEZEL_BURROW_URL` value overrides
    /// the configured one.
    pub fn resolve(env_url: Option<String>, configured: StorageTarget) -> (t: StorageTarget)
        ensures
            match env_url {
                Some(u) => if u@.len() > 0 {
                    t == StorageTarget::ServerUrl(u)
                } else {
                    t == configured
                },
                None => t == configured,
            },
    {
        match env_url {
            Some(u) => if u.as_str().unicode_len() > 0 {
                StorageTarget::ServerUrl(u)
            } else {
                configured
            },
            None => configured,
        }
    }
}

/// Where to obtain a tool binary: a GitHub repository, optionally pinned.
#[derive(Debug, Clone)]
pub struct ToolSource {
    /// `owner/repo` on github.com.
    pub github: String,
    /// Optional release tag pin. Default: latest release.
    pub tag: Option<String>,
}

/// `apply-diff`: `true` uses `<step name>.patch`; a string names the patch.
#[derive(Debug, Clone)]
pub enum DiffField {
    Bool(bool),
    Name(String),
}

/// A single step of an experiment.
#[derive(Debug)]
pub struct StepDef {
    /// Step identifier; also the default patch file stem.
    pub name: String,
    /// Forager (tool) that runs the step.
    pub forager: String,
    pub description: Option<String>,
    /// Patch file stem, when the step applies one.
    pub diff: Option<String>,
    /// Forager-specific inputs.
    pub inputs: serde_json::Value,
}

/// A named scalar derived from measurements, used for regression detection.
#[derive(Debug, Clone)]
pub struct SummaryDef {
    pub name: String,
    /// Step the measurement was emitted by.
    pub step: String,
    /// Measurement name to aggregate over.
    pub measurement: String,
    /// How to combine multiple matching values.
    pub aggregation: Option<Aggregation>,
    /// Tag key=value filters applied before aggregation, in declaration order.
    pub filter: Vec<(String, String)>,
    /// Whether to trigger bisection on regression.
    pub bisect: bool,
    /// Number of forager invocations of `step` to perform.
    pub samples: usize,
}

/// Experiment definition, steps and summaries in source order.
#[derive(Debug)]
pub struct ExperimentDef {
    pub name: String,
    pub description: Option<String>,
    pub steps: Vec<StepDef>,
    pub summaries: Vec<SummaryDef>,
}

/// A summary as embedded under a step (`step.<tool>.<step>.summary.<name>`).
#[derive(Debug, Clone)]
pub struct RawSummary {
    pub name: String,
    pub outcome: String,
    pub aggregation: Option<Aggregation>,
    pub filter: Vec<(String, String)>,
    pub bisect: bool,
    pub samples: usize,
}

/// One `[step.<tool>.<name>]` table as read from the file, with the offset
/// at which its body starts.
#[derive(Debug)]
pub struct RawStep {
    pub tool: String,
    pub name: String,
    pub span_start: usize,
    pub description: Option<String>,
    pub apply_diff: Option<DiffField>,
    pub summaries: Vec<RawSummary>,
    pub inputs: serde_json::Value,
}

/// Why an experiment definition is rejected.
#[derive(Debug)]
pub enum ExperimentError {
    /// The same step name appears under two tools.
    DuplicateStepName(String),
}

impl ExperimentError {
    /// The message the error is reported with.
    pub fn message(&self) -> (r: String)
        ensures
            match self {
                ExperimentError::DuplicateStepName(n) => r@ == "step name `"@ + n@
                    + "` is declared under more than one tool; step names must be unique"@,
            },
    {
        match self {
            ExperimentError::DuplicateStepName(n) => {
                let mut out: Vec<char> = Vec::new();
                append_str(&mut out, "step name `");
                append_str(&mut out, n.as_str());
                append_str(
                    &mut out,
                    "` is declared under more than one tool; step names must be unique",
                );
                string_of(&out)
            },
        }
    }
}

// ── Specifications ───────────────────────────────────────────────────────────

/// Index at which a step with offset `key` goes in `s`: after every step
/// whose offset is not larger (so equal offsets keep their order).
pub open spec fn insert_pos(s: Seq<RawStep>, key: usize) -> int
    decreases s.len(),
{
    if s.len() == 0 {
        0
    } else if s.last().span_start <= key {
        s.len() as int
    } else {
        insert_pos(s.drop_last(), key)
    }
}

/// The steps in source order: a stable sort by body offset.
pub open spec fn source_order(s: Seq<RawStep>) -> Seq<RawStep>
    decreases s.len(),
{
    if s.len() == 0 {
        s
    } else {
        let t = source_order(s.drop_last());
        t.insert(insert_pos(t, s.last().span_start), s.last())
    }
}

pub open spec fn name_dup_at(s: Seq<RawStep>, j: int) -> bool {
    exists|i: int| 0 <= i < j && #[trigger] s[i].name@ == s[j].name@
}

/// Whether some name repeats an earlier one.
pub open spec fn has_dup(s: Seq<RawStep>) -> bool {
    exists|j: int| 0 <= j < s.len() && name_dup_at(s, j)
}

/// The first step whose name repeats an earlier one.
pub open spec fn first_dup(s: Seq<RawStep>) -> int {
    choose|j: int| 0 <= j < s.len() && name_dup_at(s, j) && forall|k: int| 0 <= k < j ==> !name_dup_at(s, k)
}

pub open spec fn resolve_diff(apply: Option<DiffField>, step_name: String) -> Option<String> {
    match apply {
        Some(DiffField::Bool(true)) => Some(step_name),
        Some(DiffField::Name(s)) => Some(s),
        _ => None,
    }
}

pub open spec fn step_of(e: RawStep) -> StepDef {
    StepDef {
        name: e.name,
        forager: e.tool,
        description: e.description,
        diff: resolve_diff(e.apply_diff, e.name),
        inputs: e.inputs,
    }
}

pub open spec fn summary_of(step: String, s: RawSummary) -> SummaryDef {
    SummaryDef {
        name: s.name,
        step,
        measurement: s.outcome,
        aggregation: s.aggregation,
        filter: s.filter,
        bisect: s.bisect,
        samples: s.samples,
    }
}

/// All embedded summaries, step by step, each in declaration order.
pub open spec fn summaries_of(s: Seq<RawStep>) -> Seq<SummaryDef>
    decreases s.len(),
{
    if s.len() == 0 {
        Seq::empty()
    } else {
        summaries_of(s.drop_last()) + s.last().summaries@.map_values(
            |x: RawSummary| summary_of(s.last().name, x),
        )
    }
}

// ── Executable ───────────────────────────────────────────────────────────────

fn insert_position(t: &Vec<RawStep>, key: usize) -> (p: usize)
    ensures
        p == insert_pos(t@, key),
        p <= t@.len(),
{
    let mut i = t.len();
    assert(t@.subrange(0, t@.len() as int) == t@);
    while i > 0 && t[i - 1].span_start > key
        invariant
            i <= t@.len(),
            insert_pos(t@, key) == insert_pos(t@.subrange(0, i as int), key),
        decreases i,
    {
        assert(t@.subrange(0, i as int).drop_last() == t@.subrange(0, i - 1));
        i = i - 1;
    }
    proof {
        if i > 0 {
            assert(t@.subrange(0, i as int).last() == t@[i - 1]);
        }
    }
    i
}

fn sort_by_source_order(entries: Vec<RawStep>) -> (r: Vec<RawStep>)
    ensures
        r@ == source_order(entries@),
{
    let ghost orig = entries@;
    let ghost n = orig.len();
    let mut rest = entries;
    let mut sorted: Vec<RawStep> = Vec::new();
    let ghost mut done: int = 0;
    assert(orig.subrange(0, 0) == Seq::<RawStep>::empty());
    assert(orig.subrange(0, n as int) == orig);
    while rest.len() > 0
        invariant
            0 <= done <= n,
            n == orig.len(),
            rest@ == orig.subrange(done, n as int),
            sorted@ == source_order(orig.subrange(0, done)),
        decreases rest.len(),
    {
        let e = rest.remove(0);
        let ghost pre = orig.subrange(0, done + 1);
        assert(pre.drop_last() == orig.subrange(0, done));
        assert(pre.last() == e);
        let p = insert_position(&sorted, e.span_start);
        sorted.insert(p, e);
        proof {
            done = done + 1;
        }
        assert(rest@ == orig.subrange(done, n as int));
    }
    sorted
}

fn same_name(a: &String, b: &String) -> (r: bool)
    ensures
        r == (a@ == b@),
{
    let av = crate::text::chars_of(a.as_str());
    let bv = crate::text::chars_of(b.as_str());
    crate::text::chars_eq(&av, &bv)
}

/// Index of the first step whose name repeats an earlier one.
fn find_duplicate(s: &Vec<RawStep>) -> (r: Option<usize>)
    ensures
        r is None <==> !has_dup(s@),
        r matches Some(j) ==> j < s@.len() && j == first_dup(s@),
{
    let n = s.len();
    let mut j: usize = 0;
    while j < n
        invariant
            n == s@.len(),
            j <= n,
            forall|k: int| 0 <= k < j ==> !name_dup_at(s@, k),
        decreases n - j,
    {
        let mut i: usize = 0;
        while i < j
            invariant
                n == s@.len(),
                i <= j < n,
                forall|k: int| 0 <= k < j ==> !name_dup_at(s@, k),
                forall|k: int| 0 <= k < i ==> s@[k].name@ != s@[j as int].name@,
            decreases j - i,
        {
            if same_name(&s[i].name, &s[j].name) {
                proof {
                    assert(s@[i as int].name@ == s@[j as int].name@);
                    assert(name_dup_at(s@, j as int));
                    assert(0 <= j < s@.len() && name_dup_at(s@, j as int) && forall|k: int|
                        0 <= k < j ==> !name_dup_at(s@, k));
                    let c = first_dup(s@);
                    if c < j {
                        assert(!name_dup_at(s@, c));
                    } else if c > j {
                        assert(!name_dup_at(s@, j as int));
                    }
                }
                return Some(j);
            }
            i = i + 1;
        }
        j = j + 1;
    }
    None
}

/// Puts the steps into source order, rejects a step name used under two
/// tools, and flattens the embedded summaries (steps in source order,
/// summaries of a step in declaration order).
pub fn assemble_experiment(
    name: String,
    description: Option<String>,
    entries: Vec<RawStep>,
) -> (r: Result<ExperimentDef, ExperimentError>)
    ensures
        r is Err <==> has_dup(source_order(entries@)),
        r matches Err(ExperimentError::DuplicateStepName(n)) ==> n@ == source_order(
            entries@,
        )[first_dup(source_order(entries@))].name@,
        r matches Ok(def) ==> {
            &&& def.name == name
            &&& def.description == description
            &&& def.steps@ == source_order(entries@).map_values(|e: RawStep| step_of(e))
            &&& def.summaries@ == summaries_of(source_order(entries@))
        },
{
    let mut sorted = sort_by_source_order(entries);
    let ghost ordered = sorted@;
    if let Some(j) = find_duplicate(&sorted) {
        let dup = sorted[j].name.clone();
        return Err(ExperimentError::DuplicateStepName(dup));
    }
    let ghost n = ordered.len();
    let mut steps: Vec<StepDef> = Vec::new();
    let mut summaries: Vec<SummaryDef> = Vec::new();
    let ghost mut done: int = 0;
    assert(ordered.subrange(0, 0) == Seq::<RawStep>::empty());
    assert(ordered.subrange(0, n as int) == ordered);
    while sorted.len() > 0
        invariant
            0 <= done <= n,
            n == ordered.len(),
            sorted@ == ordered.subrange(done, n as int),
            steps@ == ordered.subrange(0, done).map_values(|e: RawStep| step_of(e)),
            summaries@ == summaries_of(ordered.subrange(0, done)),
        decreases sorted.len(),
    {
        let e = sorted.remove(0);
        let ghost ge = e;
        let ghost pre = ordered.subrange(0, done + 1);
        assert(pre.drop_last() == ordered.subrange(0, done));
        assert(pre.last() == ge);
        let RawStep { tool, name: step_name, span_start: _, description: step_desc, apply_diff, summaries: mut sums, inputs } = e;
        let ghost base = summaries@;
        let ghost all = ge.summaries@;
        let ghost mut k: int = 0;
        assert(all.subrange(0, 0) == Seq::<RawSummary>::empty());
        assert(all.subrange(0, all.len() as int) == all);
        while sums.len() > 0
            invariant
                0 <= k <= all.len(),
                sums@ == all.subrange(k, all.len() as int),
                summaries@ == base + all.subrange(0, k).map_values(
                    |x: RawSummary| summary_of(step_name, x),
                ),
            decreases sums.len(),
        {
            let x = sums.remove(0);
            let ghost gx = x;
            let RawSummary { name: sname, outcome, aggregation, filter, bisect, samples } = x;
            summaries.push(
                SummaryDef {
                    name: sname,
                    step: step_name.clone(),
                    measurement: outcome,
                    aggregation,
                    filter,
                    bisect,
                    samples,
                },
            );
            proof {
                assert(all.subrange(0, k + 1) == all.subrange(0, k).push(gx));
                assert(all.subrange(0, k + 1).map_values(|x: RawSummary| summary_of(step_name, x))
                    == all.subrange(0, k).map_values(|x: RawSummary| summary_of(step_name, x)).push(
                    summary_of(step_name, gx),
                ));
                k = k + 1;
            }
            assert(sums@ == all.subrange(k, all.len() as int));
        }
        let diff = match apply_diff {
            Some(DiffField::Bool(true)) => Some(step_name.clone()),
            Some(DiffField::Bool(false)) | None => None,
            Some(DiffField::Name(s)) => Some(s),
        };
        steps.push(
            StepDef { name: step_name, forager: tool, description: step_desc, diff, inputs },
        );
        proof {
            assert(pre.map_values(|e: RawStep| step_of(e)) == ordered.subrange(0, done).map_values(
                |e: RawStep| step_of(e),
            ).push(step_of(ge)));
            done = done + 1;
        }
        assert(sorted@ == ordered.subrange(done, n as int));
    }
    Ok(ExperimentDef { name, description, steps, summaries })
}


// ── Laws ─────────────────────────────────────────────────────────────────────

/// Steps ordered by body offset.
pub open spec fn offsets_sorted(s: Seq<RawStep>) -> bool {
    forall|i: int, j: int| 0 <= i < j < s.len() ==> s[i].span_start <= s[j].span_start
}

proof fn lemma_insert_pos(t: Seq<RawStep>, key: usize)
    ensures
        0 <= insert_pos(t, key) <= t.len(),
        forall|k: int| insert_pos(t, key) <= k < t.len() ==> t[k].span_start > key,
        insert_pos(t, key) > 0 ==> t[insert_pos(t, key) - 1].span_start <= key,
    decreases t.len(),
{
    if t.len() > 0 && t.last().span_start > key {
        lemma_insert_pos(t.drop_last(), key);
        assert forall|k: int| insert_pos(t, key) <= k < t.len() implies t[k].span_start > key by {
            if k < t.len() - 1 {
                assert(t.drop_last()[k] == t[k]);
            }
        }
    }
}

/// Putting the steps in source order only reorders them, and afterwards
/// every step's body comes after those before it: the steps run in the
/// order they are written in `experiment.toml`, whatever tool they use.
pub proof fn law_source_order_sorts(s: Seq<RawStep>)
    ensures
        offsets_sorted(source_order(s)),
        source_order(s).to_multiset() == s.to_multiset(),
        source_order(s).len() == s.len(),
    decreases s.len(),
{
    broadcast use vstd::seq_lib::to_multiset_insert, vstd::seq_lib::to_multiset_build;
    if s.len() > 0 {
        let t = source_order(s.drop_last());
        let x = s.last();
        law_source_order_sorts(s.drop_last());
        lemma_insert_pos(t, x.span_start);
        let p = insert_pos(t, x.span_start);
        let r = t.insert(p, x);
        assert(source_order(s) == r);
        assert forall|i: int, j: int| 0 <= i < j < r.len() implies r[i].span_start <= r[j].span_start by {
            if j < p {
                assert(r[i] == t[i] && r[j] == t[j]);
            } else if j == p {
                assert(r[i] == t[i]);
                assert(t[i].span_start <= t[p - 1].span_start);
            } else if i < p {
                assert(r[i] == t[i] && r[j] == t[j - 1]);
                assert(t[j - 1].span_start > x.span_start);
                if p > 0 {
                    assert(t[i].span_start <= t[p - 1].span_start);
                }
            } else if i == p {
                assert(r[j] == t[j - 1]);
            } else {
                assert(r[i] == t[i - 1] && r[j] == t[j - 1]);
            }
        }
        assert(s == s.drop_last().push(x));
        assert(s.to_multiset() == s.drop_last().to_multiset().insert(x));
    }
}

} // verus!
