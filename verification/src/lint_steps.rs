//! The per-step checks of `wezel experiment lint`: patch files, the forager
//! gate, the installed plugin, its cached schema sidecar, and the step's
//! inputs validated against that schema.
use vstd::prelude::*;

use crate::experiment::SummaryDef;
use crate::lint::{
    diag_views, disagreements, fetch_failed, fetch_failed_message, missing_aggregations,
    not_declared, not_declared_message, not_installed, not_installed_message, not_locked,
    not_locked_message, patch_missing, patch_missing_message, summary_diagnostics,
    LintDiagnostic, LintSession,
};
use crate::text::{append_chars, append_str, chars_of, string_of, trim_start_matches, trim_start_matches_str};

verus! {

/// One violation reported by the schema validator.
#[derive(Debug, Clone)]
pub struct SchemaViolation {
    /// JSON pointer to the offending input (`""` for the root).
    pub instance_path: String,
    /// The validator's description of the violation.
    pub message: String,
}

/// What validating a step's inputs against a forager schema gave.
#[derive(Debug, Clone)]
pub enum SchemaOutcome {
    /// The schema itself did not compile; the validator's error.
    CompileFailed(String),
    /// The violations found, in the validator's order.
    Violations(Vec<SchemaViolation>),
}

/// Whether the step's forager is available locally.
#[derive(Debug, Clone)]
pub enum InstallState {
    Installed,
    /// It was missing and fetching it from its locked tag failed.
    FetchFailed(String),
    /// It is missing, and was not fetched or the fetch left it missing.
    Missing,
}

/// The forager's cached schema sidecar as read from disk.
#[derive(Debug)]
pub enum SidecarState {
    /// The file could not be read.
    Unreadable { path: String, error: String },
    /// The file does not parse as a sidecar.
    Malformed { error: String },
    /// The sidecar's schema for step inputs.
    Loaded(serde_json::Value),
}

/// What lint knows of one step. `install` and `sidecar` are only consulted
/// where the forager is declared and locked (and, for `sidecar`, installed).
#[derive(Debug)]
pub struct StepLintInput {
    pub step: String,
    pub forager: String,
    /// Patch file stem, when the step applies one.
    pub diff: Option<String>,
    /// Whether `<diff>.patch` exists next to `experiment.toml`.
    pub patch_exists: bool,
    /// Declared under `[tools.foragers]`.
    pub declared: bool,
    /// Locked in `wezel.lock`.
    pub locked: bool,
    pub install: InstallState,
    pub sidecar: SidecarState,
    /// The step's forager inputs.
    pub inputs: serde_json::Value,
}

// ── Messages ─────────────────────────────────────────────────────────────────

/// `s` with every `a` replaced by `b`.
pub open spec fn replace_char(s: Seq<char>, a: char, b: char) -> Seq<char> {
    s.map_values(|c: char| if c == a { b } else { c })
}

/// A JSON pointer as lint prints it: leading `/`s dropped, the others
/// turned into `.`.
pub open spec fn dotted_path(p: Seq<char>) -> Seq<char> {
    replace_char(trim_start_matches(p, "/"@), '/', '.')
}

pub open spec fn violation_message(path: Seq<char>, msg: Seq<char>) -> Seq<char> {
    if path.len() == 0 {
        "input: "@ + msg
    } else {
        "input at `"@ + dotted_path(path) + "`: "@ + msg
    }
}

pub open spec fn compile_failed_message(f: Seq<char>, err: Seq<char>) -> Seq<char> {
    "cached schema for `forager-"@ + f + "` failed to compile ("@ + err
        + ") — run `wezel project tool sync` to refresh"@
}

pub open spec fn malformed_sidecar_message(f: Seq<char>, err: Seq<char>) -> Seq<char> {
    "cached schema for `forager-"@ + f + "` does not match the current format ("@ + err
        + ") — run `wezel project tool sync` to refresh"@
}

pub open spec fn unreadable_sidecar_message(f: Seq<char>, path: Seq<char>, err: Seq<char>) -> Seq<char> {
    "no cached schema for `forager-"@ + f + "` at "@ + path + " ("@ + err + ") — reinstall the forager"@
}

/// The findings on a step's inputs: one for a schema that failed to
/// compile, else one per violation, in order.
pub open spec fn input_diags(step: Seq<char>, f: Seq<char>, o: SchemaOutcome) -> Seq<(Seq<char>, Seq<char>)> {
    match o {
        SchemaOutcome::CompileFailed(e) => seq![(step, compile_failed_message(f, e@))],
        SchemaOutcome::Violations(vs) => Seq::new(
            vs@.len(),
            |i: int| (step, violation_message(vs@[i].instance_path@, vs@[i].message@)),
        ),
    }
}

/// The findings on the sidecar of an installed forager.
pub open spec fn sidecar_diags(s: StepLintInput, o: SchemaOutcome) -> Seq<(Seq<char>, Seq<char>)> {
    match s.sidecar {
        SidecarState::Unreadable { path, error } => seq![
            (s.step@, unreadable_sidecar_message(s.forager@, path@, error@)),
        ],
        SidecarState::Malformed { error } => seq![(s.step@, malformed_sidecar_message(s.forager@, error@))],
        SidecarState::Loaded(_) => input_diags(s.step@, s.forager@, o),
    }
}

/// `m` on the step, the first time its forager is warned about.
pub open spec fn once(step: Seq<char>, m: Seq<char>, first: bool) -> Seq<(Seq<char>, Seq<char>)> {
    if first {
        seq![(step, m)]
    } else {
        Seq::empty()
    }
}

/// The findings on one step and the foragers warned about after it, from
/// those warned about before: a missing patch first; then, each ending the
/// step's checks and reported once per forager, an undeclared forager, an
/// unlocked one, a failed fetch, a missing plugin; else the sidecar and
/// input findings.
pub open spec fn step_lint(s: StepLintInput, o: SchemaOutcome, warned: Set<Seq<char>>) -> (
    Seq<(Seq<char>, Seq<char>)>,
    Set<Seq<char>>,
) {
    let patch = match s.diff {
        Some(d) => if s.patch_exists {
            Seq::empty()
        } else {
            seq![(s.step@, patch_missing_message(d@))]
        },
        None => Seq::empty(),
    };
    let f = s.forager@;
    let first = !warned.contains(f);
    if !s.declared {
        (patch + once(s.step@, not_declared_message(f), first), warned.insert(f))
    } else if !s.locked {
        (patch + once(s.step@, not_locked_message(f), first), warned.insert(f))
    } else {
        match s.install {
            InstallState::FetchFailed(e) => (
                patch + once(s.step@, fetch_failed_message(f, e@), first),
                warned.insert(f),
            ),
            InstallState::Missing => (patch + once(s.step@, not_installed_message(f), first), warned.insert(f)),
            InstallState::Installed => (patch + sidecar_diags(s, o), warned),
        }
    }
}

/// The step findings of an experiment, each step with its validation
/// outcome, threading the foragers warned about.
pub open spec fn steps_lint(s: Seq<StepLintInput>, os: Seq<SchemaOutcome>, warned: Set<Seq<char>>) -> (
    Seq<(Seq<char>, Seq<char>)>,
    Set<Seq<char>>,
)
    decreases s.len(),
{
    if s.len() == 0 {
        (Seq::empty(), warned)
    } else {
        let (d, w) = steps_lint(s.drop_last(), os.drop_last(), warned);
        let (d2, w2) = step_lint(s.last(), os.last(), w);
        (d + d2, w2)
    }
}

/// The outcome the steps' validation gives: where the sidecar was loaded,
/// its schema with `additionalProperties` set to `false`, validated by
/// draft 7 against the step's inputs; otherwise no violations.
pub open spec fn outcome_fits(s: StepLintInput, o: SchemaOutcome) -> bool {
    match s.sidecar {
        SidecarState::Loaded(schema) => o == draft7_result(
            json_with_bool(schema, "additionalProperties"@, false),
            s.inputs,
        ),
        _ => o matches SchemaOutcome::Violations(vs) && vs@.len() == 0,
    }
}

/// The experiment's findings `r` and the foragers warned about `w`, given
/// the validation outcome of each step: summary findings first, then the
/// steps'.
pub open spec fn experiment_lint(
    sums: Seq<SummaryDef>,
    s: Seq<StepLintInput>,
    warned: Set<Seq<char>>,
    r: Seq<(Seq<char>, Seq<char>)>,
    w: Set<Seq<char>>,
) -> bool {
    exists|os: Seq<SchemaOutcome>|
        #![trigger steps_lint(s, os, warned)]
        os.len() == s.len() && (forall|i: int| 0 <= i < s.len() ==> #[trigger] outcome_fits(s[i], os[i]))
            && r == disagreements(sums, sums.len() as int) + missing_aggregations(sums) + steps_lint(
            s,
            os,
            warned,
        ).0 && w == steps_lint(s, os, warned).1
}

/// `v` with `key` set to `b` (`serde_json::Map::insert` on a clone, where
/// `v` is an object).
pub uninterp spec fn json_with_bool(v: serde_json::Value, key: Seq<char>, b: bool) -> serde_json::Value;

/// What draft-7 validation of `instance` against `schema` gives
/// (`jsonschema::draft7::new`, then `Validator::iter_errors`).
pub uninterp spec fn draft7_result(schema: serde_json::Value, instance: serde_json::Value) -> SchemaOutcome;

// ── Outside calls ────────────────────────────────────────────────────────────

/// `v` with `key` set to `b` where `v` is an object (`serde_json::Map::insert`);
/// any other value unchanged. The result is named, as a function of the
/// arguments alone; Verus cannot see inside a JSON value.
#[verifier::external_body]
fn with_bool_field(v: &serde_json::Value, key: &str, b: bool) -> (r: serde_json::Value)
    ensures
        r == json_with_bool(*v, key@, b),
{
    let mut out = v.clone();
    if let Some(root) = out.as_object_mut() {
        root.insert(key.to_string(), serde_json::Value::Bool(b));
    }
    out
}

/// Compiles `schema` with `jsonschema::draft7::new` and lists the
/// violations of `instance` (`Validator::iter_errors`), each with its
/// instance path and message. With no remote or file references enabled
/// the result depends on the two values alone; it is named, not stated.
#[verifier::external_body]
fn draft7_outcome(schema: &serde_json::Value, instance: &serde_json::Value) -> (r: SchemaOutcome)
    ensures
        r == draft7_result(*schema, *instance),
{
    match jsonschema::draft7::new(schema) {
        Err(e) => SchemaOutcome::CompileFailed(e.to_string()),
        Ok(v) => SchemaOutcome::Violations(
            v.iter_errors(instance).map(|e| SchemaViolation {
                instance_path: e.instance_path().to_string(),
                message: e.to_string(),
            }).collect(),
        ),
    }
}

// ── Checks ───────────────────────────────────────────────────────────────────

/// `s` with every `a` replaced by `b`.
fn replace_all(v: &[char], a: char, b: char) -> (r: Vec<char>)
    ensures
        r@ == replace_char(v@, a, b),
{
    let mut r: Vec<char> = Vec::new();
    let mut i: usize = 0;
    while i < v.len()
        invariant
            i <= v@.len(),
            r@ == replace_char(v@.subrange(0, i as int), a, b),
        decreases v.len() - i,
    {
        let c = if v[i] == a {
            b
        } else {
            v[i]
        };
        r.push(c);
        assert(replace_char(v@.subrange(0, i + 1), a, b) =~= replace_char(v@.subrange(0, i as int), a, b).push(c));
        i = i + 1;
    }
    assert(v@.subrange(0, v@.len() as int) == v@);
    r
}

/// The finding for one schema violation.
pub fn violation_diagnostic(step_name: &str, v: &SchemaViolation) -> (d: LintDiagnostic)
    ensures
        d.step@ == step_name@,
        d.message@ == violation_message(v.instance_path@, v.message@),
{
    let path = chars_of(v.instance_path.as_str());
    let mut m: Vec<char> = Vec::new();
    if path.len() == 0 {
        append_str(&mut m, "input: ");
    } else {
        append_str(&mut m, "input at `");
        let trimmed = trim_start_matches_str(&path, "/");
        let dotted = replace_all(&trimmed, '/', '.');
        append_chars(&mut m, &dotted);
        append_str(&mut m, "`: ");
    }
    append_str(&mut m, v.message.as_str());
    LintDiagnostic { step: step_name.to_string(), message: string_of(&m) }
}

/// The findings on a step's inputs from the validator's outcome.
pub fn validate_step_inputs(step_name: &str, forager: &str, outcome: SchemaOutcome) -> (r: Vec<LintDiagnostic>)
    ensures
        diag_views(r@) == input_diags(step_name@, forager@, outcome),
{
    match outcome {
        SchemaOutcome::CompileFailed(e) => {
            let mut m: Vec<char> = Vec::new();
            append_str(&mut m, "cached schema for `forager-");
            append_str(&mut m, forager);
            append_str(&mut m, "` failed to compile (");
            append_str(&mut m, e.as_str());
            append_str(&mut m, ") — run `wezel project tool sync` to refresh");
            let r = vec![LintDiagnostic { step: step_name.to_string(), message: string_of(&m) }];
            assert(diag_views(r@) =~= input_diags(step_name@, forager@, SchemaOutcome::CompileFailed(e)));
            r
        },
        SchemaOutcome::Violations(vs) => {
            let ghost o = SchemaOutcome::Violations(vs);
            let mut r: Vec<LintDiagnostic> = Vec::new();
            let mut i: usize = 0;
            while i < vs.len()
                invariant
                    i <= vs@.len(),
                    o == SchemaOutcome::Violations(vs),
                    diag_views(r@) =~= input_diags(step_name@, forager@, o).subrange(0, i as int),
                decreases vs.len() - i,
            {
                let d = violation_diagnostic(step_name, &vs[i]);
                let ghost before = r@;
                r.push(d);
                let ghost all = input_diags(step_name@, forager@, o);
                assert(all.len() == vs@.len());
                assert(all[i as int] == (step_name@, violation_message(vs@[i as int].instance_path@, vs@[i as int].message@)));
                assert(diag_views(r@) =~= diag_views(before).push((d.step@, d.message@)));
                assert(diag_views(r@) =~= input_diags(step_name@, forager@, o).subrange(0, i + 1));
                i = i + 1;
            }
            assert(input_diags(step_name@, forager@, o).subrange(0, vs@.len() as int) =~= input_diags(step_name@, forager@, o));
            r
        },
    }
}

fn warn(out: &mut Vec<LintDiagnostic>, step: &String, m: String, first: bool)
    ensures
        diag_views(final(out)@) == diag_views(old(out)@) + once(step@, m@, first),
{
    let ghost before = out@;
    if first {
        out.push(LintDiagnostic { step: step.clone(), message: m });
        assert(diag_views(out@) =~= diag_views(before) + once(step@, m@, first));
    } else {
        assert(diag_views(out@) =~= diag_views(before) + once(step@, m@, first));
    }
}

fn push_one(out: &mut Vec<LintDiagnostic>, step: &String, m: String)
    ensures
        diag_views(final(out)@) == diag_views(old(out)@) + seq![(step@, m@)],
{
    let ghost before = out@;
    out.push(LintDiagnostic { step: step.clone(), message: m });
    assert(diag_views(out@) =~= diag_views(before) + seq![(step@, m@)]);
}

/// The findings on one step, given what validating its inputs gave.
pub fn lint_step_with(s: &StepLintInput, outcome: SchemaOutcome, session: &mut LintSession) -> (r: Vec<LintDiagnostic>)
    requires
        old(session).wf(),
    ensures
        final(session).wf(),
        (diag_views(r@), final(session).warned()) == step_lint(*s, outcome, old(session).warned()),
{
    let mut out: Vec<LintDiagnostic> = Vec::new();
    if let Some(d) = &s.diff {
        if !s.patch_exists {
            push_one(&mut out, &s.step, patch_missing(d.as_str()));
        }
    }
    assert(diag_views(out@) =~= match s.diff {
        Some(d) => if s.patch_exists {
            Seq::<(Seq<char>, Seq<char>)>::empty()
        } else {
            seq![(s.step@, patch_missing_message(d@))]
        },
        None => Seq::<(Seq<char>, Seq<char>)>::empty(),
    });
    let f = s.forager.as_str();
    if !s.declared {
        let first = session.warn_once(f);
        warn(&mut out, &s.step, not_declared(f), first);
        return out;
    }
    if !s.locked {
        let first = session.warn_once(f);
        warn(&mut out, &s.step, not_locked(f), first);
        return out;
    }
    match &s.install {
        InstallState::FetchFailed(e) => {
            let first = session.warn_once(f);
            warn(&mut out, &s.step, fetch_failed(f, e.as_str()), first);
            return out;
        },
        InstallState::Missing => {
            let first = session.warn_once(f);
            warn(&mut out, &s.step, not_installed(f), first);
            return out;
        },
        InstallState::Installed => {},
    }
    let ghost before = out@;
    match &s.sidecar {
        SidecarState::Unreadable { path, error } => {
            let mut m: Vec<char> = Vec::new();
            append_str(&mut m, "no cached schema for `forager-");
            append_str(&mut m, f);
            append_str(&mut m, "` at ");
            append_str(&mut m, path.as_str());
            append_str(&mut m, " (");
            append_str(&mut m, error.as_str());
            append_str(&mut m, ") — reinstall the forager");
            push_one(&mut out, &s.step, string_of(&m));
        },
        SidecarState::Malformed { error } => {
            let mut m: Vec<char> = Vec::new();
            append_str(&mut m, "cached schema for `forager-");
            append_str(&mut m, f);
            append_str(&mut m, "` does not match the current format (");
            append_str(&mut m, error.as_str());
            append_str(&mut m, ") — run `wezel project tool sync` to refresh");
            push_one(&mut out, &s.step, string_of(&m));
        },
        SidecarState::Loaded(_) => {
            let mut found = validate_step_inputs(s.step.as_str(), f, outcome);
            let ghost fv = found@;
            out.append(&mut found);
            assert(diag_views(out@) =~= diag_views(before) + diag_views(fv));
        },
    }
    out
}

/// Validates the step's inputs against the forager's loaded schema, with
/// unknown inputs refused; no violations where no schema was loaded.
fn step_outcome(s: &StepLintInput) -> (o: SchemaOutcome)
    ensures
        outcome_fits(*s, o),
{
    match &s.sidecar {
        SidecarState::Loaded(schema) => {
            let closed = with_bool_field(schema, "additionalProperties", false);
            draft7_outcome(&closed, &s.inputs)
        },
        _ => SchemaOutcome::Violations(Vec::new()),
    }
}

/// All findings of one experiment: its summary findings, then each step's
/// in order, every forager problem reported once per session.
pub fn lint_experiment(sums: &[SummaryDef], steps: &[StepLintInput], session: &mut LintSession) -> (r: Vec<LintDiagnostic>)
    requires
        old(session).wf(),
    ensures
        final(session).wf(),
        experiment_lint(sums@, steps@, old(session).warned(), diag_views(r@), final(session).warned()),
{
    let mut out = summary_diagnostics(sums);
    let ghost base = diag_views(out@);
    let ghost w0 = session.warned();
    let ghost mut os: Seq<SchemaOutcome> = Seq::empty();
    let mut i: usize = 0;
    assert(steps@.subrange(0, 0) =~= Seq::<StepLintInput>::empty());
    assert(diag_views(out@) =~= base + Seq::<(Seq<char>, Seq<char>)>::empty());
    while i < steps.len()
        invariant
            i <= steps@.len(),
            session.wf(),
            os.len() == i,
            forall|q: int| 0 <= q < i ==> #[trigger] outcome_fits(steps@[q], os[q]),
            base == disagreements(sums@, sums@.len() as int) + missing_aggregations(sums@),
            diag_views(out@) == base + steps_lint(steps@.subrange(0, i as int), os, w0).0,
            session.warned() == steps_lint(steps@.subrange(0, i as int), os, w0).1,
        decreases steps.len() - i,
    {
        let o = step_outcome(&steps[i]);
        let ghost og = o;
        let ghost prev = steps_lint(steps@.subrange(0, i as int), os, w0);
        let mut d = lint_step_with(&steps[i], o, session);
        let ghost before = out@;
        let ghost dv = diag_views(d@);
        out.append(&mut d);
        proof {
            let sub = steps@.subrange(0, i + 1);
            let os2 = os.push(og);
            assert(sub.drop_last() =~= steps@.subrange(0, i as int));
            assert(os2.drop_last() =~= os);
            assert(sub.last() == steps@[i as int]);
            assert(diag_views(out@) =~= diag_views(before) + dv);
            assert(base + prev.0 + dv =~= base + (prev.0 + dv));
            os = os2;
        }
        i = i + 1;
    }
    assert(steps@.subrange(0, steps@.len() as int) =~= steps@);
    assert(steps_lint(steps@, os, w0).0 == steps_lint(steps@.subrange(0, steps@.len() as int), os, w0).0);
    out
}

} // verus!
