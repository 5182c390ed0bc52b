//! The rules `wezel experiment lint` applies to experiment definitions, and
//! the report it prints.
use vstd::prelude::*;

use crate::experiment::SummaryDef;
use crate::text::{append_chars, append_str, decimal, string_of, usize_digits};

verus! {

/// A lint finding, attached to a step (empty when experiment-wide).
#[derive(Debug, Clone)]
pub struct LintDiagnostic {
    pub step: String,
    pub message: String,
}

// ── Samples agreement ────────────────────────────────────────────────────────

/// The `samples` values of the summaries on `step`, in declaration order.
pub open spec fn samples_of_step(sums: Seq<SummaryDef>, step: Seq<char>) -> Seq<usize>
    decreases sums.len(),
{
    if sums.len() == 0 {
        Seq::empty()
    } else {
        samples_of_step(sums.drop_last(), step) + (if sums.last().step@ == step {
            seq![sums.last().samples]
        } else {
            Seq::empty()
        })
    }
}

/// `s` (ascending, distinct) with `x` added.
pub open spec fn insert_distinct(s: Seq<usize>, x: usize) -> Seq<usize>
    decreases s.len(),
{
    if s.len() == 0 {
        seq![x]
    } else if x < s[0] {
        seq![x] + s
    } else if x == s[0] {
        s
    } else {
        seq![s[0]] + insert_distinct(s.drop_first(), x)
    }
}

/// The distinct values of `s`, ascending (a `BTreeSet`'s order).
pub open spec fn sorted_distinct(s: Seq<usize>) -> Seq<usize>
    decreases s.len(),
{
    if s.len() == 0 {
        Seq::empty()
    } else {
        insert_distinct(sorted_distinct(s.drop_last()), s.last())
    }
}

/// Decimal values joined by `", "`.
pub open spec fn render_counts(s: Seq<usize>) -> Seq<char>
    decreases s.len(),
{
    if s.len() == 0 {
        Seq::empty()
    } else if s.len() == 1 {
        decimal(s[0] as nat)
    } else {
        render_counts(s.drop_last()) + ", "@ + decimal(s.last() as nat)
    }
}

pub open spec fn disagreement_message(counts: Seq<usize>) -> Seq<char> {
    "summaries disagree on `samples` ("@ + render_counts(counts)
        + "); all summaries on a step must use the same value"@
}

/// The summary at `i` is the first one on its step.
pub open spec fn first_on_step(sums: Seq<SummaryDef>, i: int) -> bool {
    forall|k: int| 0 <= k < i ==> #[trigger] sums[k].step@ != sums[i].step@
}

/// One finding per step whose summaries (among all of `sums`) disagree on
/// `samples`, for the steps first named by the summaries before `upto`, in
/// the order the steps first appear.
pub open spec fn disagreements(sums: Seq<SummaryDef>, upto: int) -> Seq<(Seq<char>, Seq<char>)>
    decreases upto,
{
    if upto <= 0 {
        Seq::empty()
    } else {
        let i = upto - 1;
        let counts = sorted_distinct(samples_of_step(sums, sums[i].step@));
        disagreements(sums, i) + (if first_on_step(sums, i) && counts.len() > 1 {
            seq![(sums[i].step@, disagreement_message(counts))]
        } else {
            Seq::empty()
        })
    }
}

pub open spec fn aggregation_message(s: SummaryDef) -> Seq<char> {
    "summary `"@ + s.name@ + "` has samples = "@ + decimal(s.samples as nat)
        + " but no `aggregation`; pick mean/median/min/max/sum"@
}

/// One finding per summary that samples more than once without saying how
/// to combine the values, in declaration order.
pub open spec fn missing_aggregations(sums: Seq<SummaryDef>) -> Seq<(Seq<char>, Seq<char>)>
    decreases sums.len(),
{
    if sums.len() == 0 {
        Seq::empty()
    } else {
        let s = sums.last();
        missing_aggregations(sums.drop_last()) + (if s.samples > 1 && s.aggregation is None {
            seq![(s.step@, aggregation_message(s))]
        } else {
            Seq::empty()
        })
    }
}

pub open spec fn diag_views(d: Seq<LintDiagnostic>) -> Seq<(Seq<char>, Seq<char>)> {
    d.map_values(|x: LintDiagnostic| (x.step@, x.message@))
}

fn insert_sample(v: &mut Vec<usize>, x: usize)
    ensures
        final(v)@ == insert_distinct(old(v)@, x),
{
    let n = v.len();
    let mut i: usize = 0;
    assert(v@.subrange(0, n as int) == v@);
    assert(v@.subrange(0, 0) + insert_distinct(v@, x) == insert_distinct(v@, x));
    while i < n && v[i] < x
        invariant
            n == v@.len(),
            i <= n,
            insert_distinct(v@, x) == v@.subrange(0, i as int) + insert_distinct(
                v@.subrange(i as int, n as int),
                x,
            ),
        decreases n - i,
    {
        let ghost rest = v@.subrange(i as int, n as int);
        assert(rest.drop_first() == v@.subrange(i + 1, n as int));
        assert(v@.subrange(0, i + 1) == v@.subrange(0, i as int).push(rest[0]));
        assert(v@.subrange(0, i as int) + (seq![rest[0]] + insert_distinct(rest.drop_first(), x))
            == v@.subrange(0, i + 1) + insert_distinct(rest.drop_first(), x));
        i = i + 1;
    }
    let ghost rest = v@.subrange(i as int, n as int);
    if i < n && v[i] == x {
        assert(v@.subrange(0, i as int) + rest == v@);
        return;
    }
    let ghost before = v@;
    v.insert(i, x);
    proof {
        if i < n {
            assert(insert_distinct(rest, x) == seq![x] + rest);
        } else {
            assert(rest == Seq::<usize>::empty());
        }
        assert(v@ == before.subrange(0, i as int) + (seq![x] + rest));
    }
}

fn step_samples(sums: &[SummaryDef], step: &String) -> (r: Vec<usize>)
    ensures
        r@ == sorted_distinct(samples_of_step(sums@, step@)),
{
    let mut r: Vec<usize> = Vec::new();
    let mut k: usize = 0;
    while k < sums.len()
        invariant
            k <= sums@.len(),
            r@ == sorted_distinct(samples_of_step(sums@.subrange(0, k as int), step@)),
        decreases sums.len() - k,
    {
        let ghost pre = sums@.subrange(0, k + 1);
        assert(pre.drop_last() == sums@.subrange(0, k as int));
        if same(&sums[k].step, step) {
            insert_sample(&mut r, sums[k].samples);
            let ghost prev = samples_of_step(sums@.subrange(0, k as int), step@);
            assert(samples_of_step(pre, step@) == prev.push(sums@[k as int].samples));
            assert(prev.push(sums@[k as int].samples).drop_last() == prev);
        } else {
            let ghost prev = samples_of_step(sums@.subrange(0, k as int), step@);
            assert(prev + Seq::<usize>::empty() == prev);
            assert(samples_of_step(pre, step@) == prev);
        }
        k = k + 1;
    }
    assert(sums@.subrange(0, sums@.len() as int) == sums@);
    r
}

fn same(a: &String, b: &String) -> (r: bool)
    ensures
        r == (a@ == b@),
{
    let av = crate::text::chars_of(a.as_str());
    let bv = crate::text::chars_of(b.as_str());
    crate::text::chars_eq(&av, &bv)
}

fn render_counts_exec(counts: &Vec<usize>) -> (r: Vec<char>)
    ensures
        r@ == render_counts(counts@),
{
    let mut out: Vec<char> = Vec::new();
    let mut i: usize = 0;
    while i < counts.len()
        invariant
            i <= counts@.len(),
            out@ == render_counts(counts@.subrange(0, i as int)),
        decreases counts.len() - i,
    {
        let ghost pre = counts@.subrange(0, i + 1);
        assert(pre.drop_last() == counts@.subrange(0, i as int));
        if i > 0 {
            append_str(&mut out, ", ");
        }
        let d = usize_digits(counts[i]);
        append_chars(&mut out, &d);
        proof {
            if i == 0 {
                assert(out@ == decimal(counts@[0] as nat));
            }
        }
        i = i + 1;
    }
    assert(counts@.subrange(0, counts@.len() as int) == counts@);
    out
}

/// Steps whose summaries disagree on `samples`, one finding per step in the
/// order the steps first appear among the summaries.
pub fn samples_disagreements(sums: &[SummaryDef]) -> (r: Vec<LintDiagnostic>)
    ensures
        diag_views(r@) == disagreements(sums@, sums@.len() as int),
{
    let mut out: Vec<LintDiagnostic> = Vec::new();
    let mut i: usize = 0;
    while i < sums.len()
        invariant
            i <= sums@.len(),
            diag_views(out@) == disagreements(sums@, i as int),
        decreases sums.len() - i,
    {
        let mut first = true;
        let mut k: usize = 0;
        while k < i
            invariant
                k <= i < sums@.len(),
                first == (forall|m: int| 0 <= m < k ==> #[trigger] sums@[m].step@ != sums@[i as int].step@),
            decreases i - k,
        {
            if same(&sums[k].step, &sums[i].step) {
                first = false;
            }
            k = k + 1;
        }
        let counts = step_samples(sums, &sums[i].step);
        let ghost before = out@;
        if first && counts.len() > 1 {
            let mut msg: Vec<char> = Vec::new();
            append_str(&mut msg, "summaries disagree on `samples` (");
            let rendered = render_counts_exec(&counts);
            append_chars(&mut msg, &rendered);
            append_str(&mut msg, "); all summaries on a step must use the same value");
            out.push(LintDiagnostic { step: sums[i].step.clone(), message: string_of(&msg) });
            assert(diag_views(out@) == diag_views(before).push((sums@[i as int].step@, disagreement_message(counts@))));
        } else {
            assert(diag_views(out@) == diag_views(before) + Seq::<(Seq<char>, Seq<char>)>::empty());
        }
        i = i + 1;
    }
    out
}

/// Summaries with `samples > 1` and no aggregation, in declaration order.
pub fn missing_aggregation(sums: &[SummaryDef]) -> (r: Vec<LintDiagnostic>)
    ensures
        diag_views(r@) == missing_aggregations(sums@),
{
    let mut out: Vec<LintDiagnostic> = Vec::new();
    let mut i: usize = 0;
    while i < sums.len()
        invariant
            i <= sums@.len(),
            diag_views(out@) == missing_aggregations(sums@.subrange(0, i as int)),
        decreases sums.len() - i,
    {
        let ghost pre = sums@.subrange(0, i + 1);
        assert(pre.drop_last() == sums@.subrange(0, i as int));
        let s = &sums[i];
        let ghost before = out@;
        if s.samples > 1 && s.aggregation.is_none() {
            let mut msg: Vec<char> = Vec::new();
            append_str(&mut msg, "summary `");
            append_str(&mut msg, s.name.as_str());
            append_str(&mut msg, "` has samples = ");
            let d = usize_digits(s.samples);
            append_chars(&mut msg, &d);
            append_str(&mut msg, " but no `aggregation`; pick mean/median/min/max/sum");
            out.push(LintDiagnostic { step: s.step.clone(), message: string_of(&msg) });
            assert(diag_views(out@) == diag_views(before).push((s.step@, aggregation_message(*s))));
        } else {
            assert(diag_views(out@) == diag_views(before) + Seq::<(Seq<char>, Seq<char>)>::empty());
        }
        i = i + 1;
    }
    assert(sums@.subrange(0, sums@.len() as int) == sums@);
    out
}

/// All summary findings of an experiment: samples disagreements first,
/// then summaries lacking an aggregation.
pub fn summary_diagnostics(sums: &[SummaryDef]) -> (r: Vec<LintDiagnostic>)
    ensures
        diag_views(r@) == disagreements(sums@, sums@.len() as int) + missing_aggregations(sums@),
{
    let mut a = samples_disagreements(sums);
    let mut b = missing_aggregation(sums);
    let ghost (va, vb) = (a@, b@);
    let ghost mut k: int = 0;
    assert(vb.subrange(0, 0) == Seq::<LintDiagnostic>::empty());
    assert(vb.subrange(0, vb.len() as int) == vb);
    while b.len() > 0
        invariant
            0 <= k <= vb.len(),
            b@ == vb.subrange(k, vb.len() as int),
            a@ == va + vb.subrange(0, k),
        decreases b.len(),
    {
        let x = b.remove(0);
        a.push(x);
        proof {
            assert(vb.subrange(0, k + 1) == vb.subrange(0, k).push(x));
            k = k + 1;
        }
        assert(b@ == vb.subrange(k, vb.len() as int));
    }
    assert(diag_views(va + vb) == diag_views(va) + diag_views(vb));
    a
}

// ── Forager checks ───────────────────────────────────────────────────────────

pub open spec fn not_declared_message(f: Seq<char>) -> Seq<char> {
    "forager `"@ + f + "` is not declared — add `[tools.foragers."@ + f
        + "]` to .wezel/config.toml"@
}

pub open spec fn not_locked_message(f: Seq<char>) -> Seq<char> {
    "forager `"@ + f + "` is declared but not locked — run `wezel experiment run` to refresh wezel.lock"@
}

pub open spec fn not_installed_message(f: Seq<char>) -> Seq<char> {
    "plugin `forager-"@ + f + "` not in local store"@
}

pub open spec fn fetch_failed_message(f: Seq<char>, err: Seq<char>) -> Seq<char> {
    "plugin `forager-"@ + f + "`: "@ + err
}

pub open spec fn patch_missing_message(stem: Seq<char>) -> Seq<char> {
    stem + ".patch not found"@
}

/// What the per-step forager checks conclude before the forager's cached
/// schema is consulted.
pub enum ForagerGate {
    /// The forager is not declared in the project config.
    NotDeclared,
    /// It is declared but the lockfile does not pin it.
    NotLocked,
    /// It is declared and locked; installation and the schema come next.
    Proceed,
}

/// A step's forager must be declared, then locked, before anything else
/// about it is checked.
pub fn forager_gate(declared: bool, locked: bool) -> (g: ForagerGate)
    ensures
        !declared ==> g is NotDeclared,
        declared && !locked ==> g is NotLocked,
        declared && locked ==> g is Proceed,
{
    if !declared {
        ForagerGate::NotDeclared
    } else if !locked {
        ForagerGate::NotLocked
    } else {
        ForagerGate::Proceed
    }
}

/// The foragers already reported on during one lint run, so that each
/// problem with a forager is reported once.
pub struct LintSession {
    warned: crate::alias::AliasesFile,
}

impl LintSession {
    pub closed spec fn warned(&self) -> Set<Seq<char>> {
        self.warned.names().to_set()
    }

    pub closed spec fn wf(&self) -> bool {
        self.warned.wf()
    }

    pub fn new() -> (s: Self)
        ensures
            s.wf(),
            s.warned() == Set::<Seq<char>>::empty(),
    {
        let s = LintSession { warned: crate::alias::AliasesFile::new() };
        assert(s.warned() =~= Set::<Seq<char>>::empty());
        s
    }

    /// Records `forager`; `true` the first time it is recorded.
    pub fn warn_once(&mut self, forager: &str) -> (first: bool)
        requires
            old(self).wf(),
        ensures
            final(self).wf(),
            first == !old(self).warned().contains(forager@),
            final(self).warned() == old(self).warned().insert(forager@),
    {
        proof {
            assert(self.warned.names().contains(forager@) == self.warned.names().to_set().contains(forager@));
        }
        self.warned.insert(forager)
    }
}

fn message_of(parts: Vec<char>) -> (s: String)
    ensures
        s@ == parts@,
{
    string_of(&parts)
}

/// `forager `F` is not declared — ...`.
pub fn not_declared(forager: &str) -> (r: String)
    ensures
        r@ == not_declared_message(forager@),
{
    let mut m: Vec<char> = Vec::new();
    append_str(&mut m, "forager `");
    append_str(&mut m, forager);
    append_str(&mut m, "` is not declared — add `[tools.foragers.");
    append_str(&mut m, forager);
    append_str(&mut m, "]` to .wezel/config.toml");
    message_of(m)
}

/// `forager `F` is declared but not locked — ...`.
pub fn not_locked(forager: &str) -> (r: String)
    ensures
        r@ == not_locked_message(forager@),
{
    let mut m: Vec<char> = Vec::new();
    append_str(&mut m, "forager `");
    append_str(&mut m, forager);
    append_str(
        &mut m,
        "` is declared but not locked — run `wezel experiment run` to refresh wezel.lock",
    );
    message_of(m)
}

/// `plugin `forager-F` not in local store`.
pub fn not_installed(forager: &str) -> (r: String)
    ensures
        r@ == not_installed_message(forager@),
{
    let mut m: Vec<char> = Vec::new();
    append_str(&mut m, "plugin `forager-");
    append_str(&mut m, forager);
    append_str(&mut m, "` not in local store");
    message_of(m)
}

/// `plugin `forager-F`: ERR`.
pub fn fetch_failed(forager: &str, err: &str) -> (r: String)
    ensures
        r@ == fetch_failed_message(forager@, err@),
{
    let mut m: Vec<char> = Vec::new();
    append_str(&mut m, "plugin `forager-");
    append_str(&mut m, forager);
    append_str(&mut m, "`: ");
    append_str(&mut m, err);
    message_of(m)
}

/// `STEM.patch not found`.
pub fn patch_missing(stem: &str) -> (r: String)
    ensures
        r@ == patch_missing_message(stem@),
{
    let mut m = crate::text::chars_of(stem);
    append_str(&mut m, ".patch not found");
    message_of(m)
}

// ── Report ───────────────────────────────────────────────────────────────────

/// `""` for one, `"s"` otherwise.
pub open spec fn plural(n: nat) -> Seq<char> {
    if n == 1 {
        ""@
    } else {
        "s"@
    }
}

fn push_plural(out: &mut Vec<char>, n: usize)
    ensures
        final(out)@ == old(out)@ + plural(n as nat),
{
    if n == 1 {
        append_str(out, "");
    } else {
        append_str(out, "s");
    }
}

/// `N step` or `N steps`.
pub fn steps_label(n: usize) -> (r: String)
    ensures
        r@ == decimal(n as nat) + " step"@ + plural(n as nat),
{
    let mut m = usize_digits(n);
    append_str(&mut m, " step");
    push_plural(&mut m, n);
    message_of(m)
}

/// An experiment passes when it has steps and no findings.
pub fn experiment_ok(diagnostics: usize, step_count: usize) -> (ok: bool)
    ensures
        ok == (diagnostics == 0 && step_count > 0),
{
    diagnostics == 0 && step_count > 0
}

/// Total errors: the findings of every experiment. A stale schema bundle
/// is reported as a warning and counts for none, so that an experiment
/// that is otherwise clean still lints clean.
pub fn total_errors(per_experiment: &[usize]) -> (t: usize)
    requires
        sum(per_experiment@) <= usize::MAX,
    ensures
        t == sum(per_experiment@),
{
    let mut t: usize = 0;
    let mut i: usize = 0;
    while i < per_experiment.len()
        invariant
            i <= per_experiment@.len(),
            sum(per_experiment@) <= usize::MAX,
            t == sum(per_experiment@.subrange(0, i as int)),
        decreases per_experiment.len() - i,
    {
        let ghost pre = per_experiment@.subrange(0, i + 1);
        assert(pre.drop_last() == per_experiment@.subrange(0, i as int));
        proof {
            lemma_sum_prefix_le(per_experiment@, i + 1);
        }
        t = t + per_experiment[i];
        i = i + 1;
    }
    assert(per_experiment@.subrange(0, per_experiment@.len() as int) == per_experiment@);
    t
}

pub open spec fn sum(s: Seq<usize>) -> int
    decreases s.len(),
{
    if s.len() == 0 {
        0
    } else {
        sum(s.drop_last()) + s.last()
    }
}

proof fn lemma_sum_prefix_le(s: Seq<usize>, k: int)
    requires
        0 <= k <= s.len(),
    ensures
        sum(s.subrange(0, k)) <= sum(s),
    decreases s.len() - k,
{
    if k < s.len() {
        lemma_sum_prefix_le(s, k + 1);
        assert(s.subrange(0, k + 1).drop_last() == s.subrange(0, k));
    } else {
        assert(s.subrange(0, k) == s);
    }
}

/// The closing line of a lint run.
pub fn final_line(experiments: usize, errors: usize) -> (r: String)
    ensures
        errors == 0 ==> r@ == decimal(experiments as nat) + " experiment"@ + plural(experiments as nat)
            + " validated, no errors."@,
        errors != 0 ==> r@ == decimal(experiments as nat) + " experiment"@ + plural(experiments as nat)
            + " checked, "@ + decimal(errors as nat) + " error"@ + plural(errors as nat) + " found."@,
{
    let mut m = usize_digits(experiments);
    append_str(&mut m, " experiment");
    push_plural(&mut m, experiments);
    if errors == 0 {
        append_str(&mut m, " validated, no errors.");
    } else {
        append_str(&mut m, " checked, ");
        let d = usize_digits(errors);
        append_chars(&mut m, &d);
        append_str(&mut m, " error");
        push_plural(&mut m, errors);
        append_str(&mut m, " found.");
    }
    message_of(m)
}

/// A summary is flagged for a missing aggregation exactly when a run that
/// gives one value per sample could not reduce its values to one scalar;
/// the findings keep the summaries' order.
pub proof fn law_missing_aggregation_iff_ambiguous(sums: Seq<SummaryDef>, s: SummaryDef)
    ensures
        missing_aggregations(sums.push(s)) == missing_aggregations(sums) + (if crate::summary::reduction_of(
            s.aggregation,
            s.samples as nat,
        ) is Err {
            seq![(s.step@, aggregation_message(s))]
        } else {
            Seq::empty()
        }),
        missing_aggregations(seq![s]).len() == 1 <==> crate::summary::reduction_of(
            s.aggregation,
            s.samples as nat,
        ) is Err,
{
    assert(sums.push(s).drop_last() =~= sums);
    let one = seq![s];
    assert(one.drop_last() =~= Seq::<SummaryDef>::empty());
    assert(one.last() == s);
    assert(missing_aggregations(Seq::<SummaryDef>::empty()).len() == 0);
    assert(missing_aggregations(one) == missing_aggregations(one.drop_last()) + (if s.samples > 1
        && s.aggregation is None {
        seq![(s.step@, aggregation_message(s))]
    } else {
        Seq::empty()
    }));
}

} // verus!
