//! The decisions of `wezel experiment run`: which step and sample comes
//! next, which reporter event is due, what a forager failure does to the
//! run, and where each sample's outcomes go. The caller performs each
//! action (reporting, patching, snapshotting, invoking the forager) and
//! hands back what happened.
use vstd::prelude::*;

use crate::experiment::{StepDef, SummaryDef};
use crate::run::{plan_steps, step_error_message, step_sample_count, StepError, StepPlan};

verus! {

/// Where a run stands.
#[derive(Debug, Clone, Copy, PartialEq, Eq, Structural)]
pub enum RunPos {
    /// Nothing done yet.
    Idle,
    /// The run start was reported.
    Announced,
    /// Step `step` was begun (reported, patch applied, snapshot taken).
    Stepping { step: usize },
    /// Sample `iter` (from 1) of `step` is running.
    Sampling { step: usize, iter: usize },
    /// A soft failure of that sample is being reported.
    Warned { step: usize, iter: usize },
    /// The end of that sample is being reported.
    SampleDone { step: usize, iter: usize },
    /// The end of `step` is being reported.
    Finished { step: usize },
    /// The end of the run is being reported.
    Finishing,
    /// Every step ran; the reports are final.
    Complete,
    /// A hard failure ended the run.
    Failed,
}

/// What the caller does next.
#[derive(Debug)]
pub enum RunAction {
    /// Report the start of the run, with the plan.
    ReportRunStarted,
    /// Report the step's start, apply its patch, and snapshot the checkout
    /// when it takes more than one sample.
    BeginStep { step: usize },
    /// Restore the snapshot first when `restore`; report the sample's start
    /// and invoke the forager.
    Sample { step: usize, iter: usize, samples: usize, restore: bool },
    /// Log a soft failure.
    Warn(String),
    /// Report the end of a sample.
    ReportSampleDone { step: usize, iter: usize, samples: usize },
    /// Report the end of a step.
    FinishStep { step: usize },
    /// Report the end of the run.
    ReportRunFinished,
    /// The run succeeded; its reports are in the state.
    Complete,
    /// The run failed with this error.
    Abort(StepError),
    /// The event does not belong where the run stands; nothing to do.
    Ignore,
}

/// What the last action gave.
#[derive(Debug)]
pub enum RunEvent<T> {
    /// It was done.
    Done,
    /// The forager produced these outcomes.
    Measured(Vec<T>),
    /// The forager failed.
    Failed(StepError),
}

/// The outcomes of one finished step, in sample order.
#[derive(Debug)]
pub struct StepOutcomes<T> {
    pub step: String,
    pub outcomes: Vec<T>,
}

/// A run in progress.
#[derive(Debug)]
pub struct RunState<T> {
    /// Every step with its sample count.
    pub plan: Vec<StepPlan>,
    pub pos: RunPos,
    /// Outcomes of the step under way.
    pub current: Vec<T>,
    /// Finished steps, in order.
    pub reports: Vec<StepOutcomes<T>>,
    /// Messages of the soft failures, in order.
    pub warnings: Vec<String>,
}

pub open spec fn samples_of<T>(s: RunState<T>, step: int) -> usize {
    s.plan@[step].samples
}

impl<T> RunState<T> {
    /// Every step takes at least one sample, and the position names a step
    /// and sample of the plan.
    pub open spec fn wf(&self) -> bool {
        &&& forall|i: int| 0 <= i < self.plan@.len() ==> #[trigger] self.plan@[i].samples >= 1
        &&& match self.pos {
            RunPos::Stepping { step } => step < self.plan@.len(),
            RunPos::Finished { step } => step < self.plan@.len(),
            RunPos::Sampling { step, iter } => step < self.plan@.len() && 1 <= iter <= self.plan@[step as int].samples,
            RunPos::Warned { step, iter } => step < self.plan@.len() && 1 <= iter <= self.plan@[step as int].samples,
            RunPos::SampleDone { step, iter } => step < self.plan@.len() && 1 <= iter <= self.plan@[step as int].samples,
            _ => true,
        }
    }
}

/// `n` holds what `s` holds but its position.
pub open spec fn same_data<T>(s: RunState<T>, n: RunState<T>) -> bool {
    &&& n.plan@ == s.plan@
    &&& n.current@ == s.current@
    &&& n.reports@ == s.reports@
    &&& n.warnings@ == s.warnings@
}

/// One move of the run: from `s` on event `ev` to `n`, asking for `a`.
/// Steps run in plan order; each takes the plan's sample count, restoring
/// the snapshot before every sample but the first; a sample's outcomes are
/// appended to its step's; a soft failure is logged and the run goes on,
/// a hard one ends it with that error; the reporter hears the run start,
/// then per step its start, each sample's start and end, and its end, and
/// last the run end.
pub open spec fn run_move<T>(s: RunState<T>, ev: RunEvent<T>, n: RunState<T>, a: RunAction) -> bool {
    match (s.pos, ev) {
        (RunPos::Idle, RunEvent::Done) => same_data(s, n) && n.pos == RunPos::Announced && a is ReportRunStarted,
        (RunPos::Announced, RunEvent::Done) => same_data(s, n) && if s.plan@.len() == 0 {
            n.pos == RunPos::Finishing && a is ReportRunFinished
        } else {
            n.pos == (RunPos::Stepping { step: 0 }) && a == (RunAction::BeginStep { step: 0 })
        },
        (RunPos::Stepping { step }, RunEvent::Done) => same_data(s, n) && n.pos == (RunPos::Sampling {
            step,
            iter: 1,
        }) && a == (RunAction::Sample { step, iter: 1, samples: samples_of(s, step as int), restore: false }),
        (RunPos::Sampling { step, iter }, RunEvent::Measured(v)) => {
            &&& n.plan@ == s.plan@
            &&& n.current@ == s.current@ + v@
            &&& n.reports@ == s.reports@
            &&& n.warnings@ == s.warnings@
            &&& n.pos == (RunPos::SampleDone { step, iter })
            &&& a == (RunAction::ReportSampleDone { step, iter, samples: samples_of(s, step as int) })
        },
        (RunPos::Sampling { step, iter }, RunEvent::Failed(e)) => if e is PluginNotFound || e is SpawnFailed {
            same_data(s, n) && n.pos == RunPos::Failed && a == RunAction::Abort(e)
        } else {
            &&& n.plan@ == s.plan@
            &&& n.current@ == s.current@
            &&& n.reports@ == s.reports@
            &&& n.warnings@.len() == s.warnings@.len() + 1
            &&& n.warnings@.drop_last() == s.warnings@
            &&& n.warnings@.last()@ == step_error_message(e)
            &&& n.pos == (RunPos::Warned { step, iter })
            &&& a matches RunAction::Warn(m) && m@ == step_error_message(e)
        },
        (RunPos::Warned { step, iter }, RunEvent::Done) => same_data(s, n) && n.pos == (RunPos::SampleDone {
            step,
            iter,
        }) && a == (RunAction::ReportSampleDone { step, iter, samples: samples_of(s, step as int) }),
        (RunPos::SampleDone { step, iter }, RunEvent::Done) => same_data(s, n) && if iter < samples_of(s, step as int) {
            n.pos == (RunPos::Sampling { step, iter: (iter + 1) as usize }) && a == (RunAction::Sample {
                step,
                iter: (iter + 1) as usize,
                samples: samples_of(s, step as int),
                restore: true,
            })
        } else {
            n.pos == (RunPos::Finished { step }) && a == (RunAction::FinishStep { step })
        },
        (RunPos::Finished { step }, RunEvent::Done) => {
            &&& n.plan@ == s.plan@
            &&& n.current@.len() == 0
            &&& n.reports@.len() == s.reports@.len() + 1
            &&& n.reports@.drop_last() == s.reports@
            &&& n.reports@.last().step@ == s.plan@[step as int].name@
            &&& n.reports@.last().outcomes@ == s.current@
            &&& n.warnings@ == s.warnings@
            &&& if step + 1 < s.plan@.len() {
                n.pos == (RunPos::Stepping { step: (step + 1) as usize }) && a == (RunAction::BeginStep {
                    step: (step + 1) as usize,
                })
            } else {
                n.pos == RunPos::Finishing && a is ReportRunFinished
            }
        },
        (RunPos::Finishing, RunEvent::Done) => same_data(s, n) && n.pos == RunPos::Complete && a is Complete,
        _ => same_data(s, n) && n.pos == s.pos && a is Ignore,
    }
}

impl<T> RunState<T> {
    /// A run that has not started: every step of the experiment in order,
    /// each with the sample count its summaries ask for.
    pub fn new(steps: &[StepDef], summaries: &[SummaryDef]) -> (r: Self)
        ensures
            r.wf(),
            r.pos == RunPos::Idle,
            r.plan@.len() == steps@.len(),
            forall|i: int|
                0 <= i < steps@.len() ==> #[trigger] r.plan@[i].name@ == steps@[i].name@
                    && r.plan@[i].samples == step_sample_count(summaries@, steps@[i].name@),
            r.current@.len() == 0,
            r.reports@.len() == 0,
            r.warnings@.len() == 0,
    {
        let plan = plan_steps(steps, summaries);
        proof {
            assert forall|i: int| 0 <= i < plan@.len() implies #[trigger] plan@[i].samples >= 1 by {
                assert(plan@[i].name@ == steps@[i].name@);
                crate::run::lemma_sample_count_positive(summaries@, steps@[i].name@);
            }
        }
        RunState { plan, pos: RunPos::Idle, current: Vec::new(), reports: Vec::new(), warnings: Vec::new() }
    }
}

/// The run's next move on `event`.
pub fn next_run_action<T>(state: RunState<T>, event: RunEvent<T>) -> (r: (RunState<T>, RunAction))
    requires
        state.wf(),
    ensures
        r.0.wf(),
        run_move(state, event, r.0, r.1),
{
    let ghost s0 = state;
    let ghost e0 = event;
    let RunState { plan, pos, mut current, mut reports, mut warnings } = state;
    match (pos, event) {
        (RunPos::Idle, RunEvent::Done) => (
            RunState { plan, pos: RunPos::Announced, current, reports, warnings },
            RunAction::ReportRunStarted,
        ),
        (RunPos::Announced, RunEvent::Done) => if plan.len() == 0 {
            (RunState { plan, pos: RunPos::Finishing, current, reports, warnings }, RunAction::ReportRunFinished)
        } else {
            (
                RunState { plan, pos: RunPos::Stepping { step: 0 }, current, reports, warnings },
                RunAction::BeginStep { step: 0 },
            )
        },
        (RunPos::Stepping { step }, RunEvent::Done) => {
            let samples = plan[step].samples;
            (
                RunState { plan, pos: RunPos::Sampling { step, iter: 1 }, current, reports, warnings },
                RunAction::Sample { step, iter: 1, samples, restore: false },
            )
        },
        (RunPos::Sampling { step, iter }, RunEvent::Measured(mut v)) => {
            let samples = plan[step].samples;
            current.append(&mut v);
            (
                RunState { plan, pos: RunPos::SampleDone { step, iter }, current, reports, warnings },
                RunAction::ReportSampleDone { step, iter, samples },
            )
        },
        (RunPos::Sampling { step, iter }, RunEvent::Failed(e)) => if e.is_hard() {
            (RunState { plan, pos: RunPos::Failed, current, reports, warnings }, RunAction::Abort(e))
        } else {
            let m = e.message();
            let logged = m.clone();
            warnings.push(m);
            let out = (
                RunState { plan, pos: RunPos::Warned { step, iter }, current, reports, warnings },
                RunAction::Warn(logged),
            );
            assert(out.0.warnings@.drop_last() == s0.warnings@);
            out
        },
        (RunPos::Warned { step, iter }, RunEvent::Done) => {
            let samples = plan[step].samples;
            (
                RunState { plan, pos: RunPos::SampleDone { step, iter }, current, reports, warnings },
                RunAction::ReportSampleDone { step, iter, samples },
            )
        },
        (RunPos::SampleDone { step, iter }, RunEvent::Done) => {
            let samples = plan[step].samples;
            if iter < samples {
                (
                    RunState { plan, pos: RunPos::Sampling { step, iter: iter + 1 }, current, reports, warnings },
                    RunAction::Sample { step, iter: iter + 1, samples, restore: true },
                )
            } else {
                (
                    RunState { plan, pos: RunPos::Finished { step }, current, reports, warnings },
                    RunAction::FinishStep { step },
                )
            }
        },
        (RunPos::Finished { step }, RunEvent::Done) => {
            assert(step < plan@.len());
            let name = plan[step].name.clone();
            reports.push(StepOutcomes { step: name, outcomes: current });
            let current: Vec<T> = Vec::new();
            assert(reports@.drop_last() == s0.reports@);
            if step < plan.len() - 1 {
                (
                    RunState { plan, pos: RunPos::Stepping { step: step + 1 }, current, reports, warnings },
                    RunAction::BeginStep { step: step + 1 },
                )
            } else {
                (RunState { plan, pos: RunPos::Finishing, current, reports, warnings }, RunAction::ReportRunFinished)
            }
        },
        (RunPos::Finishing, RunEvent::Done) => (
            RunState { plan, pos: RunPos::Complete, current, reports, warnings },
            RunAction::Complete,
        ),
        (pos, _) => (RunState { plan, pos, current, reports, warnings }, RunAction::Ignore),
    }
}

} // verus!
