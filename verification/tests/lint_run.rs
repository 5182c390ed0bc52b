use wezel::experiment::{StepDef, SummaryDef};
use wezel::lint::LintSession;
use wezel::lint_steps::{
    lint_experiment, validate_step_inputs, InstallState, SchemaOutcome, SchemaViolation, SidecarState,
    StepLintInput,
};
use wezel::run::StepError;
use wezel::runner::{next_run_action, RunAction, RunEvent, RunPos, RunState};
use wezel::types::Aggregation;

fn violation(path: &str, message: &str) -> SchemaViolation {
    SchemaViolation { instance_path: path.into(), message: message.into() }
}

#[test]
fn input_violations_name_their_dotted_path() {
    let out = validate_step_inputs(
        "build",
        "exec",
        SchemaOutcome::Violations(vec![violation("", "bad root"), violation("/env/0", "not a string"), violation("//x/y", "odd")]),
    );
    let msgs: Vec<&str> = out.iter().map(|d| d.message.as_str()).collect();
    assert_eq!(msgs, vec!["input: bad root", "input at `env.0`: not a string", "input at `x.y`: odd"]);
    assert!(out.iter().all(|d| d.step == "build"));
}

#[test]
fn uncompilable_schema_is_one_finding() {
    let out = validate_step_inputs("build", "exec", SchemaOutcome::CompileFailed("boom".into()));
    assert_eq!(out.len(), 1);
    assert_eq!(
        out[0].message,
        "cached schema for `forager-exec` failed to compile (boom) — run `wezel project tool sync` to refresh"
    );
}

fn input(step: &str, forager: &str, declared: bool, locked: bool, install: InstallState, sidecar: SidecarState) -> StepLintInput {
    StepLintInput {
        step: step.into(),
        forager: forager.into(),
        diff: None,
        patch_exists: true,
        declared,
        locked,
        install,
        sidecar,
        inputs: serde_json::Value::Null,
    }
}

fn no_sidecar() -> SidecarState {
    SidecarState::Malformed { error: String::new() }
}

#[test]
fn forager_problems_are_reported_once() {
    let mut a = input("a", "cargo", false, false, InstallState::Missing, no_sidecar());
    a.diff = Some("fix".into());
    a.patch_exists = false;
    let steps = vec![
        a,
        input("b", "cargo", false, false, InstallState::Missing, no_sidecar()),
        input("c", "llvm", true, false, InstallState::Missing, no_sidecar()),
        input("d", "exec", true, true, InstallState::Missing, no_sidecar()),
        input("e", "exec", true, true, InstallState::Missing, no_sidecar()),
        input("f", "size", true, true, InstallState::FetchFailed("404".into()), no_sidecar()),
    ];
    let mut session = LintSession::new();
    let out = lint_experiment(&[], &steps, &mut session);
    let got: Vec<(&str, &str)> = out.iter().map(|d| (d.step.as_str(), d.message.as_str())).collect();
    assert_eq!(
        got,
        vec![
            ("a", "fix.patch not found"),
            ("a", "forager `cargo` is not declared — add `[tools.foragers.cargo]` to .wezel/config.toml"),
            ("c", "forager `llvm` is declared but not locked — run `wezel experiment run` to refresh wezel.lock"),
            ("d", "plugin `forager-exec` not in local store"),
            ("f", "plugin `forager-size`: 404"),
        ]
    );
}

#[test]
fn sidecar_problems_are_reported_per_step() {
    let steps = vec![
        input("a", "exec", true, true, InstallState::Installed, SidecarState::Unreadable { path: "/p/x.json".into(), error: "gone".into() }),
        input("b", "exec", true, true, InstallState::Installed, SidecarState::Malformed { error: "bad".into() }),
    ];
    let mut session = LintSession::new();
    let out = lint_experiment(&[], &steps, &mut session);
    assert_eq!(out[0].message, "no cached schema for `forager-exec` at /p/x.json (gone) — reinstall the forager");
    assert_eq!(
        out[1].message,
        "cached schema for `forager-exec` does not match the current format (bad) — run `wezel project tool sync` to refresh"
    );
}

#[test]
fn inputs_are_validated_against_a_closed_schema() {
    let schema: serde_json::Value =
        serde_json::from_str(r#"{"type":"object","properties":{"cmd":{"type":"string"}}}"#).unwrap();
    let mut good = input("a", "exec", true, true, InstallState::Installed, SidecarState::Loaded(schema.clone()));
    good.inputs = serde_json::from_str(r#"{"cmd":"make"}"#).unwrap();
    let mut unknown = input("b", "exec", true, true, InstallState::Installed, SidecarState::Loaded(schema.clone()));
    unknown.inputs = serde_json::from_str(r#"{"cmd":"make","cdm":"x"}"#).unwrap();
    let mut wrong = input("c", "exec", true, true, InstallState::Installed, SidecarState::Loaded(schema));
    wrong.inputs = serde_json::from_str(r#"{"cmd":3}"#).unwrap();
    let mut session = LintSession::new();
    let out = lint_experiment(&[], &[good, unknown, wrong], &mut session);
    assert_eq!(out.len(), 2);
    assert_eq!(out[0].step, "b");
    assert!(out[0].message.starts_with("input: "));
    assert_eq!(out[1].step, "c");
    assert!(out[1].message.starts_with("input at `cmd`: "));
}

#[test]
fn summary_findings_come_first() {
    let sums = vec![SummaryDef {
        name: "t".into(),
        step: "a".into(),
        measurement: "time_ms".into(),
        aggregation: None,
        filter: vec![],
        bisect: false,
        samples: 3,
    }];
    let steps = vec![input("a", "cargo", false, false, InstallState::Missing, no_sidecar())];
    let mut session = LintSession::new();
    let out = lint_experiment(&sums, &steps, &mut session);
    assert_eq!(out.len(), 2);
    assert!(out[0].message.contains("has samples = 3 but no `aggregation`"));
    assert!(out[1].message.contains("is not declared"));
}

fn step_def(name: &str) -> StepDef {
    StepDef { name: name.into(), forager: "exec".into(), description: None, diff: None, inputs: serde_json::Value::Null }
}

fn sampled(step: &str, samples: usize) -> SummaryDef {
    SummaryDef {
        name: format!("{step}-t"),
        step: step.into(),
        measurement: "time_ms".into(),
        aggregation: Some(Aggregation::Mean),
        filter: vec![],
        bisect: true,
        samples,
    }
}

fn drive(state: RunState<u32>, event: RunEvent<u32>) -> (RunState<u32>, String) {
    let (s, a) = next_run_action(state, event);
    let label = match a {
        RunAction::ReportRunStarted => "run_started".to_string(),
        RunAction::BeginStep { step } => format!("begin {step}"),
        RunAction::Sample { step, iter, samples, restore } => format!("sample {step} {iter}/{samples} {restore}"),
        RunAction::Warn(m) => format!("warn {m}"),
        RunAction::ReportSampleDone { step, iter, samples } => format!("sample_done {step} {iter}/{samples}"),
        RunAction::FinishStep { step } => format!("finish {step}"),
        RunAction::ReportRunFinished => "run_finished".to_string(),
        RunAction::Complete => "complete".to_string(),
        RunAction::Abort(e) => format!("abort {}", e.message()),
        RunAction::Ignore => "ignore".to_string(),
    };
    (s, label)
}

#[test]
fn run_samples_each_step_and_collects_in_order() {
    let steps = vec![step_def("a"), step_def("b")];
    let sums = vec![sampled("a", 2), sampled("a", 1)];
    let mut state: RunState<u32> = RunState::new(&steps, &sums);
    assert_eq!(state.plan[0].samples, 2);
    assert_eq!(state.plan[1].samples, 1);
    let mut log = Vec::new();
    let events = vec![
        RunEvent::Done,
        RunEvent::Done,
        RunEvent::Done,
        RunEvent::Measured(vec![1, 2]),
        RunEvent::Done,
        RunEvent::Failed(StepError::NoOutput { step: "a".into(), binary: "forager-exec".into() }),
        RunEvent::Done,
        RunEvent::Done,
        RunEvent::Done,
        RunEvent::Done,
        RunEvent::Measured(vec![7]),
        RunEvent::Done,
        RunEvent::Done,
        RunEvent::Done,
    ];
    for ev in events {
        let (s, label) = drive(state, ev);
        state = s;
        log.push(label);
    }
    assert_eq!(
        log,
        vec![
            "run_started",
            "begin 0",
            "sample 0 1/2 false",
            "sample_done 0 1/2",
            "sample 0 2/2 true",
            "warn step 'a': `forager-exec` did not write FORAGER_OUT",
            "sample_done 0 2/2",
            "finish 0",
            "begin 1",
            "sample 1 1/1 false",
            "sample_done 1 1/1",
            "finish 1",
            "run_finished",
            "complete",
        ]
    );
    assert_eq!(state.pos, RunPos::Complete);
    assert_eq!(state.reports.len(), 2);
    assert_eq!(state.reports[0].step, "a");
    assert_eq!(state.reports[0].outcomes, vec![1, 2]);
    assert_eq!(state.reports[1].outcomes, vec![7]);
    assert_eq!(state.warnings.len(), 1);
}

#[test]
fn hard_failure_ends_the_run() {
    let steps = vec![step_def("a"), step_def("b")];
    let mut state: RunState<u32> = RunState::new(&steps, &[]);
    for _ in 0..3 {
        state = drive(state, RunEvent::Done).0;
    }
    let (state, label) = drive(state, RunEvent::Failed(StepError::PluginNotFound { binary: "forager-exec".into() }));
    assert_eq!(label, "abort `forager-exec` not found in the local store — is it installed?");
    assert_eq!(state.pos, RunPos::Failed);
    let (state, label) = drive(state, RunEvent::Done);
    assert_eq!(label, "ignore");
    assert!(state.reports.is_empty());
}

#[test]
fn empty_experiment_finishes_at_once() {
    let mut state: RunState<u32> = RunState::new(&[], &[]);
    let mut log = Vec::new();
    for _ in 0..3 {
        let (s, l) = drive(state, RunEvent::Done);
        state = s;
        log.push(l);
    }
    assert_eq!(log, vec!["run_started", "run_finished", "complete"]);
}
