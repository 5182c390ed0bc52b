use wezel::daemon::{push_recent, DaemonStatus, JobStatus, MAX_RECENT};
use wezel::experiment::{assemble_experiment, DiffField, RawStep, RawSummary, StorageTarget, SummaryDef, StepDef};
use wezel::lint::{
    experiment_ok, fetch_failed, final_line, forager_gate, missing_aggregation, not_declared,
    not_installed, not_locked, patch_missing, samples_disagreements, steps_label,
    summary_diagnostics, total_errors, ForagerGate, LintSession,
};
use wezel::run::{fmt_captured, forager_binary_name, plan_steps, run_dir_name, samples_for_step, saved_run_id, StepError};
use wezel::summary::{filter_matches, tag_is, Reduction, StepOutcome};
use wezel::types::{Aggregation, SummaryError};

fn raw_summary(name: &str, samples: usize) -> RawSummary {
    RawSummary {
        name: name.into(),
        outcome: "time_ms".into(),
        aggregation: None,
        filter: vec![],
        bisect: false,
        samples,
    }
}

fn raw_step(tool: &str, name: &str, span: usize, summaries: Vec<RawSummary>) -> RawStep {
    RawStep {
        tool: tool.into(),
        name: name.into(),
        span_start: span,
        description: None,
        apply_diff: None,
        summaries,
        inputs: serde_json::Value::Null,
    }
}

fn summary(name: &str, step: &str, samples: usize, aggregation: Option<Aggregation>) -> SummaryDef {
    SummaryDef {
        name: name.into(),
        step: step.into(),
        measurement: "time_ms".into(),
        aggregation,
        filter: vec![],
        bisect: false,
        samples,
    }
}

#[test]
fn steps_follow_source_order_not_tool_order() {
    // The tools are grouped (cargo, cargo, exec) but the bodies interleave.
    let entries = vec![
        raw_step("cargo", "zzz-first", 10, vec![raw_summary("zzz-sum", 1), raw_summary("aaa-sum", 1)]),
        raw_step("cargo", "aaa-third", 90, vec![]),
        raw_step("exec", "middle", 50, vec![]),
    ];
    let exp = assemble_experiment("ordering".into(), Some("ordering check".into()), entries).unwrap();
    let names: Vec<&str> = exp.steps.iter().map(|s| s.name.as_str()).collect();
    assert_eq!(names, vec!["zzz-first", "middle", "aaa-third"]);
    let keys: Vec<(&str, &str)> = exp.summaries.iter().map(|s| (s.step.as_str(), s.name.as_str())).collect();
    assert_eq!(keys, vec![("zzz-first", "zzz-sum"), ("zzz-first", "aaa-sum")]);
    assert_eq!(exp.steps[1].forager, "exec");
}

#[test]
fn step_name_used_under_two_tools_is_rejected() {
    let entries = vec![raw_step("exec", "baseline", 1, vec![]), raw_step("cargo", "baseline", 30, vec![])];
    let err = assemble_experiment("x".into(), None, entries).unwrap_err();
    let msg = err.message();
    assert!(msg.contains("baseline") && msg.contains("more than one tool"));
    assert_eq!(
        msg,
        "step name `baseline` is declared under more than one tool; step names must be unique"
    );
}

#[test]
fn apply_diff_resolves_to_a_patch_stem() {
    let mut a = raw_step("exec", "edit", 1, vec![]);
    a.apply_diff = Some(DiffField::Bool(true));
    let mut b = raw_step("exec", "other", 2, vec![]);
    b.apply_diff = Some(DiffField::Name("shared".into()));
    let mut c = raw_step("exec", "plain", 3, vec![]);
    c.apply_diff = Some(DiffField::Bool(false));
    let exp = assemble_experiment("x".into(), None, vec![a, b, c]).unwrap();
    assert_eq!(exp.steps[0].diff.as_deref(), Some("edit"));
    assert_eq!(exp.steps[1].diff.as_deref(), Some("shared"));
    assert_eq!(exp.steps[2].diff, None);
}

#[test]
fn storage_target_resolution() {
    match StorageTarget::resolve(Some("http://b".into()), StorageTarget::default_target()) {
        StorageTarget::ServerUrl(u) => assert_eq!(u, "http://b"),
        _ => panic!("expected server url"),
    }
    let t = StorageTarget::resolve(Some(String::new()), StorageTarget::default_target());
    assert_eq!(t.data_branch(), Some("wezel/data"));
    assert_eq!(t.server_url(), None);
}

#[test]
fn disagreeing_samples_are_reported_once_per_step() {
    let sums = vec![
        summary("a", "build", 3, Some(Aggregation::Mean)),
        summary("b", "build", 1, None),
        summary("c", "build", 3, Some(Aggregation::Mean)),
        summary("d", "other", 2, Some(Aggregation::Min)),
    ];
    let d = samples_disagreements(&sums);
    assert_eq!(d.len(), 1);
    assert_eq!(d[0].step, "build");
    assert_eq!(
        d[0].message,
        "summaries disagree on `samples` (1, 3); all summaries on a step must use the same value"
    );
}

#[test]
fn sampled_summary_needs_aggregation() {
    let sums = vec![summary("t", "build", 5, None), summary("u", "build", 1, None)];
    let d = missing_aggregation(&sums);
    assert_eq!(d.len(), 1);
    assert_eq!(d[0].message, "summary `t` has samples = 5 but no `aggregation`; pick mean/median/min/max/sum");
    assert_eq!(summary_diagnostics(&sums).len(), 2);
}

#[test]
fn agreeing_samples_pass() {
    let sums = vec![summary("a", "build", 3, Some(Aggregation::Median)), summary("b", "build", 3, Some(Aggregation::Max))];
    assert!(summary_diagnostics(&sums).is_empty());
}

#[test]
fn forager_checks_and_messages() {
    assert!(matches!(forager_gate(false, true), ForagerGate::NotDeclared));
    assert!(matches!(forager_gate(true, false), ForagerGate::NotLocked));
    assert!(matches!(forager_gate(true, true), ForagerGate::Proceed));
    assert_eq!(not_declared("exec"), "forager `exec` is not declared — add `[tools.foragers.exec]` to .wezel/config.toml");
    assert_eq!(
        not_locked("exec"),
        "forager `exec` is declared but not locked — run `wezel experiment run` to refresh wezel.lock"
    );
    assert_eq!(not_installed("exec"), "plugin `forager-exec` not in local store");
    assert_eq!(fetch_failed("exec", "404"), "plugin `forager-exec`: 404");
    assert_eq!(patch_missing("edit"), "edit.patch not found");
}

#[test]
fn each_forager_is_warned_about_once() {
    let mut s = LintSession::new();
    assert!(s.warn_once("exec"));
    assert!(!s.warn_once("exec"));
    assert!(s.warn_once("cargo"));
}

#[test]
fn lint_report_lines() {
    assert_eq!(steps_label(1), "1 step");
    assert_eq!(steps_label(3), "3 steps");
    assert!(experiment_ok(0, 2));
    assert!(!experiment_ok(0, 0));
    assert!(!experiment_ok(1, 2));
    assert_eq!(total_errors(&[1, 0, 2]), 3);
    assert_eq!(total_errors(&[]), 0);
    assert_eq!(final_line(2, 0), "2 experiments validated, no errors.");
    assert_eq!(final_line(1, 1), "1 experiment checked, 1 error found.");
}

#[test]
fn sample_counts_per_step() {
    let sums = vec![summary("a", "build", 3, None), summary("b", "build", 5, None), summary("c", "x", 9, None)];
    assert_eq!(samples_for_step(&sums, &"build".to_string()), 5);
    assert_eq!(samples_for_step(&sums, &"none".to_string()), 1);
    let steps = vec![
        StepDef { name: "build".into(), forager: "cargo".into(), description: None, diff: None, inputs: serde_json::Value::Null },
        StepDef { name: "idle".into(), forager: "exec".into(), description: None, diff: None, inputs: serde_json::Value::Null },
    ];
    let plan = plan_steps(&steps, &sums);
    assert_eq!(plan.len(), 2);
    assert_eq!((plan[0].name.as_str(), plan[0].samples), ("build", 5));
    assert_eq!((plan[1].name.as_str(), plan[1].samples), ("idle", 1));
}

#[test]
fn forager_failures() {
    assert_eq!(fmt_captured("  out \n", ""), "\n--- stdout ---\nout");
    assert_eq!(fmt_captured("o", "e"), "\n--- stderr ---\ne\n--- stdout ---\no");
    assert_eq!(fmt_captured(" ", "\n"), "");
    let e = StepError::PluginFailed {
        step: "build".into(),
        binary: "forager-cargo".into(),
        status: "exit status: 1".into(),
        stdout: String::new(),
        stderr: "boom".into(),
    };
    assert!(!e.is_hard());
    assert_eq!(e.message(), "step 'build': `forager-cargo` exited with exit status: 1\n--- stderr ---\nboom");
    let e = StepError::PluginNotFound { binary: "forager-x".into() };
    assert!(e.is_hard());
    assert_eq!(e.message(), "`forager-x` not found in the local store — is it installed?");
    assert!(StepError::SpawnFailed { binary: "b".into(), reason: "r".into() }.is_hard());
    assert_eq!(StepError::NoOutput { step: "s".into(), binary: "b".into() }.message(), "step 's': `b` did not write FORAGER_OUT");
    assert_eq!(StepError::Other("x".into()).message(), "x");
    assert_eq!(forager_binary_name("cargo"), "forager-cargo");
}

#[test]
fn saved_run_names() {
    assert_eq!(saved_run_id("2024-01-02T03:04:05Z", "0123456789"), "2024-01-02T03-04-05Z-0123456");
    assert_eq!(run_dir_name("id", 0), "id");
    assert_eq!(run_dir_name("id", 12), "id-12");
}

fn job(id: u64) -> JobStatus {
    JobStatus { id, experiment: "e".into(), commit_sha: "s".into(), status: "complete".into(), error: None }
}

#[test]
fn recent_jobs_stay_bounded() {
    let mut recent = Vec::new();
    for i in 0..(MAX_RECENT as u64 + 5) {
        push_recent(&mut recent, job(i));
        assert!(recent.len() <= MAX_RECENT);
        assert_eq!(recent.last().unwrap().id, i);
    }
    assert_eq!(recent[0].id, 5);
}

#[test]
fn daemon_status_follows_the_job_loop() {
    let mut st = DaemonStatus::new(42, "github.com/a/b".into(), "http://b".into(), "now".into());
    st.claimed(7, "basic", "abc");
    assert_eq!(st.current_job.as_ref().unwrap().status, "running");
    assert_eq!(st.finished(7, "basic", "abc", Some("bad".into())), "failed");
    assert!(st.current_job.is_none());
    assert_eq!(st.recent[0].status, "failed");
    assert_eq!(st.recent[0].error.as_deref(), Some("bad"));
    st.claimed(8, "basic", "def");
    assert_eq!(st.finished(8, "basic", "def", None), "complete");
    assert_eq!(st.recent.len(), 2);
    st.idle();
    assert!(st.current_job.is_none());
}

fn outcome(step: &str, name: &str, tags: &[(&str, &str)], numeric: bool) -> StepOutcome {
    StepOutcome {
        step: step.into(),
        name: name.into(),
        tags: tags.iter().map(|(k, v)| (k.to_string(), v.to_string())).collect(),
        numeric,
    }
}

#[test]
fn summary_reads_matching_numeric_measurements_in_order() {
    let mut def = summary("build", "compile", 1, Some(Aggregation::Sum));
    def.filter = vec![("profile".into(), "dev".into())];
    let outcomes = vec![
        outcome("compile", "time_ms", &[("profile", "dev")], true),
        outcome("compile", "time_ms", &[("profile", "release")], true),
        outcome("link", "time_ms", &[("profile", "dev")], true),
        outcome("compile", "size", &[("profile", "dev")], true),
        outcome("compile", "time_ms", &[("crate", "a"), ("profile", "dev")], true),
        outcome("compile", "time_ms", &[("profile", "dev")], false),
        outcome("compile", "time_ms", &[], true),
    ];
    assert_eq!(def.matching_indices(&outcomes), vec![0, 4]);
}

#[test]
fn summary_without_filter_reads_every_tagging() {
    let def = summary("build", "compile", 1, None);
    let outcomes = vec![
        outcome("compile", "time_ms", &[("crate", "a")], true),
        outcome("compile", "time_ms", &[], true),
    ];
    assert_eq!(def.matching_indices(&outcomes), vec![0, 1]);
    assert!(def.selects(&outcomes[1]));
}

#[test]
fn summary_reduction_follows_match_count_and_aggregation() {
    let plain = summary("build", "compile", 1, None);
    assert_eq!(plain.reduction(0), Ok(Reduction::NoMatch));
    assert_eq!(plain.reduction(1), Ok(Reduction::Single));
    assert_eq!(plain.reduction(3), Err(SummaryError::AmbiguousAggregation { matches: 3 }));
    let median = summary("build", "compile", 1, Some(Aggregation::Median));
    assert_eq!(median.reduction(0), Ok(Reduction::NoMatch));
    assert_eq!(median.reduction(1), Ok(Reduction::Aggregate(Aggregation::Median)));
    assert_eq!(median.reduction(4), Ok(Reduction::Aggregate(Aggregation::Median)));
}

#[test]
fn tag_lookup_compares_values() {
    let tags = vec![("profile".to_string(), "dev".to_string())];
    assert!(tag_is(&tags, &"profile".to_string(), &"dev".to_string()));
    assert!(!tag_is(&tags, &"profile".to_string(), &"release".to_string()));
    assert!(!tag_is(&tags, &"crate".to_string(), &"dev".to_string()));
    let filter = vec![("profile".to_string(), "dev".to_string()), ("crate".to_string(), "a".to_string())];
    assert!(!filter_matches(&filter, &tags));
    assert!(filter_matches(&[], &tags));
}
