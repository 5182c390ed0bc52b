//! Shared data model of the wezel ecosystem.
use vstd::prelude::*;

verus! {

/// A project, identified across machines by its upstream (git remote) URL.
#[derive(Debug, Clone)]
pub struct Project {
    pub id: u64,
    /// Human-readable name, derived from the repository name.
    pub name: String,
    /// Canonical upstream URL (see `upstream::normalize_upstream`).
    pub upstream: String,
}

/// A crate and its direct dependencies, forming one node in the build graph.
#[derive(Debug, Clone)]
pub struct CrateTopo {
    pub name: String,
    /// Semver version string, e.g. "1.2.3".
    pub version: String,
    /// Normal (runtime) dependencies.
    pub deps: Vec<String>,
    /// Build-script dependencies.
    pub build_deps: Vec<String>,
    /// Dev-only dependencies.
    pub dev_deps: Vec<String>,
    pub external: bool,
}

/// A single observed build invocation.
#[derive(Debug, Clone)]
pub struct Run {
    pub user: String,
    pub platform: String,
    pub timestamp: String,
    pub commit: String,
    pub build_time_ms: u64,
    pub dirty_crates: Vec<String>,
}

/// Build profile of an observed build.
#[derive(Debug, Clone, Copy, PartialEq, Eq, Structural)]
pub enum Profile {
    Dev,
    Release,
}

/// An observed build: a project + profile combination being tracked.
#[derive(Debug, Clone)]
pub struct Observation {
    pub id: u64,
    pub name: String,
    pub profile: Profile,
    pub platform: Option<String>,
    pub pinned: bool,
    pub graph: Vec<CrateTopo>,
    pub runs: Vec<Run>,
}

#[derive(Debug, Clone, Copy, PartialEq, Eq, Structural)]
pub enum MeasurementStatus {
    NotStarted,
    Pending,
    Running,
    Complete,
    Failed,
}

#[derive(Debug, Clone, Copy, PartialEq, Eq, Structural)]
pub enum CommitStatus {
    NotStarted,
    Running,
    Complete,
}

#[derive(Debug, Clone, Copy, PartialEq, Eq, Structural)]
pub enum BisectionStatus {
    Active,
    Complete,
    Abandoned,
}

/// How to aggregate measurement values into a conclusion scalar.
#[derive(Debug, Clone, Copy, PartialEq, Eq, Structural)]
pub enum Aggregation {
    Sum,
    Mean,
    Median,
    Max,
    Min,
}

/// Why a summary could not be computed (distinct from "no matches").
#[derive(Debug, Clone, Copy, PartialEq, Eq, Structural)]
pub enum SummaryError {
    /// More than one value matched the filter, but no `aggregation` was set.
    AmbiguousAggregation { matches: usize },
}

/// A forager job handed out by the server.
#[derive(Debug, Clone)]
pub struct ForagerJob {
    pub id: u64,
    pub commit_sha: String,
    pub project_id: u64,
    pub project_upstream: String,
    pub experiment_name: String,
    /// Set when this job is part of a bisection run.
    pub bisection_id: Option<u64>,
}

/// Server answer to a submitted run report.
#[derive(Debug, Clone)]
pub struct ForagerRunResponse {
    pub status: String,
    pub queue_pending: bool,
}

/// Server answer to an experiment pull-request request.
#[derive(Debug, Clone)]
pub struct ExperimentPrResponse {
    pub pr_url: String,
}

/// A single field in a pheromone's schema.
#[derive(Debug, Clone)]
pub struct PheromoneField {
    pub name: String,
    pub field_type: String,
    pub description: Option<String>,
    pub deprecated: bool,
    pub deprecated_in: Option<String>,
    pub replaced_by: Option<String>,
}

/// A registered pheromone tool with its schema.
#[derive(Debug, Clone)]
pub struct PheromoneInfo {
    pub id: u64,
    pub name: String,
    pub github_repo: String,
    pub version: String,
    pub platforms: Vec<String>,
    pub fields: Vec<PheromoneField>,
    pub fetched_at: String,
}

impl SummaryError {
    /// The message the error is shown with.
    pub fn message(&self) -> (r: String)
        ensures
            match *self {
                SummaryError::AmbiguousAggregation { matches } => r@ == crate::text::decimal(
                    matches as nat,
                ) + " values matched the filter but no `aggregation` was specified"@,
            },
    {
        match self {
            SummaryError::AmbiguousAggregation { matches } => {
                let mut out = crate::text::usize_digits(*matches);
                crate::text::append_str(
                    &mut out,
                    " values matched the filter but no `aggregation` was specified",
                );
                crate::text::string_of(&out)
            },
        }
    }
}

} // verus!
