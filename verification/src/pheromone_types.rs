//! The data model of the pheromone agent, as consumed by the dashboard.
use vstd::prelude::*;

pub use crate::types::{CommitStatus, MeasurementStatus, Profile};

verus! {

/// A project, identified across machines by its upstream URL.
#[derive(Debug, Clone)]
pub struct Project {
    pub id: u64,
    pub name: String,
    pub upstream: String,
}

/// A crate and its direct dependencies.
#[derive(Debug, Clone)]
pub struct CrateTopo {
    pub name: String,
    pub deps: Vec<String>,
}

/// A single observed build invocation.
#[derive(Debug, Clone)]
pub struct Run {
    pub user: String,
    pub timestamp: String,
    pub commit: String,
    pub build_time_ms: u64,
    pub dirty_crates: Vec<String>,
}

/// A build scenario: a project + profile combination being tracked.
#[derive(Debug, Clone)]
pub struct Scenario {
    pub id: u64,
    pub name: String,
    pub profile: Profile,
    pub pinned: bool,
    pub graph: Vec<CrateTopo>,
    pub runs: Vec<Run>,
}

} // verus!
