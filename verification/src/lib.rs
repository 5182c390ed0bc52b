//! Verified core logic of the wezel build-observability suite.
use vstd::prelude::*;

pub mod alias;
pub mod burrow;
pub mod cargo_args;
pub mod client;
pub mod daemon;
pub mod experiment;
pub mod forager;
pub mod fetcher;
pub mod lint;
pub mod lint_steps;
pub mod pheromone_types;
pub mod run;
pub mod runner;
pub mod shell;
pub mod standalone;
pub mod summary;
pub mod text;
pub mod topology;
pub mod types;
pub mod upstream;

verus! {

} // verus!
