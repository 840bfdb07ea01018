//! Core of a monorepo task orchestrator: canonical identifiers and targets,
//! an expanded task model, inherited task configuration, a project graph
//! builder with token expansion and constraint enforcement, an action
//! dependency graph with batched topological sorting, and an action pipeline
//! state machine with event emission, result accounting and an estimator.
use vstd::prelude::*;

pub mod affected;
pub mod builder;
pub mod collections;
pub mod colors;
pub mod cpus;
pub mod emitter;
pub mod depgraph;
pub mod envfile;
pub mod estimator;
pub mod glob;
pub mod args;
pub mod graph;
pub mod hash;
pub mod ids;
pub mod inherited;
pub mod pipeline;
pub mod platform;
pub mod project;
pub mod querycmd;
pub mod target;
pub mod task;
pub mod token;
pub mod task_config;

verus! {

} // verus!
