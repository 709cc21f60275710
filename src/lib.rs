//! A workload reconciliation engine: turns the desired spec of a workload
//! into a set of container instances, keeps them consistent across updates
//! and rolls back on partial failure.
//!
//! The runtime and the stores are reached by the caller; the functions here
//! take what the runtime answered and decide what the stores hold next.
use vstd::prelude::*;

pub mod replication;
pub mod workload;
pub mod merge;
pub mod labels;
pub mod instance;
pub mod lifecycle;
pub mod endpoint;
pub mod models;
pub mod orchestrator;

verus! {

} // verus!
