//! Core of a CI pipeline runner: a dependency-graph scheduler, a compiler
//! from declarative jobs to layered build recipes, secret aggregation, and
//! the decision logic of the concurrent execution loop.

pub mod dag;
pub mod git;
pub mod image;
pub mod llb;
pub mod oci;
pub mod run;
pub mod secrets;
pub mod job;
pub mod telemetry;
pub mod util;
