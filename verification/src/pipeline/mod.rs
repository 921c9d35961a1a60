//! `wf_pipeline`: runs a plan of steps against the graph and against other
//! components, and reports one row for each step.

pub mod interpolate;
pub mod outcome;
pub mod run;
