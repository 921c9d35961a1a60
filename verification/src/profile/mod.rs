//! How the predicates of a graph are used: for each, the shape of the table
//! that would hold its statements.

pub mod classify;
pub mod single;
pub mod survey;
