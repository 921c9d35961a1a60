//! Derived statements: a rule constructs them from the graph, and they are
//! inserted into a graph of their own.

pub mod engine;
pub mod extension;
pub mod local;
