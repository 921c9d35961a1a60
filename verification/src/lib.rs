//! Functions that a graph store calls: they move statements between the graph,
//! relational sinks, document stores and search indexes, derive new statements,
//! and run plans of such steps.
//!
//! A function that speaks to its host is a state machine here. It takes what
//! came back from the host and tells what to ask next, so that every decision is
//! part of the library and only the asking is left to the caller.
//!
//! - Texts and numbers: [`text`], [`number`], [`order`], [`hash`], [`sql`],
//!   [`endpoint`].
//! - Data: [`json`], [`table`], [`names`], [`rdf`], [`grid`].
//! - The host: [`guest`], [`host`].
//! - The graph as tables, lists and trees: [`shape`], [`materialize`],
//!   [`materialize_list`], [`materialize_tree`], [`demote`], [`demote_tree`].
//! - Searching: [`search`], [`bulk`], [`document`], [`fulltext`].
//! - Identifiers and mirrors kept in step: [`canonicalize`].
//! - Deriving and describing: [`infer`], [`profile`].
//! - Calls and plans: [`fetch`], [`mapping`], [`pipeline`].
//! - The server of text embeddings: [`sidecar`].
//! - What holds of all of these over graphs, plans and results: [`laws`].

#![verifier::loop_isolation(false)]

pub mod text;
pub mod number;
pub mod order;
pub mod hash;
pub mod sql;
pub mod endpoint;

pub mod json;
pub mod table;
pub mod names;
pub mod rdf;
pub mod grid;

pub mod guest;
pub mod host;

pub mod shape;
pub mod materialize;
pub mod materialize_list;
pub mod materialize_tree;
pub mod demote;
pub mod demote_tree;

pub mod search;
pub mod bulk;
pub mod document;
pub mod fulltext;

pub mod canonicalize;

pub mod infer;
pub mod profile;

pub mod fetch;
pub mod mapping;
pub mod pipeline;

pub mod sidecar;

pub mod laws;
