//! Canonicalization of `owl:sameAs` classes, and the sweeps that keep search
//! indexes in step with the graph and with the document store.

pub mod component;
pub mod document_sweep;
pub mod fulltext_sweep;
pub mod merge;
pub mod run;
pub mod tracker;
pub mod union_find;
