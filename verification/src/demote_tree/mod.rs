//! `wf_demote_tree`: moves tree-shaped parts of the graph out to a document
//! sink, as JSON documents.

pub mod edges;
pub mod run;
pub mod serialize;
