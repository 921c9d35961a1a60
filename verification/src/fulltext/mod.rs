//! `wf_fulltext`: full-text search over literals.

pub mod component;
pub mod manticore;
pub mod manticore_admin;
