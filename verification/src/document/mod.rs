//! Documents: found by a search backend, kept by a versioned store.

pub mod calls;
pub mod manticore;
pub mod manticore_admin;
pub mod sirix;
pub mod sirix_write;
pub mod snippet;
pub mod terms;
