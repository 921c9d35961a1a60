//! Laws that say what the functions do to a graph, an index or a plan, in terms
//! of what goes in and what comes out.

pub mod calling;
pub mod deriving;
pub mod fetching;
pub mod graph;
pub mod lists;
pub mod mapping;
pub mod mirroring;
pub mod objects;
pub mod plans;
pub mod profiles;
pub mod pruning;
pub mod renaming;
pub mod searching;
pub mod serving;
pub mod showing;
pub mod storing;
pub mod tables;
pub mod trees;
pub mod variables;
