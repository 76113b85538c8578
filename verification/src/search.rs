//! The search: which case comes next, and what is learned from a case that was run.

pub mod frequency;
pub mod dictionary;
pub mod corpus;
pub mod state;
pub mod merge;
pub mod plan;
pub mod laws;
