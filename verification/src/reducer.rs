//! Which reductions of the best case are tried, and in which order.

pub mod bytes;
pub mod laws;
pub mod ranking;
pub mod scalars;
pub mod sequences;
pub mod state;
