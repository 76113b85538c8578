//! Deterministic virtual time for a supervised program.
//!
//! The supervisor answers clock reads from a virtual clock, turns sleeps and timed waits into
//! parked threads, and advances the clock only when every supervised thread is parked. Everything
//! it decides is here; carrying the decisions out is left to the caller.

pub mod clock;
pub mod coverage;
pub mod laws;
pub mod log;
pub mod memory;
pub mod sandbox;
pub mod seccomp;
pub mod waits;
