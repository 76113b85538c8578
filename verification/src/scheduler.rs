//! Deterministic scheduling of a multithreaded program.
//!
//! Exactly one thread of the program runs at a time. Every stop of the running thread is a
//! scheduling point, where a [`supervisor::Scheduler`] decides which stopped thread runs next and
//! for how many edges. Futex waits and wakes are emulated. Everything the supervisor decides is
//! here; carrying the decisions out is left to the caller.

pub mod dowsing;
pub mod handshake;
pub mod laws;
pub mod ptrace;
pub mod report;
pub mod seccomp;
pub mod shm;
pub mod supervisor;
