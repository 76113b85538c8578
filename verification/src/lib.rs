//! Coverage-guided exploration of byte-driven cases, with the logic of the search verified.

pub mod bpf;
pub mod candidate;
pub mod counters;
pub mod coverage;
pub mod coverage_guided;
pub mod execution;
pub mod exploration;
pub mod havoc;
pub mod linux;
pub mod llvm;
pub mod llvm_coverage;
pub mod mutate;
pub mod mutation;
pub mod no_coverage;
pub mod optimizer;
pub mod order;
pub mod parallel;
pub mod pipeline;
pub mod random;
pub mod reduce;
pub mod reducer;
pub mod reduction;
pub mod rewrite;
pub mod sancov;
pub mod scheduler;
pub mod rng;
pub mod score;
pub mod search;
pub mod targets;
pub mod text;
pub mod trace;
pub mod virtual_time;
pub mod weights;
