//! An exhaustive search for the longest-running program of a tiny sixteen-cell
//! machine: the machine itself, the coordinator that deals out ranges of seeds,
//! and the worker that runs every seed of a range.

pub mod coordinator;
pub mod encoding;
pub mod machine;
mod platform;
pub mod run;
pub mod snapshot;
pub mod worker;

pub use coordinator::{Metrics, ServerState, WorkBatch, WorkResult};
pub use encoding::{modulo, program_from_seed};
pub use machine::QT4004;
pub use worker::{run_seed, search_batch};
