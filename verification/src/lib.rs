//! Core of a batch file-analysis engine: line statistics, the per-file
//! analysis protocol, directory collection, progress tracking, the worker
//! pool's queue discipline and result aggregation.
//!
//! Everything that touches the file system, the clock or threads is left to
//! the caller; this crate decides what to do with what the caller observed.

pub mod aggregate;
pub mod analysis;
pub mod analyzer;
pub mod cancel;
pub mod collect;
pub mod progress;
pub mod report;
pub mod run;
pub mod stats;
pub mod text;
pub mod thread_pool;
pub mod timing;
