//! Core agent runtime logic: prompt assembly, context compaction, error
//! recovery, circuit breaking and session bookkeeping.

pub mod text;
pub mod types;
pub mod prompt;
pub mod harness;
pub mod hook;
pub mod circuit_breaker;
pub mod compaction;
pub mod context;
pub mod memory;
pub mod mutations;
pub mod json;
pub mod file_ops;
pub mod system;
pub mod persistence;
pub mod error;
