//! Core runtime: strategies, error recovery, compaction and session state.
pub mod agent_loop;
pub mod builder;
pub mod compaction;
pub mod config;
pub mod error_recovery;
pub mod session;
pub mod strategy;
pub mod tool;
