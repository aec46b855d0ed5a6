//! Preparing conversation turns for an external memory system and building
//! the queries that retrieve from it.
pub mod emerald;
pub mod extractor;
pub mod formatter;
pub mod hook;
pub mod in_memory;
pub mod store;
pub mod types;

pub use store::MemoryError;
pub use types::MemoryContext;
