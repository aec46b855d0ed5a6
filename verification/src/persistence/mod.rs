//! Session history entries.
pub mod entry;
