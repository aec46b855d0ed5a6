//! Errors of a memory store.
use vstd::prelude::*;

verus! {

/// Error reported by a memory store.
#[derive(Debug)]
pub enum MemoryError {
    StoreError(String),
}

impl MemoryError {
    /// The human-readable description of the error.
    pub fn to_string(&self) -> (r: String)
        ensures
            r@ == (match self {
                MemoryError::StoreError(s) => "memory store error: "@ + s@,
            }),
    {
        match self {
            MemoryError::StoreError(s) => "memory store error: ".to_owned().concat(s.as_str()),
        }
    }
}

} // verus!
