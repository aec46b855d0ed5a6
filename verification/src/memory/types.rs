//! The identity of a memory operation.
use vstd::prelude::*;

verus! {

/// Context passed to memory store operations, identifying the tenant and session.
#[derive(Debug)]
pub struct MemoryContext {
    pub tenant_id: String,
    pub session_id: String,
    /// A user identity, for stores that map tenants to users.
    pub user_id: Option<String>,
    /// Session metadata for routing or filtering by the store.
    pub model: String,
    /// Milliseconds since the Unix epoch.
    pub session_started_at: u64,
}

} // verus!
