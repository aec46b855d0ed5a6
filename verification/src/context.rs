//! Contexts handed to the agent-end and context hooks.
use vstd::prelude::*;

use crate::types::AgentMessage;

verus! {

/// Context passed to the agent-end hook.
#[derive(Debug)]
pub struct AgentEndCtx {
    pub tenant_id: String,
    pub session_id: String,
    pub messages: Vec<AgentMessage>,
}

/// Context passed to the context hook.
#[derive(Debug)]
pub struct ContextCtx {
    pub tenant_id: String,
    pub session_id: String,
    pub messages: Vec<AgentMessage>,
}

} // verus!
