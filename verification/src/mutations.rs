//! Decisions and mutations returned by extension hooks, with the system
//! prompt as plain text.
use vstd::prelude::*;

use crate::harness::compaction::CompactionResult;
use crate::types::AgentMessage;

verus! {

/// Decision returned by first-block-wins hooks.
#[derive(Debug)]
pub enum HookDecision {
    Continue,
    Block { reason: String },
}

impl Default for HookDecision {
    fn default() -> (r: Self)
        ensures
            r is Continue,
    {
        HookDecision::Continue
    }
}

/// Mutation returned by chain hooks for the context.
#[derive(Debug)]
pub struct ContextMutation {
    pub messages: Option<Vec<AgentMessage>>,
}

impl Default for ContextMutation {
    fn default() -> (r: Self)
        ensures
            r.messages is None,
    {
        ContextMutation { messages: None }
    }
}

/// Decision returned by the before-compact hook.
#[derive(Debug)]
pub enum CompactDecision {
    Continue,
    Block { reason: String },
    Replace { result: CompactionResult },
}

impl Default for CompactDecision {
    fn default() -> (r: Self)
        ensures
            r is Continue,
    {
        CompactDecision::Continue
    }
}

/// Mutation returned by the before-agent-start hook.
#[derive(Debug)]
pub struct BeforeAgentStartMutation {
    pub system_prompt: Option<String>,
    pub messages: Option<Vec<AgentMessage>>,
}

impl Default for BeforeAgentStartMutation {
    fn default() -> (r: Self)
        ensures
            r.system_prompt is None,
            r.messages is None,
    {
        BeforeAgentStartMutation { system_prompt: None, messages: None }
    }
}

} // verus!
