//! Contexts handed to extension hooks.
use vstd::prelude::*;

use crate::harness::compaction::{CompactionPreparation, CompactionResult};
use crate::persistence::entry::{entries_view, SessionEntry};
use crate::prompt::PromptBuilder;
use crate::types::{contents_view, messages_view, AgentMessage, Content, StopReason, Usage};

verus! {

/// Why a compaction runs.
#[derive(Debug, Clone, Copy, PartialEq, Eq, Structural)]
#[non_exhaustive]
pub enum CompactReason {
    Overflow,
    Threshold,
    Manual,
}

/// Context passed to the tool-call hook. `input` is JSON text.
#[derive(Debug)]
#[non_exhaustive]
pub struct ToolCallCtx {
    pub tenant_id: String,
    pub session_id: String,
    pub tool_name: String,
    pub tool_call_id: String,
    pub input: String,
}

impl ToolCallCtx {
    /// A context with the given identifiers; `input` is JSON `null`.
    pub fn new(tenant_id: String, session_id: String, tool_name: String, tool_call_id: String) -> (r: Self)
        ensures
            r.tenant_id@ == tenant_id@,
            r.session_id@ == session_id@,
            r.tool_name@ == tool_name@,
            r.tool_call_id@ == tool_call_id@,
            r.input@ == "null"@,
    {
        ToolCallCtx { tenant_id, session_id, tool_name, tool_call_id, input: "null".to_owned() }
    }
}

/// Context passed to the tool-result hook. `input` and `details` are JSON text.
#[derive(Debug)]
#[non_exhaustive]
pub struct ToolResultCtx {
    pub tenant_id: String,
    pub session_id: String,
    pub tool_name: String,
    pub tool_call_id: String,
    pub input: String,
    pub content: Vec<Content>,
    pub details: Option<String>,
    pub is_error: bool,
}

impl ToolResultCtx {
    /// A context with the given identifiers: `input` is JSON `null`, no content,
    /// no details, not an error.
    pub fn new(tenant_id: String, session_id: String, tool_name: String, tool_call_id: String) -> (r: Self)
        ensures
            r.tenant_id@ == tenant_id@,
            r.session_id@ == session_id@,
            r.tool_name@ == tool_name@,
            r.tool_call_id@ == tool_call_id@,
            r.input@ == "null"@,
            r.content@.len() == 0,
            r.details is None,
            !r.is_error,
    {
        ToolResultCtx {
            tenant_id,
            session_id,
            tool_name,
            tool_call_id,
            input: "null".to_owned(),
            content: Vec::new(),
            details: None,
            is_error: false,
        }
    }
}

/// Context passed to the turn-end hook.
#[derive(Debug)]
#[non_exhaustive]
pub struct TurnEndCtx {
    pub tenant_id: String,
    pub session_id: String,
    pub turn_index: u64,
    pub messages: Vec<AgentMessage>,
    pub usage: Usage,
}

impl TurnEndCtx {
    /// A context with the given identifiers, turn index and usage; no messages.
    pub fn new(tenant_id: String, session_id: String, turn_index: u64, usage: Usage) -> (r: Self)
        ensures
            r.tenant_id@ == tenant_id@,
            r.session_id@ == session_id@,
            r.turn_index == turn_index,
            r.messages@.len() == 0,
            r.usage == usage,
    {
        TurnEndCtx { tenant_id, session_id, turn_index, messages: Vec::new(), usage }
    }
}

/// Context passed to the agent-end hook.
#[derive(Debug)]
#[non_exhaustive]
pub struct AgentEndCtx {
    pub tenant_id: String,
    pub session_id: String,
    pub messages: Vec<AgentMessage>,
}

impl AgentEndCtx {
    /// A context with the given identifiers and no messages.
    pub fn new(tenant_id: String, session_id: String) -> (r: Self)
        ensures
            r.tenant_id@ == tenant_id@,
            r.session_id@ == session_id@,
            r.messages@.len() == 0,
    {
        AgentEndCtx { tenant_id, session_id, messages: Vec::new() }
    }
}

/// Context passed to the session-start hook. Each tool is JSON text.
#[derive(Debug)]
#[non_exhaustive]
pub struct SessionCtx {
    pub tenant_id: String,
    pub session_id: String,
    pub system_prompt: String,
    pub tools: Vec<String>,
}

impl SessionCtx {
    /// A context with the given identifiers, an empty prompt and no tools.
    pub fn new(tenant_id: String, session_id: String) -> (r: Self)
        ensures
            r.tenant_id@ == tenant_id@,
            r.session_id@ == session_id@,
            r.system_prompt@.len() == 0,
            r.tools@.len() == 0,
    {
        SessionCtx { tenant_id, session_id, system_prompt: String::new(), tools: Vec::new() }
    }
}

/// Context passed to the context hook.
#[derive(Debug)]
#[non_exhaustive]
pub struct ContextCtx {
    pub tenant_id: String,
    pub session_id: String,
    pub messages: Vec<AgentMessage>,
}

impl ContextCtx {
    /// A context with the given identifiers and no messages.
    pub fn new(tenant_id: String, session_id: String) -> (r: Self)
        ensures
            r.tenant_id@ == tenant_id@,
            r.session_id@ == session_id@,
            r.messages@.len() == 0,
    {
        ContextCtx { tenant_id, session_id, messages: Vec::new() }
    }
}

/// Context passed to the before-agent-start hook. Each tool is JSON text.
#[derive(Debug)]
#[non_exhaustive]
pub struct BeforeAgentStartCtx {
    pub tenant_id: String,
    pub session_id: String,
    /// Rendered system prompt.
    pub system_prompt: Option<String>,
    /// The prompt builder that an extension may inspect or clone and modify.
    pub prompt_builder: PromptBuilder,
    pub messages: Vec<AgentMessage>,
    pub tools: Vec<String>,
    pub model: String,
}

impl BeforeAgentStartCtx {
    /// A context with the given identifiers and model; no prompt, an empty
    /// builder, no messages, no tools.
    pub fn new(tenant_id: String, session_id: String, model: String) -> (r: Self)
        ensures
            r.tenant_id@ == tenant_id@,
            r.session_id@ == session_id@,
            r.model@ == model@,
            r.system_prompt is None,
            r.prompt_builder@.len() == 0,
            r.messages@.len() == 0,
            r.tools@.len() == 0,
    {
        BeforeAgentStartCtx {
            tenant_id,
            session_id,
            system_prompt: None,
            prompt_builder: PromptBuilder::default(),
            messages: Vec::new(),
            tools: Vec::new(),
            model,
        }
    }
}

/// Context passed to the after-provider-response hook.
#[derive(Debug)]
#[non_exhaustive]
pub struct ProviderResponseCtx {
    pub tenant_id: String,
    pub session_id: String,
    pub model: String,
    pub content: Vec<Content>,
    pub turn_index: u64,
    pub attempt: u32,
    pub messages_before: Vec<AgentMessage>,
    pub stop_reason: StopReason,
}

impl ProviderResponseCtx {
    /// A context with the given identifiers, model, turn index and stop reason;
    /// no content, attempt 0, no prior messages.
    pub fn new(
        tenant_id: String,
        session_id: String,
        model: String,
        turn_index: u64,
        stop_reason: StopReason,
    ) -> (r: Self)
        ensures
            r.tenant_id@ == tenant_id@,
            r.session_id@ == session_id@,
            r.model@ == model@,
            r.content@.len() == 0,
            r.turn_index == turn_index,
            r.attempt == 0,
            r.messages_before@.len() == 0,
            r.stop_reason == stop_reason,
    {
        ProviderResponseCtx {
            tenant_id,
            session_id,
            model,
            content: Vec::new(),
            turn_index,
            attempt: 0,
            messages_before: Vec::new(),
            stop_reason,
        }
    }
}

/// Context passed to the before-compact hook.
#[derive(Debug)]
#[non_exhaustive]
pub struct CompactCtx {
    pub tenant_id: String,
    pub session_id: String,
    pub preparation: CompactionPreparation,
    pub entries: Vec<SessionEntry>,
    pub reason: CompactReason,
}

impl CompactCtx {
    /// A context with the given identifiers, preparation and reason; no entries.
    pub fn new(
        tenant_id: String,
        session_id: String,
        preparation: CompactionPreparation,
        reason: CompactReason,
    ) -> (r: Self)
        ensures
            r.tenant_id@ == tenant_id@,
            r.session_id@ == session_id@,
            r.preparation == preparation,
            r.entries@.len() == 0,
            r.reason == reason,
    {
        CompactCtx { tenant_id, session_id, preparation, entries: Vec::new(), reason }
    }
}

/// Context passed to the tool-execution-start hook. `input` is JSON text.
#[derive(Debug)]
#[non_exhaustive]
pub struct ToolExecutionStartCtx {
    pub tenant_id: String,
    pub session_id: String,
    pub tool_name: String,
    pub tool_call_id: String,
    pub input: String,
}

impl ToolExecutionStartCtx {
    /// A context with the given identifiers; `input` is JSON `null`.
    pub fn new(tenant_id: String, session_id: String, tool_name: String, tool_call_id: String) -> (r: Self)
        ensures
            r.tenant_id@ == tenant_id@,
            r.session_id@ == session_id@,
            r.tool_name@ == tool_name@,
            r.tool_call_id@ == tool_call_id@,
            r.input@ == "null"@,
    {
        ToolExecutionStartCtx {
            tenant_id,
            session_id,
            tool_name,
            tool_call_id,
            input: "null".to_owned(),
        }
    }
}

/// Context passed to the tool-execution-end hook.
#[derive(Debug)]
#[non_exhaustive]
pub struct ToolExecutionEndCtx {
    pub tenant_id: String,
    pub session_id: String,
    pub tool_name: String,
    pub tool_call_id: String,
    pub success: bool,
}

impl ToolExecutionEndCtx {
    /// A context with the given identifiers; `success` is false.
    pub fn new(tenant_id: String, session_id: String, tool_name: String, tool_call_id: String) -> (r: Self)
        ensures
            r.tenant_id@ == tenant_id@,
            r.session_id@ == session_id@,
            r.tool_name@ == tool_name@,
            r.tool_call_id@ == tool_call_id@,
            !r.success,
    {
        ToolExecutionEndCtx { tenant_id, session_id, tool_name, tool_call_id, success: false }
    }
}

/// Context passed to the compact-end hook.
#[derive(Debug)]
#[non_exhaustive]
pub struct CompactEndCtx {
    pub tenant_id: String,
    pub session_id: String,
    pub compacted_messages: Vec<AgentMessage>,
    pub token_savings: usize,
    /// The compaction result, if compaction succeeded.
    pub result: Option<CompactionResult>,
}

impl CompactEndCtx {
    /// A context with the given identifiers: no messages, no savings, no result.
    pub fn new(tenant_id: String, session_id: String) -> (r: Self)
        ensures
            r.tenant_id@ == tenant_id@,
            r.session_id@ == session_id@,
            r.compacted_messages@.len() == 0,
            r.token_savings == 0,
            r.result is None,
    {
        CompactEndCtx {
            tenant_id,
            session_id,
            compacted_messages: Vec::new(),
            token_savings: 0,
            result: None,
        }
    }
}

} // verus!
