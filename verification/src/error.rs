//! Errors of the agent runtime.
use vstd::prelude::*;

use crate::file_ops::strings_view;
use crate::text::{decimal, decimal_spec};

verus! {

/// Errors that can occur during agent execution.
#[derive(Debug)]
pub enum AgentError {
    ToolNotFound(String),
    ToolExecutionFailed(String),
    HookDispatchError(String),
    /// A provider error; the text is the provider's description of it.
    LlmError(String),
    LlmResponseError(String),
    ContextOverflow(String),
    Cancelled,
    CompactionFailed(String),
    RecoveryAborted(String),
    Persistence(String),
    QuotaExceeded(String),
    SkillNotFound(String),
    SkillLoadFailed(String),
    SessionInError { reason: String },
    LoopDisabled,
    GoalNotMet { criteria: Vec<String>, attempts: u32 },
}

/// Abstract value of an [`AgentError`].
pub enum AgentErrorView {
    ToolNotFound(Seq<char>),
    ToolExecutionFailed(Seq<char>),
    HookDispatchError(Seq<char>),
    LlmError(Seq<char>),
    LlmResponseError(Seq<char>),
    ContextOverflow(Seq<char>),
    Cancelled,
    CompactionFailed(Seq<char>),
    RecoveryAborted(Seq<char>),
    Persistence(Seq<char>),
    QuotaExceeded(Seq<char>),
    SkillNotFound(Seq<char>),
    SkillLoadFailed(Seq<char>),
    SessionInError { reason: Seq<char> },
    LoopDisabled,
    GoalNotMet { criteria: Seq<Seq<char>>, attempts: u32 },
}

impl View for AgentError {
    type V = AgentErrorView;

    open spec fn view(&self) -> AgentErrorView {
        match self {
            AgentError::ToolNotFound(s) => AgentErrorView::ToolNotFound(s@),
            AgentError::ToolExecutionFailed(s) => AgentErrorView::ToolExecutionFailed(s@),
            AgentError::HookDispatchError(s) => AgentErrorView::HookDispatchError(s@),
            AgentError::LlmError(s) => AgentErrorView::LlmError(s@),
            AgentError::LlmResponseError(s) => AgentErrorView::LlmResponseError(s@),
            AgentError::ContextOverflow(s) => AgentErrorView::ContextOverflow(s@),
            AgentError::Cancelled => AgentErrorView::Cancelled,
            AgentError::CompactionFailed(s) => AgentErrorView::CompactionFailed(s@),
            AgentError::RecoveryAborted(s) => AgentErrorView::RecoveryAborted(s@),
            AgentError::Persistence(s) => AgentErrorView::Persistence(s@),
            AgentError::QuotaExceeded(s) => AgentErrorView::QuotaExceeded(s@),
            AgentError::SkillNotFound(s) => AgentErrorView::SkillNotFound(s@),
            AgentError::SkillLoadFailed(s) => AgentErrorView::SkillLoadFailed(s@),
            AgentError::SessionInError { reason } => AgentErrorView::SessionInError {
                reason: reason@,
            },
            AgentError::LoopDisabled => AgentErrorView::LoopDisabled,
            AgentError::GoalNotMet { criteria, attempts } => AgentErrorView::GoalNotMet {
                criteria: strings_view(criteria@),
                attempts: *attempts,
            },
        }
    }
}

/// The `Debug` rendering of a list of strings (`["a", "b"]`, each string
/// quoted and escaped).
pub uninterp spec fn debug_string_list(v: Seq<Seq<char>>) -> Seq<char>;

/// `format!("{:?}", v)` on a `Vec<String>`.
#[verifier::external_body]
fn debug_strings(v: &Vec<String>) -> (r: String)
    ensures
        r@ == debug_string_list(strings_view(v@)),
{
    format!("{:?}", v)
}

impl AgentErrorView {
    /// Stable machine-readable code of the variant.
    pub open spec fn code(self) -> Seq<char> {
        match self {
            AgentErrorView::ToolNotFound(_) => "tool_not_found"@,
            AgentErrorView::ToolExecutionFailed(_) => "tool_execution_failed"@,
            AgentErrorView::HookDispatchError(_) => "hook_dispatch_error"@,
            AgentErrorView::LlmError(_) => "llm_error"@,
            AgentErrorView::LlmResponseError(_) => "llm_response_error"@,
            AgentErrorView::ContextOverflow(_) => "context_overflow"@,
            AgentErrorView::Cancelled => "cancelled"@,
            AgentErrorView::CompactionFailed(_) => "compaction_failed"@,
            AgentErrorView::RecoveryAborted(_) => "recovery_aborted"@,
            AgentErrorView::Persistence(_) => "persistence_error"@,
            AgentErrorView::QuotaExceeded(_) => "quota_exceeded"@,
            AgentErrorView::SkillNotFound(_) => "skill_not_found"@,
            AgentErrorView::SkillLoadFailed(_) => "skill_load_failed"@,
            AgentErrorView::SessionInError { .. } => "session_in_error"@,
            AgentErrorView::LoopDisabled => "loop_disabled"@,
            AgentErrorView::GoalNotMet { .. } => "goal_not_met"@,
        }
    }

    /// Human-readable description of the error.
    pub open spec fn text(self) -> Seq<char> {
        match self {
            AgentErrorView::ToolNotFound(s) => "tool not found: "@ + s,
            AgentErrorView::ToolExecutionFailed(s) => "tool execution failed: "@ + s,
            AgentErrorView::HookDispatchError(s) => "hook dispatch error: "@ + s,
            AgentErrorView::LlmError(s) => "llm error: "@ + s,
            AgentErrorView::LlmResponseError(s) => "llm response error: "@ + s,
            AgentErrorView::ContextOverflow(s) => "context overflow: "@ + s,
            AgentErrorView::Cancelled => "cancelled"@,
            AgentErrorView::CompactionFailed(s) => "compaction failed: "@ + s,
            AgentErrorView::RecoveryAborted(s) => "recovery aborted: "@ + s,
            AgentErrorView::Persistence(s) => "persistence error: "@ + s,
            AgentErrorView::QuotaExceeded(s) => "quota exceeded: "@ + s,
            AgentErrorView::SkillNotFound(s) => "skill not found: "@ + s,
            AgentErrorView::SkillLoadFailed(s) => "skill load failed: "@ + s,
            AgentErrorView::SessionInError { reason } => "session in error state: "@ + reason,
            AgentErrorView::LoopDisabled => "loop strategy is disabled (PANDARIA_DISABLE_CRON=1)"@,
            AgentErrorView::GoalNotMet { criteria, attempts } => "goal not met after "@
                + decimal_spec(attempts as nat) + " attempts: "@ + debug_string_list(criteria),
        }
    }
}

/// Copy of a list of strings.
pub fn clone_strings(v: &Vec<String>) -> (r: Vec<String>)
    ensures
        strings_view(r@) == strings_view(v@),
{
    let r = v.clone();
    proof {
        assert(strings_view(r@) =~= strings_view(v@));
    }
    r
}

fn prefixed(prefix: &str, s: &String) -> (r: String)
    ensures
        r@ == prefix@ + s@,
{
    prefix.to_owned().concat(s.as_str())
}

impl AgentError {
    /// A stable machine-readable error code for this variant.
    pub fn code(&self) -> (r: &'static str)
        ensures
            r@ == self@.code(),
    {
        match self {
            AgentError::ToolNotFound(_) => "tool_not_found",
            AgentError::ToolExecutionFailed(_) => "tool_execution_failed",
            AgentError::HookDispatchError(_) => "hook_dispatch_error",
            AgentError::LlmError(_) => "llm_error",
            AgentError::LlmResponseError(_) => "llm_response_error",
            AgentError::ContextOverflow(_) => "context_overflow",
            AgentError::Cancelled => "cancelled",
            AgentError::CompactionFailed(_) => "compaction_failed",
            AgentError::RecoveryAborted(_) => "recovery_aborted",
            AgentError::Persistence(_) => "persistence_error",
            AgentError::QuotaExceeded(_) => "quota_exceeded",
            AgentError::SkillNotFound(_) => "skill_not_found",
            AgentError::SkillLoadFailed(_) => "skill_load_failed",
            AgentError::SessionInError { .. } => "session_in_error",
            AgentError::LoopDisabled => "loop_disabled",
            AgentError::GoalNotMet { .. } => "goal_not_met",
        }
    }

    /// The human-readable description of the error.
    pub fn to_string(&self) -> (r: String)
        ensures
            r@ == self@.text(),
    {
        match self {
            AgentError::ToolNotFound(s) => prefixed("tool not found: ", s),
            AgentError::ToolExecutionFailed(s) => prefixed("tool execution failed: ", s),
            AgentError::HookDispatchError(s) => prefixed("hook dispatch error: ", s),
            AgentError::LlmError(s) => prefixed("llm error: ", s),
            AgentError::LlmResponseError(s) => prefixed("llm response error: ", s),
            AgentError::ContextOverflow(s) => prefixed("context overflow: ", s),
            AgentError::Cancelled => "cancelled".to_owned(),
            AgentError::CompactionFailed(s) => prefixed("compaction failed: ", s),
            AgentError::RecoveryAborted(s) => prefixed("recovery aborted: ", s),
            AgentError::Persistence(s) => prefixed("persistence error: ", s),
            AgentError::QuotaExceeded(s) => prefixed("quota exceeded: ", s),
            AgentError::SkillNotFound(s) => prefixed("skill not found: ", s),
            AgentError::SkillLoadFailed(s) => prefixed("skill load failed: ", s),
            AgentError::SessionInError { reason } => prefixed("session in error state: ", reason),
            AgentError::LoopDisabled => "loop strategy is disabled (PANDARIA_DISABLE_CRON=1)".to_owned(),
            AgentError::GoalNotMet { criteria, attempts } => {
                let n = decimal(*attempts as u64);
                let d = debug_strings(criteria);
                "goal not met after ".to_owned().concat(n.as_str()).concat(" attempts: ").concat(
                    d.as_str(),
                )
            },
        }
    }
}

impl Clone for AgentError {
    fn clone(&self) -> (r: Self)
        ensures
            r@ == self@,
    {
        match self {
            AgentError::ToolNotFound(s) => AgentError::ToolNotFound(s.clone()),
            AgentError::ToolExecutionFailed(s) => AgentError::ToolExecutionFailed(s.clone()),
            AgentError::HookDispatchError(s) => AgentError::HookDispatchError(s.clone()),
            AgentError::LlmError(s) => AgentError::LlmError(s.clone()),
            AgentError::LlmResponseError(s) => AgentError::LlmResponseError(s.clone()),
            AgentError::ContextOverflow(s) => AgentError::ContextOverflow(s.clone()),
            AgentError::Cancelled => AgentError::Cancelled,
            AgentError::CompactionFailed(s) => AgentError::CompactionFailed(s.clone()),
            AgentError::RecoveryAborted(s) => AgentError::RecoveryAborted(s.clone()),
            AgentError::Persistence(s) => AgentError::Persistence(s.clone()),
            AgentError::QuotaExceeded(s) => AgentError::QuotaExceeded(s.clone()),
            AgentError::SkillNotFound(s) => AgentError::SkillNotFound(s.clone()),
            AgentError::SkillLoadFailed(s) => AgentError::SkillLoadFailed(s.clone()),
            AgentError::SessionInError { reason } => AgentError::SessionInError {
                reason: reason.clone(),
            },
            AgentError::LoopDisabled => AgentError::LoopDisabled,
            AgentError::GoalNotMet { criteria, attempts } => AgentError::GoalNotMet {
                criteria: clone_strings(criteria),
                attempts: *attempts,
            },
        }
    }
}

/// Errors of compaction.
#[derive(Debug)]
pub enum CompactionError {
    /// Nothing to compact: the history is empty or ends with a compaction.
    AlreadyCompacted,
    /// The model failed to produce a summary.
    LlmError(String),
}

impl CompactionError {
    /// The human-readable description of the error.
    pub fn to_string(&self) -> (r: String)
        ensures
            r@ == (match self {
                CompactionError::AlreadyCompacted => "already compacted"@,
                CompactionError::LlmError(s) => "llm error: "@ + s@,
            }),
    {
        match self {
            CompactionError::AlreadyCompacted => "already compacted".to_owned(),
            CompactionError::LlmError(s) => prefixed("llm error: ", s),
        }
    }
}

} // verus!
