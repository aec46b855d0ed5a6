use agent_core::error::{AgentError, CompactionError};

#[test]
fn error_codes_are_stable() {
    let cases = vec![
        (AgentError::ToolNotFound("x".into()), "tool_not_found"),
        (AgentError::ToolExecutionFailed("x".into()), "tool_execution_failed"),
        (AgentError::HookDispatchError("x".into()), "hook_dispatch_error"),
        (AgentError::LlmError("x".into()), "llm_error"),
        (AgentError::LlmResponseError("x".into()), "llm_response_error"),
        (AgentError::ContextOverflow("x".into()), "context_overflow"),
        (AgentError::Cancelled, "cancelled"),
        (AgentError::CompactionFailed("x".into()), "compaction_failed"),
        (AgentError::RecoveryAborted("x".into()), "recovery_aborted"),
        (AgentError::Persistence("x".into()), "persistence_error"),
        (AgentError::QuotaExceeded("x".into()), "quota_exceeded"),
        (AgentError::SkillNotFound("x".into()), "skill_not_found"),
        (AgentError::SkillLoadFailed("x".into()), "skill_load_failed"),
        (AgentError::SessionInError { reason: "x".into() }, "session_in_error"),
        (AgentError::LoopDisabled, "loop_disabled"),
        (AgentError::GoalNotMet { criteria: vec![], attempts: 1 }, "goal_not_met"),
    ];
    for (e, code) in cases {
        assert_eq!(e.code(), code);
    }
}

#[test]
fn error_texts() {
    assert_eq!(AgentError::ToolNotFound("bash".into()).to_string(), "tool not found: bash");
    assert_eq!(AgentError::ToolExecutionFailed("boom".into()).to_string(), "tool execution failed: boom");
    assert_eq!(AgentError::HookDispatchError("h".into()).to_string(), "hook dispatch error: h");
    assert_eq!(AgentError::LlmError("e".into()).to_string(), "llm error: e");
    assert_eq!(AgentError::LlmResponseError("e".into()).to_string(), "llm response error: e");
    assert_eq!(AgentError::ContextOverflow("o".into()).to_string(), "context overflow: o");
    assert_eq!(AgentError::Cancelled.to_string(), "cancelled");
    assert_eq!(AgentError::CompactionFailed("c".into()).to_string(), "compaction failed: c");
    assert_eq!(AgentError::RecoveryAborted("r".into()).to_string(), "recovery aborted: r");
    assert_eq!(AgentError::Persistence("p".into()).to_string(), "persistence error: p");
    assert_eq!(AgentError::QuotaExceeded("q".into()).to_string(), "quota exceeded: q");
    assert_eq!(AgentError::SkillNotFound("s".into()).to_string(), "skill not found: s");
    assert_eq!(AgentError::SkillLoadFailed("s".into()).to_string(), "skill load failed: s");
    assert_eq!(
        AgentError::SessionInError { reason: "bad".into() }.to_string(),
        "session in error state: bad"
    );
    assert_eq!(AgentError::LoopDisabled.to_string(), "loop strategy is disabled (PANDARIA_DISABLE_CRON=1)");
    assert_eq!(
        AgentError::GoalNotMet { criteria: vec!["a".into(), "b\"c".into()], attempts: 12 }.to_string(),
        "goal not met after 12 attempts: [\"a\", \"b\\\"c\"]"
    );
}

#[test]
fn compaction_error_texts() {
    assert_eq!(CompactionError::AlreadyCompacted.to_string(), "already compacted");
    assert_eq!(CompactionError::LlmError("x".into()).to_string(), "llm error: x");
}

#[test]
fn errors_clone_faithfully() {
    let e = AgentError::GoalNotMet { criteria: vec!["a".into()], attempts: 3 };
    let c = e.clone();
    assert_eq!(c.to_string(), e.to_string());
}
