use agent_core::error::AgentError;
use agent_core::harness::compaction::{CompactionConfig, CompactionResult};
use agent_core::harness::error_recovery::RecoveryStateMachine;
use agent_core::harness::session::history::SessionHistory;
use agent_core::harness::session::state::{CompactionCheck, RunOutcome};
use agent_core::harness::session::{
    completion_text, completion_with_deltas, iteration_builder, reset_session, iteration_task, plan_prompt, session_prompt_builder,
    strategy_summary_fragment, BackgroundLoop, PromptPlan, SessionEventHub, SessionState,
    SessionStateMachine,
};
use agent_core::harness::strategy::{
    ContextStrategy, GoalCriterion, GoalExhaustedAction, GoalVerification, RhythmStrategy,
    SessionStrategy, TerminationStrategy,
};
use agent_core::hook::context::CompactReason;
use agent_core::persistence::entry::{SessionContextBuilder, SessionEntry};
use agent_core::types::{
    AgentMessage, AssistantMessage, Content, StopReason, ToolCall, ToolResultMessage, Usage,
    UserMessage,
};

fn msg(text: &str) -> AgentMessage {
    AgentMessage::Assistant(assistant(text, StopReason::Stop, None))
}

fn assistant(text: &str, stop_reason: StopReason, error: Option<&str>) -> AssistantMessage {
    AssistantMessage {
        content: vec![Content::Text { text: text.to_string() }],
        usage: Usage { input_tokens: 0, output_tokens: 0, total_tokens: 0 },
        stop_reason,
        error_message: error.map(|e| e.to_string()),
        timestamp: 0,
    }
}

fn user(text: &str) -> AgentMessage {
    AgentMessage::User(UserMessage { content: vec![Content::Text { text: text.to_string() }], timestamp: 0 })
}

#[test]
fn state_transitions_idle_running_idle() {
    let mut sm = SessionStateMachine::new(3);
    assert_eq!(sm.state(), SessionState::Idle);
    sm.enter_running();
    assert_eq!(sm.state(), SessionState::Running);
    assert!(sm.is_streaming());
    sm.enter_idle();
    assert_eq!(sm.state(), SessionState::Idle);
    assert!(!sm.is_streaming());
}

#[test]
fn state_enter_error_records_reason() {
    let mut sm = SessionStateMachine::new(3);
    sm.enter_error("boom".to_string());
    assert_eq!(sm.state(), SessionState::Error);
    assert_eq!(sm.error_reason(), Some("boom".to_string()));
}

#[test]
fn state_clear_error_resets_to_idle() {
    let mut sm = SessionStateMachine::new(3);
    sm.enter_error("oops".to_string());
    sm.clear_error();
    assert_eq!(sm.state(), SessionState::Idle);
    assert_eq!(sm.error_reason(), None);
}

#[test]
fn state_abort_propagates_to_child_token() {
    let sm = SessionStateMachine::new(3);
    let child = sm.child_token();
    assert!(!child.is_cancelled());
    sm.abort();
    assert!(child.is_cancelled());
    assert!(sm.abort_token().is_cancelled());
}

#[test]
fn state_reset_provides_fresh_token() {
    let mut sm = SessionStateMachine::new(3);
    let old_token = sm.abort_token();
    sm.abort();
    assert!(old_token.is_cancelled());
    sm.reset(5);
    assert!(!sm.abort_token().is_cancelled());
    assert_eq!(sm.recovery().max_attempts(), 5);
}

#[test]
fn history_push_and_messages() {
    let mut h = SessionHistory::new("t1".into(), "s1".into());
    assert!(h.is_empty());
    h.push(msg("hello"));
    h.push(msg("world"));
    assert_eq!(h.len(), 2);
    assert_eq!(h.messages().len(), 2);
}

#[test]
fn history_estimate_tokens_via_compactor() {
    let mut h = SessionHistory::new("t1".into(), "s1".into());
    h.push(msg("hello world this is a test"));
    assert!(h.estimate_tokens() > 0);
    assert_eq!(h.try_estimate_tokens(), Some(7));
}

#[test]
fn history_truncate_before_removes_strictly_older_entries() {
    let mut h = SessionHistory::new("t1".into(), "s1".into());
    h.push(msg("a"));
    h.push(msg("b"));
    let b_id = match h.entries().last().unwrap() {
        SessionEntry::Message { id, .. } => *id,
        _ => panic!("expected Message entry"),
    };
    h.push(msg("c"));
    h.truncate_before(b_id);
    assert_eq!(h.len(), 2, "should keep 'b' and 'c'");
}

#[test]
fn history_truncate_before_handles_missing_boundary_gracefully() {
    let mut h = SessionHistory::new("t1".into(), "s1".into());
    h.push(msg("a"));
    h.truncate_before(0xdead_beef);
    assert_eq!(h.len(), 1);
}

#[test]
fn history_apply_compaction_puts_summary_before_kept_entries() {
    let mut h = SessionHistory::new("t1".into(), "s1".into());
    h.push_with_id(user("one"), 1);
    h.push_with_id(msg("two"), 2);
    h.push_with_id(user("three"), 3);
    let result = CompactionResult {
        summary: "summary".to_string(),
        first_kept_entry_id: 3,
        tokens_before: 42,
        details: None,
    };
    h.apply_compaction(&result, false, 99, 1234);
    assert_eq!(h.len(), 2);
    assert_eq!(h.entries()[0].id(), 99);
    assert_eq!(h.entries()[1].id(), 3);
    assert_eq!(h.last_compaction_timestamp(), Some(1234));
    assert_eq!(h.messages().len(), 1);
    let ctx = SessionContextBuilder::build_context(h.entries());
    assert_eq!(ctx.len(), 2);
    match &ctx[0] {
        AgentMessage::User(u) => match &u.content[0] {
            Content::Text { text } => assert_eq!(text, "[Context Summary]\nsummary"),
            _ => panic!("expected the summary text"),
        },
        _ => panic!("expected the summary message"),
    }
    match &ctx[1] {
        AgentMessage::User(u) => match &u.content[0] {
            Content::Text { text } => assert_eq!(text, "three"),
            _ => panic!("expected the kept text"),
        },
        _ => panic!("expected the kept message"),
    }
}

#[test]
fn history_restore_and_unsaved_entries() {
    let mut h = SessionHistory::new("t1".into(), "s1".into());
    assert!(h.begin_restore());
    assert!(!h.begin_restore());
    h.restore(vec![SessionEntry::Message { id: 7, message: user("x") }]);
    assert_eq!(h.len(), 1);
    assert!(h.take_unsaved().is_empty());
    h.push_with_id(msg("y"), 8);
    let unsaved = h.take_unsaved();
    assert_eq!(unsaved.len(), 1);
    assert_eq!(unsaved[0].id(), 8);
    assert!(h.take_unsaved().is_empty());
}

#[test]
fn history_keep_last_returns_all_when_trimmed() {
    let mut h = SessionHistory::new("t1".into(), "s1".into());
    h.push_with_id(user("a"), 1);
    h.push_with_id(user("b"), 2);
    h.push_with_id(user("c"), 3);
    let old = h.keep_last(1).expect("trimmed");
    assert_eq!(old.len(), 3);
    assert_eq!(h.len(), 1);
    assert_eq!(h.entries()[0].id(), 3);
    assert!(h.keep_last(5).is_none());
}

#[test]
fn event_hub_steer_drain() {
    let mut hub = SessionEventHub::new();
    hub.steer(user("s1"));
    hub.steer(user("s2"));
    assert_eq!(hub.drain_steer().len(), 2);
    assert!(hub.drain_steer().is_empty(), "second drain should be empty");
}

#[test]
fn event_hub_follow_up_drain() {
    let mut hub = SessionEventHub::new();
    hub.follow_up(user("f1"));
    assert_eq!(hub.drain_follow_up().len(), 1);
    assert!(hub.drain_follow_up().is_empty());
}

#[test]
fn after_run_accepts_a_normal_response() {
    let mut sm = SessionStateMachine::new(3);
    sm.enter_running();
    let out = sm.after_run(Ok(vec![user("q"), msg("a")]));
    assert!(matches!(out, RunOutcome::Accept(ref m) if m.len() == 2));
    assert_eq!(sm.state(), SessionState::Idle);
}

#[test]
fn after_run_backs_off_on_transient_failure() {
    let mut sm = SessionStateMachine::new(3);
    let out = sm.after_run(Ok(vec![AgentMessage::Assistant(assistant("", StopReason::Error, Some("Overloaded")))]));
    assert!(matches!(out, RunOutcome::Backoff { delay_ms: 100 }));
    assert_eq!(sm.recovery().retry_count, 0);
}

#[test]
fn after_run_compacts_once_then_fails_on_overflow_error() {
    let mut sm = SessionStateMachine::new(3);
    let first = sm.after_run(Err(AgentError::ContextOverflow("context length exceeded".into())));
    assert!(matches!(first, RunOutcome::Compact));
    let second = sm.after_run(Err(AgentError::ContextOverflow("context length exceeded".into())));
    match second {
        RunOutcome::Fail(AgentError::CompactionFailed(reason)) => {
            assert_eq!(reason, "Context overflow recovery failed after compact-and-retry")
        }
        _ => panic!("expected compaction failure"),
    }
    assert_eq!(sm.state(), SessionState::Error);
}

#[test]
fn after_run_error_puts_session_in_error() {
    let mut sm = SessionStateMachine::new(3);
    let out = sm.after_run(Err(AgentError::LlmResponseError("bad".into())));
    assert!(matches!(out, RunOutcome::Fail(AgentError::LlmResponseError(_))));
    assert_eq!(sm.state(), SessionState::Error);
    assert_eq!(sm.error_reason(), Some("llm response error: bad".to_string()));
    match sm.check_usable() {
        Err(AgentError::SessionInError { reason }) => assert_eq!(reason, "llm response error: bad"),
        _ => panic!("expected session-in-error"),
    }
}

#[test]
fn after_run_cancellation_fails_without_error_state() {
    let mut sm = SessionStateMachine::new(3);
    let out = sm.after_run(Err(AgentError::Cancelled));
    assert!(matches!(out, RunOutcome::Fail(AgentError::Cancelled)));
    assert_eq!(sm.state(), SessionState::Idle);
    assert!(sm.check_usable().is_ok());
}

#[test]
fn compaction_check_threshold_and_overflow() {
    let config = CompactionConfig::new(true, 1_000, 500);
    let mut sm = SessionStateMachine::new(3);
    let normal = assistant("ok", StopReason::Stop, None);
    assert!(matches!(sm.check_compaction(&config, &normal, None, 9_500, 10_000), CompactionCheck::Compact(CompactReason::Threshold)));
    assert!(matches!(sm.check_compaction(&config, &normal, None, 8_000, 10_000), CompactionCheck::Skip));
    let mut late = assistant("ok", StopReason::Stop, None);
    late.timestamp = 5;
    assert!(matches!(sm.check_compaction(&config, &late, Some(10), 9_500, 10_000), CompactionCheck::Skip));
    let overflow = assistant("", StopReason::Error, Some("token limit exceeded"));
    assert!(matches!(sm.check_compaction(&config, &overflow, None, 0, 10_000), CompactionCheck::Compact(CompactReason::Overflow)));
    assert!(matches!(sm.check_compaction(&config, &overflow, None, 0, 10_000), CompactionCheck::Fail(_)));
    let disabled = CompactionConfig::new(false, 1_000, 500);
    assert!(matches!(sm.check_compaction(&disabled, &normal, None, 9_999, 10_000), CompactionCheck::Skip));
}

#[test]
fn completion_text_joins_assistant_texts() {
    let multi = AgentMessage::Assistant(AssistantMessage {
        content: vec![
            Content::Text { text: "a".into() },
            Content::ToolCall(ToolCall { id: "1".into(), name: "t".into(), arguments: "{}".into() }),
            Content::Text { text: "b".into() },
        ],
        usage: Usage { input_tokens: 0, output_tokens: 0, total_tokens: 0 },
        stop_reason: StopReason::Stop,
        error_message: None,
        timestamp: 0,
    });
    let result = AgentMessage::ToolResult(ToolResultMessage {
        tool_call_id: "1".into(),
        tool_name: "t".into(),
        content: vec![Content::Text { text: "ignored".into() }],
        details: None,
        is_error: false,
        timestamp: 0,
    });
    let text = completion_text(&vec![user("q"), multi, result, msg("c")]);
    assert_eq!(text, "a b\nc");
    assert_eq!(completion_text(&vec![]), "");
}

#[test]
fn prompt_plans_follow_strategy() {
    assert_eq!(plan_prompt(&SessionStrategy::default()), PromptPlan::Single);
    let goal = SessionStrategy {
        termination: TerminationStrategy::Goal {
            criteria: vec![],
            max_attempts: 2,
            on_exhausted: GoalExhaustedAction::Abort,
        },
        rhythm: RhythmStrategy::Once,
        context: ContextStrategy::Accumulate,
    };
    assert_eq!(plan_prompt(&goal), PromptPlan::Goal);
    let looped = SessionStrategy {
        termination: TerminationStrategy::Once,
        rhythm: RhythmStrategy::Loop { interval_ms: None, max_iterations: Some(3) },
        context: ContextStrategy::Accumulate,
    };
    assert_eq!(
        plan_prompt(&looped),
        PromptPlan::Loop { goal: false, interval_ms: 600_000, max_iterations: Some(3) }
    );
}

#[test]
fn background_loop_stops_at_max_or_abort() {
    let mut l = BackgroundLoop::new(Some(3));
    assert!(l.may_continue(false));
    assert_eq!(l.begin_iteration(), 2);
    assert!(l.may_continue(false));
    assert_eq!(l.begin_iteration(), 3);
    assert!(!l.may_continue(false));
    let unlimited = BackgroundLoop::new(None);
    assert!(unlimited.may_continue(false));
    assert!(!unlimited.may_continue(true));
}

#[test]
fn iteration_task_and_builder() {
    let crit = GoalCriterion { id: "c1".into(), description: "d".into(), verification: GoalVerification::SelfAssessment };
    let goal = TerminationStrategy::Goal { criteria: vec![crit], max_attempts: 1, on_exhausted: GoalExhaustedAction::Abort };
    assert!(iteration_task("do it", &goal).starts_with("## Task\n\ndo it\n\n"));
    assert_eq!(iteration_task("do it", &TerminationStrategy::Once), "do it");
    assert_eq!(iteration_builder(&ContextStrategy::Clear, "persona").render(), "persona");
    assert_eq!(iteration_builder(&ContextStrategy::Accumulate, "persona").render(), "");
}

#[test]
fn strategy_fragment_and_session_builder() {
    let f = strategy_summary_fragment(Some("old work".into()));
    assert_eq!(f.content, "## Prior context (compacted)\n\nold work");
    assert_eq!(f.priority, 150);
    let g = strategy_summary_fragment(None);
    assert_eq!(g.content, "## Prior context (compacted)\n\n(compaction failed)");
    let b = session_prompt_builder("You are helpful.".into(), Some("<available_skills/>".into()));
    assert_eq!(b.render(), "You are helpful.\n<available_skills/>");
}

#[test]
fn recovery_machine_is_fresh_after_new() {
    let sm = SessionStateMachine::new(4);
    let r: &RecoveryStateMachine = sm.recovery();
    assert_eq!(r.retry_count, 0);
    assert!(!r.overflow_attempted);
    assert_eq!(r.max_retries, 4);
}

#[test]
fn completion_with_deltas_keeps_deltas_in_order() {
    let (text, deltas) = completion_with_deltas(&vec![user("q"), msg("hello world")], vec!["hel".into(), "lo world".into()]);
    assert_eq!(text, "hello world");
    assert_eq!(deltas, vec!["hel".to_string(), "lo world".to_string()]);
}

#[test]
fn reset_session_clears_error_and_history() {
    let mut machine = SessionStateMachine::new(3);
    machine.enter_error("something went wrong".into());
    let mut h = SessionHistory::new("t1".into(), "s1".into());
    h.push(user("hello"));
    reset_session(&mut machine, &mut h, 3);
    assert_eq!(machine.state(), SessionState::Idle);
    assert!(machine.error_reason().is_none());
    assert!(h.messages().is_empty());
    assert!(machine.abort_token().is_cancelled());
}
