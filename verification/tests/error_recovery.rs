use agent_core::harness::error_recovery::{RecoveryAction, RecoveryStateMachine};
use agent_core::types::{AssistantMessage, StopReason, Usage};

fn make_msg(stop_reason: StopReason, error: Option<&str>) -> AssistantMessage {
    AssistantMessage {
        content: vec![],
        usage: Usage { input_tokens: 0, output_tokens: 0, total_tokens: 0 },
        stop_reason,
        error_message: error.map(|s| s.to_string()),
        timestamp: 0,
    }
}

#[test]
fn test_overflow_first_time() {
    let mut r = RecoveryStateMachine::new(3);
    let action = r.evaluate(&make_msg(StopReason::Error, Some("context length exceeded")));
    assert!(matches!(action, RecoveryAction::RetryAfterCompaction { .. }));
}

#[test]
fn test_overflow_second_time_aborts() {
    let mut r = RecoveryStateMachine::new(3);
    r.evaluate(&make_msg(StopReason::Error, Some("context length exceeded")));
    let action = r.evaluate(&make_msg(StopReason::Error, Some("context length exceeded")));
    assert!(matches!(action, RecoveryAction::Abort { .. }));
}

#[test]
fn test_retryable_backoff() {
    let mut r = RecoveryStateMachine::new(3);
    let action = r.evaluate(&make_msg(StopReason::Error, Some("rate limit")));
    assert!(matches!(action, RecoveryAction::RetryAfterBackoff { delay_ms: 100 }));
}

#[test]
fn test_retryable_exhausted() {
    let mut r = RecoveryStateMachine::new(1);
    r.evaluate(&make_msg(StopReason::Error, Some("overloaded")));
    let action = r.evaluate(&make_msg(StopReason::Error, Some("overloaded")));
    assert!(matches!(action, RecoveryAction::Abort { .. }));
}

#[test]
fn test_normal_continue() {
    let mut r = RecoveryStateMachine::new(3);
    let action = r.evaluate(&make_msg(StopReason::Stop, None));
    assert!(matches!(action, RecoveryAction::Continue));
}

#[test]
fn backoff_doubles_on_consecutive_retries() {
    let mut r = RecoveryStateMachine::new(5);
    let a1 = r.evaluate(&make_msg(StopReason::Error, Some("HTTP 503 Service Unavailable")));
    let a2 = r.evaluate(&make_msg(StopReason::Error, Some("HTTP 503 Service Unavailable")));
    let a3 = r.evaluate(&make_msg(StopReason::Error, Some("HTTP 503 Service Unavailable")));
    assert!(matches!(a1, RecoveryAction::RetryAfterBackoff { delay_ms: 100 }));
    assert!(matches!(a2, RecoveryAction::RetryAfterBackoff { delay_ms: 200 }));
    assert!(matches!(a3, RecoveryAction::RetryAfterBackoff { delay_ms: 400 }));
}

#[test]
fn overflow_wins_over_retryable_text() {
    let mut r = RecoveryStateMachine::new(3);
    let action = r.evaluate(&make_msg(StopReason::Error, Some("Timeout: token limit reached")));
    assert!(matches!(action, RecoveryAction::RetryAfterCompaction { .. }));
}

#[test]
fn exhausted_abort_names_the_reason_and_resets_counter() {
    let mut r = RecoveryStateMachine::new(0);
    let action = r.evaluate(&make_msg(StopReason::Error, Some("fetch failed")));
    match action {
        RecoveryAction::Abort { reason } => assert_eq!(reason, "Max retry attempts exceeded"),
        _ => panic!("expected abort"),
    }
    assert_eq!(r.retry_count, 0);
}

#[test]
fn second_overflow_abort_reason() {
    let mut r = RecoveryStateMachine::new(3);
    r.evaluate_overflow("Context length exceeded");
    match r.evaluate_overflow("context LENGTH exceeded") {
        RecoveryAction::Abort { reason } => {
            assert_eq!(reason, "Context overflow recovery failed after compact-and-retry")
        }
        _ => panic!("expected abort"),
    }
}

#[test]
fn mark_success_and_reset() {
    let mut r = RecoveryStateMachine::new(3);
    r.evaluate(&make_msg(StopReason::Error, Some("429")));
    r.evaluate(&make_msg(StopReason::Error, Some("context length")));
    assert_eq!(r.retry_count, 1);
    r.mark_success();
    assert_eq!(r.retry_count, 0);
    assert!(r.overflow_attempted);
    r.reset();
    assert!(!r.overflow_attempted);
    assert_eq!(r.max_attempts(), 3);
}
