use agent_core::harness::strategy::{
    ContextStrategy, CriteriaEvaluation, GoalOutcome, RhythmStrategy, SessionStrategy,
    TerminationStrategy, DEFAULT_LOOP_INTERVAL_MS,
};
use std::time::Duration;

#[test]
fn test_default_strategy_is_once() {
    let s = SessionStrategy::default();
    assert!(matches!(s.termination, TerminationStrategy::Once));
    assert!(matches!(s.rhythm, RhythmStrategy::Once));
    assert!(matches!(s.context, ContextStrategy::Accumulate));
}

#[test]
fn test_criteria_evaluation_all_passed() {
    let eval = CriteriaEvaluation {
        results: vec![("a".into(), true), ("b".into(), true)],
    };
    assert!(eval.all_passed());
    assert!(eval.failures().is_empty());
}

#[test]
fn test_criteria_evaluation_some_failed() {
    let eval = CriteriaEvaluation {
        results: vec![("a".into(), true), ("b".into(), false), ("c".into(), false)],
    };
    assert!(!eval.all_passed());
    assert_eq!(eval.failures(), vec!["b", "c"]);
}

#[test]
fn test_goal_outcome_into_messages() {
    let msgs = vec![];
    let outcome = GoalOutcome::Passed { messages: msgs, attempts: 1 };
    assert_eq!(outcome.into_messages().len(), 0);
}

#[test]
fn test_default_loop_interval() {
    assert_eq!(Duration::from_millis(DEFAULT_LOOP_INTERVAL_MS), Duration::from_secs(600));
}

#[test]
fn test_exhausted_into_messages() {
    let msgs = vec![];
    let outcome = GoalOutcome::Exhausted { messages: msgs, attempts: 5 };
    assert_eq!(outcome.into_messages().len(), 0);
}
