use agent_core::error::AgentError;
use agent_core::harness::session::goal::{
    build_initial_goal_prompt, build_retry_prompt, evaluate_criteria, parse_criterion_result, GoalRun,
};
use agent_core::harness::strategy::{
    CriteriaEvaluation, GoalCriterion, GoalExhaustedAction, GoalOutcome, GoalVerification,
};
use agent_core::types::{AgentMessage, AssistantMessage, Content, StopReason, Usage, UserMessage};

fn criterion(id: &str, description: &str, verification: GoalVerification) -> GoalCriterion {
    GoalCriterion { id: id.into(), description: description.into(), verification }
}

fn assistant(texts: &[&str]) -> AgentMessage {
    AgentMessage::Assistant(AssistantMessage {
        content: texts.iter().map(|t| Content::Text { text: t.to_string() }).collect(),
        usage: Usage { input_tokens: 0, output_tokens: 0, total_tokens: 0 },
        stop_reason: StopReason::Stop,
        error_message: None,
        timestamp: 0,
    })
}

fn user(text: &str) -> AgentMessage {
    AgentMessage::User(UserMessage { content: vec![Content::Text { text: text.into() }], timestamp: 0 })
}

#[test]
fn initial_prompt_lists_criteria_and_markers() {
    let criteria = vec![
        criterion("tests", "all tests pass", GoalVerification::SelfAssessment),
        criterion("docs", "docs updated", GoalVerification::SelfAssessment),
    ];
    let p = build_initial_goal_prompt("fix the bug", &criteria);
    assert_eq!(
        p,
        "## Task\n\nfix the bug\n\n## Acceptance Criteria\nYou must satisfy ALL of the following before responding:\n\n\
1. [tests] all tests pass\n2. [docs] docs updated\n\nAfter completing the task, end your response with a criteria checklist:\n\n\
[CRITERION_RESULT: tests: PASS|FAIL]\n[CRITERION_RESULT: docs: PASS|FAIL]\n"
    );
}

#[test]
fn retry_prompt_marks_results() {
    let criteria = vec![
        criterion("a", "first", GoalVerification::SelfAssessment),
        criterion("b", "second", GoalVerification::SelfAssessment),
    ];
    let eval = CriteriaEvaluation { results: vec![("a".into(), true), ("b".into(), false), ("c".into(), false)] };
    let p = build_retry_prompt("task", &criteria, 1, 3, Some(&eval));
    assert_eq!(
        p,
        "## Acceptance Criteria Check (attempt 2/3)\n\nThe previous response did not meet all criteria:\n\n\
✓ a — first\n✗ b — second\n✗ c — c\n\n## Original Task\n\ntask\n\n\
Please fix the failing criteria and respond with the corrected implementation.\nEnd with [CRITERION_RESULT: ...] as before.\n"
    );
    let q = build_retry_prompt("task", &criteria, 0, 2, None);
    assert!(q.starts_with("## Acceptance Criteria Check (attempt 1/2)\n\nThe previous response did not meet all criteria:\n\n\n## Original Task"));
}

#[test]
fn parse_criterion_markers() {
    let text = "done\n  [CRITERION_RESULT: tests: PASS]  \n[CRITERION_RESULT: docs: FAIL]\n[CRITERION_RESULT: x: MAYBE]";
    assert_eq!(parse_criterion_result(text, "tests"), Some(true));
    assert_eq!(parse_criterion_result(text, "docs"), Some(false));
    assert_eq!(parse_criterion_result(text, "x"), None);
    assert_eq!(parse_criterion_result(text, "missing"), None);
    assert_eq!(parse_criterion_result("[CRITERION_RESULT: a: PASS]]]", "a"), Some(true));
}

#[test]
fn evaluate_uses_last_assistant_text() {
    let criteria = vec![
        criterion("a", "self", GoalVerification::SelfAssessment),
        criterion("b", "contains", GoalVerification::OutputContains { text: "DONE".into() }),
        criterion("c", "command", GoalVerification::Command { command: "true".into() }),
    ];
    let messages = vec![
        assistant(&["[CRITERION_RESULT: a: FAIL]"]),
        user("again"),
        assistant(&["all DO", "NE\n[CRITERION_RESULT: a: PASS]"]),
    ];
    let e = evaluate_criteria(&messages, &criteria);
    assert_eq!(e.results, vec![("a".to_string(), true), ("b".to_string(), true), ("c".to_string(), false)]);
}

#[test]
fn goal_run_passes_on_second_attempt() {
    let criteria = vec![criterion("ok", "say ok", GoalVerification::OutputContains { text: "ok".into() })];
    let mut run = GoalRun::new("task".into(), criteria, 3, GoalExhaustedAction::Abort);
    let first = run.next_prompt().unwrap();
    assert!(first.starts_with("## Task\n\ntask"));
    assert!(run.on_response(vec![assistant(&["nope"])]).is_none());
    let second = run.next_prompt().unwrap();
    assert!(second.starts_with("## Acceptance Criteria Check (attempt 2/3)"));
    assert!(second.contains("✗ ok — say ok"));
    match run.on_response(vec![assistant(&["ok!"])]) {
        Some(GoalOutcome::Passed { messages, attempts }) => {
            assert_eq!(attempts, 2);
            assert_eq!(messages.len(), 1);
        }
        _ => panic!("expected the goal to pass"),
    }
}

#[test]
fn goal_run_exhaustion() {
    let criteria = vec![criterion("ok", "say ok", GoalVerification::SelfAssessment)];
    let mut run = GoalRun::new("task".into(), criteria, 1, GoalExhaustedAction::Abort);
    assert!(run.on_response(vec![assistant(&["no"])]).is_none());
    assert!(run.next_prompt().is_none());
    match run.on_exhausted() {
        Err(AgentError::GoalNotMet { criteria, attempts }) => {
            assert_eq!(criteria, vec!["ok".to_string()]);
            assert_eq!(attempts, 1);
        }
        _ => panic!("expected GoalNotMet"),
    }
    match run.exhausted_outcome(vec![user("x")]) {
        GoalOutcome::Exhausted { messages, attempts } => {
            assert_eq!(messages.len(), 1);
            assert_eq!(attempts, 1);
        }
        _ => panic!("expected exhaustion"),
    }
    let last = GoalRun::new("task".into(), vec![], 1, GoalExhaustedAction::ReturnLast);
    assert_eq!(last.on_exhausted().unwrap(), "task");
}
