use agent_core::error::AgentError;
use agent_core::harness::agent_loop::{
    cancelled_tool_result, failed_tool_result, find_tool, missing_tool_result, resolve_orphan_tool_calls,
    resolve_orphan_tool_calls_at, response_error, sequential_execution, stop_reason_text, terminate_flag,
    tool_calls_of, turn_context, turn_result_after_tools, LlmRetry, LoopState, ResponseAccumulator,
    RetryDecision, RunAction, StreamEvent, TurnResult, after_response, text_delta_of, AfterResponse, breaker_on_open_error, breaker_on_response, BreakerUpdate,
};
use agent_core::types::{
    AgentMessage, AssistantMessage, Content, StopReason, ToolCall, ToolExecutionMode, ToolInfo,
    ToolResultMessage, Usage, UserMessage,
};

fn usage0() -> Usage {
    Usage { input_tokens: 0, output_tokens: 0, total_tokens: 0 }
}

fn call(id: &str, name: &str) -> ToolCall {
    ToolCall { id: id.into(), name: name.into(), arguments: "{}".into() }
}

fn assistant(content: Vec<Content>, stop_reason: StopReason, error: Option<&str>) -> AssistantMessage {
    AssistantMessage {
        content,
        usage: usage0(),
        stop_reason,
        error_message: error.map(|e| e.to_string()),
        timestamp: 0,
    }
}

fn result(id: &str, name: &str, details: Option<&str>) -> ToolResultMessage {
    ToolResultMessage {
        tool_call_id: id.into(),
        tool_name: name.into(),
        content: vec![],
        details: details.map(|d| d.to_string()),
        is_error: false,
        timestamp: 0,
    }
}

fn user(text: &str) -> AgentMessage {
    AgentMessage::User(UserMessage { content: vec![Content::Text { text: text.into() }], timestamp: 0 })
}

fn tool(name: &str, mode: ToolExecutionMode) -> ToolInfo {
    ToolInfo { name: name.into(), description: String::new(), parameters: "{}".into(), execution_mode: mode }
}

#[test]
fn test_resolve_orphan_tool_calls() {
    let mut messages = vec![
        AgentMessage::Assistant(assistant(
            vec![Content::ToolCall(call("call_1", "tool_a"))],
            StopReason::ToolUse,
            None,
        )),
        AgentMessage::ToolResult(result("call_2", "tool_b", None)),
    ];

    resolve_orphan_tool_calls(&mut messages);

    assert_eq!(messages.len(), 3);
    match &messages[1] {
        AgentMessage::ToolResult(tr) => {
            assert_eq!(tr.tool_call_id, "call_1");
            assert!(tr.is_error);
            let details: serde_json::Value = serde_json::from_str(tr.details.as_ref().unwrap()).unwrap();
            assert!(details["_orphan"].as_bool().unwrap());
        }
        _ => panic!("expected orphan tool result"),
    }
}

#[test]
fn resolve_orphans_answered_calls_untouched() {
    let mut messages = vec![
        AgentMessage::Assistant(assistant(
            vec![Content::ToolCall(call("a", "x")), Content::ToolCall(call("b", "y"))],
            StopReason::ToolUse,
            None,
        )),
        AgentMessage::ToolResult(result("a", "x", None)),
    ];
    resolve_orphan_tool_calls_at(&mut messages, 77);
    assert_eq!(messages.len(), 3);
    match &messages[1] {
        AgentMessage::ToolResult(tr) => {
            assert_eq!(tr.tool_call_id, "b");
            assert_eq!(tr.tool_name, "y");
            assert_eq!(tr.timestamp, 77);
            assert_eq!(
                tr.details.as_deref(),
                Some("{\"_orphan\":true,\"message\":\"tool call was not executed (context truncated or restored)\"}")
            );
        }
        _ => panic!("expected the placeholder after the assistant message"),
    }
    match &messages[2] {
        AgentMessage::ToolResult(tr) => assert_eq!(tr.tool_call_id, "a"),
        _ => panic!("expected the unchanged result"),
    }
}

#[test]
fn resolve_orphans_noop_when_all_answered() {
    let mut messages = vec![
        user("hi"),
        AgentMessage::Assistant(assistant(vec![Content::ToolCall(call("a", "x"))], StopReason::ToolUse, None)),
        AgentMessage::ToolResult(result("a", "x", None)),
    ];
    resolve_orphan_tool_calls_at(&mut messages, 1);
    assert_eq!(messages.len(), 3);
}

#[test]
fn turn_context_resolves_replacement() {
    let messages = vec![user("hi")];
    let replacement = vec![AgentMessage::Assistant(assistant(
        vec![Content::ToolCall(call("z", "t"))],
        StopReason::ToolUse,
        None,
    ))];
    let ctx = turn_context(&messages, Some(replacement), 3);
    assert_eq!(ctx.len(), 2);
    let plain = turn_context(&messages, None, 3);
    assert_eq!(plain.len(), 1);
}

#[test]
fn stop_reason_names() {
    assert_eq!(stop_reason_text(StopReason::Stop), "Stop");
    assert_eq!(stop_reason_text(StopReason::Length), "Length");
    assert_eq!(stop_reason_text(StopReason::ToolUse), "ToolUse");
    assert_eq!(stop_reason_text(StopReason::Error), "Error");
    assert_eq!(stop_reason_text(StopReason::Aborted), "Aborted");
}

#[test]
fn response_error_for_aborted_and_length() {
    match response_error(&assistant(vec![], StopReason::Aborted, None)) {
        Some(AgentError::LlmResponseError(m)) => assert_eq!(m, "LLM returned stop reason: Aborted"),
        other => panic!("unexpected {:?}", other),
    }
    match response_error(&assistant(vec![], StopReason::Length, None)) {
        Some(AgentError::LlmResponseError(m)) => assert_eq!(m, "LLM returned stop reason: Length"),
        other => panic!("unexpected {:?}", other),
    }
}

#[test]
fn response_error_uses_message_and_detects_overflow() {
    match response_error(&assistant(vec![], StopReason::Error, Some("boom"))) {
        Some(AgentError::LlmResponseError(m)) => assert_eq!(m, "boom"),
        other => panic!("unexpected {:?}", other),
    }
    match response_error(&assistant(vec![], StopReason::Error, Some("Context length exceeded"))) {
        Some(AgentError::ContextOverflow(m)) => assert_eq!(m, "Context length exceeded"),
        other => panic!("unexpected {:?}", other),
    }
    assert!(response_error(&assistant(vec![], StopReason::Stop, None)).is_none());
    assert!(response_error(&assistant(vec![], StopReason::ToolUse, None)).is_none());
}

#[test]
fn tool_calls_are_extracted_in_order() {
    let content = vec![
        Content::Text { text: "t".into() },
        Content::ToolCall(call("1", "a")),
        Content::Thinking { thinking: "h".into() },
        Content::ToolCall(call("2", "b")),
    ];
    let calls = tool_calls_of(&content);
    assert_eq!(calls.len(), 2);
    assert_eq!(calls[0].id, "1");
    assert_eq!(calls[1].name, "b");
}

#[test]
fn terminate_flag_reads_details() {
    assert!(terminate_flag(&result("a", "x", Some("{\"_terminate\":true}"))));
    assert!(!terminate_flag(&result("a", "x", Some("{\"_terminate\":false}"))));
    assert!(!terminate_flag(&result("a", "x", Some("{}"))));
    assert!(!terminate_flag(&result("a", "x", None)));
}

#[test]
fn all_tools_terminate_stops_turn() {
    let all = vec![
        result("a", "x", Some("{\"_terminate\":true}")),
        result("b", "y", Some("{\"_terminate\":true}")),
    ];
    assert!(matches!(turn_result_after_tools(StopReason::ToolUse, &all), TurnResult::Stop));
    let partial = vec![result("a", "x", Some("{\"_terminate\":true}")), result("b", "y", None)];
    assert!(matches!(turn_result_after_tools(StopReason::ToolUse, &partial), TurnResult::ToolUse));
    assert!(matches!(turn_result_after_tools(StopReason::Stop, &partial), TurnResult::Stop));
    assert!(matches!(turn_result_after_tools(StopReason::ToolUse, &vec![]), TurnResult::ToolUse));
}

#[test]
fn loop_state_run_extends_conversation() {
    let mut st = LoopState::new(vec![user("start")], None);
    assert!(matches!(st.start(), RunAction::DrainSteer));
    assert!(matches!(st.on_steer(vec![user("steer")]), RunAction::RunTurn));
    assert_eq!(st.begin_turn(), 1);
    st.record_response(assistant(vec![Content::ToolCall(call("a", "x"))], StopReason::ToolUse, None));
    st.record_tool_results(&vec![result("a", "x", None)]);
    assert!(matches!(st.on_turn_result(TurnResult::ToolUse), RunAction::RunTurn));
    assert_eq!(st.begin_turn(), 2);
    st.record_response(assistant(vec![Content::Text { text: "done".into() }], StopReason::Stop, None));
    assert!(matches!(st.on_turn_result(TurnResult::Stop), RunAction::DrainFollowUps));
    assert!(matches!(st.on_follow_ups(vec![]), RunAction::Finish));
    assert_eq!(st.messages().len(), 5);
    let added = st.into_new_messages();
    assert_eq!(added.len(), 4);
}

#[test]
fn loop_state_replacement_and_failures() {
    let st = LoopState::new(vec![user("a")], Some(vec![user("b"), user("c")]));
    assert_eq!(st.messages().len(), 2);
    assert!(matches!(st.on_cancelled(), RunAction::Fail(AgentError::Cancelled)));
    assert!(matches!(
        st.on_turn_result(TurnResult::Error(AgentError::LlmResponseError("x".into()))),
        RunAction::Fail(AgentError::LlmResponseError(_))
    ));
    let mut st2 = LoopState::new(vec![], None);
    assert!(matches!(st2.on_follow_ups(vec![user("more")]), RunAction::DrainSteer));
    assert_eq!(st2.into_new_messages().len(), 1);
}

#[test]
fn llm_retry_doubles_delay_until_exhausted() {
    let mut r = LlmRetry::new(3);
    match r.on_open_error(true) {
        RetryDecision::Retry { attempt, max_attempts, delay_ms } => {
            assert_eq!(max_attempts, 3);
            assert_eq!(attempt, 1);
            assert_eq!(delay_ms, 100);
        }
        _ => panic!("expected retry"),
    }
    match r.on_response(&assistant(vec![], StopReason::Error, Some("rate limit hit"))) {
        RetryDecision::Retry { attempt, max_attempts, delay_ms } => {
            assert_eq!(max_attempts, 3);
            assert_eq!(attempt, 2);
            assert_eq!(delay_ms, 200);
        }
        _ => panic!("expected retry"),
    }
    match r.on_open_error(true) {
        RetryDecision::Retry { attempt, max_attempts, delay_ms } => {
            assert_eq!(max_attempts, 3);
            assert_eq!(attempt, 3);
            assert_eq!(delay_ms, 400);
        }
        _ => panic!("expected retry"),
    }
    assert!(matches!(r.on_open_error(true), RetryDecision::GiveUp));
    assert_eq!(r.retry_count, 3);
}

#[test]
fn llm_retry_gives_up_on_permanent_failures() {
    let mut r = LlmRetry::new(3);
    assert!(matches!(r.on_open_error(false), RetryDecision::GiveUp));
    assert!(matches!(r.on_response(&assistant(vec![], StopReason::Error, Some("bad request"))), RetryDecision::GiveUp));
    assert!(matches!(r.on_response(&assistant(vec![], StopReason::Stop, None)), RetryDecision::GiveUp));
    assert_eq!(r.retry_count, 0);
}

#[test]
fn accumulator_gathers_deltas() {
    let mut acc = ResponseAccumulator::new();
    assert!(acc.on_event(StreamEvent::TextDelta { content_index: 0, delta: "Hel".into() }));
    assert!(acc.on_event(StreamEvent::TextDelta { content_index: 0, delta: "lo".into() }));
    assert!(acc.on_event(StreamEvent::TextEnd { content_index: 0, text: "ignored".into() }));
    assert!(acc.on_event(StreamEvent::TextEnd { content_index: 1, text: "reported".into() }));
    assert!(acc.on_event(StreamEvent::ToolCallEnd { tool_call: call("c", "t") }));
    assert!(acc.on_event(StreamEvent::Other));
    assert!(acc.on_event(StreamEvent::Done {
        reason: StopReason::ToolUse,
        content: vec![],
        usage: Usage { input_tokens: 1, output_tokens: 2, total_tokens: 3 },
    }));
    let m = acc.finish(9);
    assert_eq!(m.content.len(), 3);
    match &m.content[0] {
        Content::Text { text } => assert_eq!(text, "Hello"),
        _ => panic!("expected text"),
    }
    match &m.content[1] {
        Content::Text { text } => assert_eq!(text, "reported"),
        _ => panic!("expected text"),
    }
    assert!(matches!(m.stop_reason, StopReason::ToolUse));
    assert_eq!(m.usage.total_tokens, 3);
    assert_eq!(m.timestamp, 9);
}

#[test]
fn accumulator_stops_on_error() {
    let mut acc = ResponseAccumulator::new();
    assert!(!acc.on_event(StreamEvent::Error { stop_reason: StopReason::Error, error_message: Some("boom".into()) }));
    let m = acc.finish(0);
    assert!(matches!(m.stop_reason, StopReason::Error));
    assert_eq!(m.error_message.as_deref(), Some("boom"));
}

#[test]
fn accumulator_done_content_replaces() {
    let mut acc = ResponseAccumulator::new();
    acc.on_event(StreamEvent::TextEnd { content_index: 0, text: "a".into() });
    acc.on_event(StreamEvent::Done {
        reason: StopReason::Stop,
        content: vec![Content::Text { text: "final".into() }],
        usage: usage0(),
    });
    let m = acc.finish(0);
    assert_eq!(m.content.len(), 1);
    match &m.content[0] {
        Content::Text { text } => assert_eq!(text, "final"),
        _ => panic!("expected text"),
    }
}

#[test]
fn find_tool_first_match() {
    let tools = vec![
        tool("a", ToolExecutionMode::Parallel),
        tool("b", ToolExecutionMode::Sequential),
        tool("b", ToolExecutionMode::Parallel),
    ];
    assert_eq!(find_tool(&tools, "b"), Some(1));
    assert_eq!(find_tool(&tools, "c"), None);
}

#[test]
fn sequential_when_any_call_is_sequential() {
    let tools = vec![tool("a", ToolExecutionMode::Parallel), tool("b", ToolExecutionMode::Sequential)];
    assert!(!sequential_execution(&vec![call("1", "a"), call("2", "missing")], &tools));
    assert!(sequential_execution(&vec![call("1", "a"), call("2", "b")], &tools));
    assert!(!sequential_execution(&vec![], &tools));
}

#[test]
fn placeholder_results() {
    let tc = call("id1", "tool");
    let m = missing_tool_result(&tc, 5);
    assert_eq!(m.tool_call_id, "id1");
    assert!(m.is_error);
    assert_eq!(m.details.as_deref(), Some("{\"error\":\"tool not found\"}"));
    let c = cancelled_tool_result(&tc, 5);
    assert_eq!(c.details.as_deref(), Some("{\"_cancelled\":true}"));
    let f = failed_tool_result(&tc, &AgentError::ToolExecutionFailed("bad \"x\"".into()), 5);
    let v: serde_json::Value = serde_json::from_str(f.details.as_deref().unwrap()).unwrap();
    assert_eq!(v["error"].as_str().unwrap(), "tool execution failed: bad \"x\"");
}

#[test]
fn every_call_is_answered_after_resolution() {
    let mut messages = vec![
        AgentMessage::Assistant(assistant(
            vec![Content::ToolCall(call("a", "x")), Content::ToolCall(call("b", "y"))],
            StopReason::ToolUse,
            None,
        )),
        AgentMessage::ToolResult(result("a", "x", None)),
        user("next"),
        AgentMessage::Assistant(assistant(vec![Content::ToolCall(call("c", "z"))], StopReason::ToolUse, None)),
    ];
    resolve_orphan_tool_calls_at(&mut messages, 2);
    let answered: Vec<String> = messages
        .iter()
        .filter_map(|m| match m {
            AgentMessage::ToolResult(t) => Some(t.tool_call_id.clone()),
            _ => None,
        })
        .collect();
    for id in ["a", "b", "c"] {
        assert!(answered.iter().any(|x| x == id), "call {} unanswered", id);
    }
    assert_eq!(messages.len(), 6);
    assert!(matches!(&messages[1], AgentMessage::ToolResult(t) if t.tool_call_id == "b"));
    assert!(matches!(&messages[5], AgentMessage::ToolResult(t) if t.tool_call_id == "c"));
}

#[test]
fn resolve_orphans_second_pass_changes_nothing() {
    let mut messages = vec![
        AgentMessage::Assistant(assistant(
            vec![Content::ToolCall(call("a", "x")), Content::ToolCall(call("b", "y"))],
            StopReason::ToolUse,
            None,
        )),
        user("next"),
    ];
    resolve_orphan_tool_calls_at(&mut messages, 5);
    assert_eq!(messages.len(), 4);
    let ids: Vec<String> = messages
        .iter()
        .filter_map(|m| match m {
            AgentMessage::ToolResult(tr) => Some(tr.tool_call_id.clone()),
            _ => None,
        })
        .collect();
    assert_eq!(ids, vec!["b".to_string(), "a".to_string()]);
    let before = format!("{:?}", messages);
    resolve_orphan_tool_calls_at(&mut messages, 9);
    assert_eq!(format!("{:?}", messages), before);
}

#[test]
fn llm_retry_sequence_reports_limit_and_delays() {
    let mut r = LlmRetry::new(4);
    let mut delays = Vec::new();
    for n in 1..=4u32 {
        match r.on_open_error(true) {
            RetryDecision::Retry { attempt, max_attempts, delay_ms } => {
                assert_eq!(attempt, n);
                assert_eq!(max_attempts, 4);
                delays.push(delay_ms);
            }
            _ => panic!("expected retry"),
        }
    }
    assert_eq!(delays, vec![100, 200, 400, 800]);
    assert!(matches!(r.on_open_error(true), RetryDecision::GiveUp));
}

#[test]
fn after_response_orders_error_stop_and_tools() {
    let err = assistant(vec![Content::ToolCall(call("a", "x"))], StopReason::Error, Some("boom"));
    match after_response(&err) {
        AfterResponse::Fail(AgentError::LlmResponseError(t)) => assert_eq!(t, "boom"),
        _ => panic!("expected failure"),
    }
    let stop = assistant(vec![Content::Text { text: "hi".into() }], StopReason::Stop, None);
    assert!(matches!(after_response(&stop), AfterResponse::Stop));
    let tools = assistant(
        vec![Content::Text { text: "t".into() }, Content::ToolCall(call("a", "x")), Content::ToolCall(call("b", "y"))],
        StopReason::ToolUse,
        None,
    );
    match after_response(&tools) {
        AfterResponse::RunTools(calls) => {
            assert_eq!(calls.len(), 2);
            assert_eq!(calls[0].id, "a");
            assert_eq!(calls[1].id, "b");
        }
        _ => panic!("expected tool calls"),
    }
}

#[test]
fn text_delta_of_only_reads_deltas() {
    let d = StreamEvent::TextDelta { content_index: 0, delta: "abc".into() };
    assert_eq!(text_delta_of(&d).as_deref(), Some("abc"));
    let e = StreamEvent::TextEnd { content_index: 0, text: "abc".into() };
    assert!(text_delta_of(&e).is_none());
    assert!(text_delta_of(&StreamEvent::Other).is_none());
}

#[test]
fn breaker_bookkeeping_follows_decisions() {
    assert_eq!(breaker_on_open_error(true), BreakerUpdate { failure: true, success: false });
    assert_eq!(breaker_on_open_error(false), BreakerUpdate { failure: false, success: false });
    let transient = assistant(vec![], StopReason::Error, Some("Rate limit hit"));
    let mut r = LlmRetry::new(1);
    let d = r.on_response(&transient);
    assert_eq!(breaker_on_response(&transient, &d), BreakerUpdate { failure: true, success: false });
    let d2 = r.on_response(&transient);
    assert_eq!(breaker_on_response(&transient, &d2), BreakerUpdate { failure: true, success: true });
    let ok = assistant(vec![], StopReason::Stop, None);
    let d3 = LlmRetry::new(1).on_response(&ok);
    assert_eq!(breaker_on_response(&ok, &d3), BreakerUpdate { failure: false, success: true });
}
