use agent_core::harness::compaction::CompactionResult;
use agent_core::harness::tool::{apply_tool_result_mutation, blocked_result, finish_tool_result, tool_input};
use agent_core::hook::mutations::{
    blocks, merge_tool_result_mutation, settles_compaction, CompactDecision, HookDecision, ToolCallMutation,
    ToolResultMutation,
};
use agent_core::types::{AgentToolResult, Content, ToolCall};

fn call() -> ToolCall {
    ToolCall { id: "tc1".into(), name: "bash".into(), arguments: "{\"command\":\"ls\"}".into() }
}

fn details_json(s: &Option<String>) -> serde_json::Value {
    serde_json::from_str(s.as_deref().unwrap()).unwrap()
}

#[test]
fn blocked_result_names_reason() {
    let r = blocked_result(&call(), "no \"rm\" allowed", 3);
    assert_eq!(r.tool_call_id, "tc1");
    assert_eq!(r.tool_name, "bash");
    assert!(r.is_error);
    assert!(r.content.is_empty());
    assert_eq!(r.timestamp, 3);
    let d = details_json(&r.details);
    assert_eq!(d["blocked"], true);
    assert_eq!(d["reason"], "no \"rm\" allowed");
}

#[test]
fn tool_input_prefers_hook_replacement() {
    assert_eq!(tool_input(&call(), ToolCallMutation { input: None }), "{\"command\":\"ls\"}");
    assert_eq!(tool_input(&call(), ToolCallMutation { input: Some("{}".into()) }), "{}");
}

#[test]
fn result_mutation_replaces_set_fields() {
    let mut r = AgentToolResult {
        content: vec![Content::Text { text: "out".into() }],
        details: None,
        is_error: false,
        terminate: false,
    };
    apply_tool_result_mutation(
        &mut r,
        ToolResultMutation { content: None, details: Some("{\"k\":1}".into()), is_error: Some(true), terminate: None },
    );
    assert_eq!(r.content.len(), 1);
    assert_eq!(r.details.as_deref(), Some("{\"k\":1}"));
    assert!(r.is_error);
    assert!(!r.terminate);
}

#[test]
fn finish_embeds_terminate_flag() {
    let r = AgentToolResult { content: vec![], details: None, is_error: false, terminate: true };
    let m = finish_tool_result(&call(), r, 1).unwrap();
    assert_eq!(details_json(&m.details)["_terminate"], true);

    let r = AgentToolResult { content: vec![], details: Some("{\"a\":1}".into()), is_error: false, terminate: true };
    let m = finish_tool_result(&call(), r, 1).unwrap();
    let d = details_json(&m.details);
    assert_eq!(d["_terminate"], true);
    assert_eq!(d["a"], 1);
}

#[test]
fn finish_without_terminate_keeps_details() {
    let r = AgentToolResult { content: vec![], details: None, is_error: true, terminate: false };
    let m = finish_tool_result(&call(), r, 1).unwrap();
    assert_eq!(m.details.as_deref(), Some("{}"));
    assert!(m.is_error);
}

#[test]
fn finish_with_unsettable_details_is_none() {
    let r = AgentToolResult { content: vec![], details: Some("[1,2]".into()), is_error: false, terminate: true };
    assert!(finish_tool_result(&call(), r, 1).is_none());
}

#[test]
fn test_tool_result_mutation_terminate_flag() {
    let mut r = AgentToolResult { content: vec![], details: None, is_error: false, terminate: false };
    apply_tool_result_mutation(
        &mut r,
        ToolResultMutation { content: None, details: None, is_error: None, terminate: Some(true) },
    );
    let m = finish_tool_result(&call(), r, 0).unwrap();
    assert_eq!(details_json(&m.details)["_terminate"], true);
}

#[test]
fn merge_later_hooks_win() {
    let mut acc = ToolResultMutation { content: None, details: Some("a".into()), is_error: Some(false), terminate: None };
    merge_tool_result_mutation(
        &mut acc,
        ToolResultMutation { content: None, details: Some("b".into()), is_error: None, terminate: Some(true) },
    );
    assert_eq!(acc.details.as_deref(), Some("b"));
    assert_eq!(acc.is_error, Some(false));
    assert_eq!(acc.terminate, Some(true));
    assert!(acc.content.is_none());
}

#[test]
fn decisions_that_end_chains() {
    assert!(!blocks(&HookDecision::Continue));
    assert!(blocks(&HookDecision::Block { reason: "r".into() }));
    assert!(!settles_compaction(&CompactDecision::Continue));
    assert!(settles_compaction(&CompactDecision::Block { reason: "r".into() }));
    let result = CompactionResult { summary: "s".into(), first_kept_entry_id: 0, tokens_before: 0, details: None };
    assert!(settles_compaction(&CompactDecision::Replace { result }));
}
