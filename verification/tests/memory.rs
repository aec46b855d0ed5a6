use agent_core::memory::extractor::build_query_string;
use agent_core::memory::formatter::{extract_tool_summaries, format_turn_content};
use agent_core::memory::hook::{compaction_memory_text, memory_context, recalled_context};
use agent_core::memory::in_memory::InMemoryStore;
use agent_core::json::JsonValue;
use agent_core::memory::emerald::{
    endpoint_url, recall_body, recall_results, recall_skipped, remember_body, remember_metadata, trim_base_url,
};
use agent_core::memory::MemoryError;
use agent_core::types::{
    AgentMessage, AssistantMessage, Content, StopReason, ToolCall, ToolResultMessage, Usage,
    UserMessage,
};

fn user_msg(text: &str) -> AgentMessage {
    AgentMessage::User(UserMessage { content: vec![Content::Text { text: text.to_string() }], timestamp: 0 })
}

fn assistant_with(content: Vec<Content>, stop_reason: StopReason) -> AgentMessage {
    AgentMessage::Assistant(AssistantMessage {
        content,
        usage: Usage { input_tokens: 0, output_tokens: 0, total_tokens: 0 },
        stop_reason,
        error_message: None,
        timestamp: 0,
    })
}

fn assistant_text(text: &str) -> AgentMessage {
    assistant_with(vec![Content::Text { text: text.to_string() }], StopReason::Stop)
}

fn assistant_tool_call(name: &str, args: &str) -> AgentMessage {
    assistant_with(
        vec![Content::ToolCall(ToolCall { id: "tc1".into(), name: name.to_string(), arguments: args.to_string() })],
        StopReason::ToolUse,
    )
}

fn tool_result(name: &str, text: &str, is_error: bool) -> AgentMessage {
    AgentMessage::ToolResult(ToolResultMessage {
        tool_call_id: "tc1".into(),
        tool_name: name.to_string(),
        content: vec![Content::Text { text: text.to_string() }],
        details: None,
        is_error,
        timestamp: 0,
    })
}

#[test]
fn test_build_query_empty() {
    let query = build_query_string(&vec![]);
    assert!(query.is_empty());
}

#[test]
fn test_build_query_from_user_messages() {
    let messages = vec![user_msg("What is Rust?")];
    let query = build_query_string(&messages);
    assert!(query.contains("What is Rust?"));
}

#[test]
fn build_query_takes_last_three_user_messages_newest_first() {
    let messages = vec![
        user_msg("zeroth"),
        user_msg("first"),
        user_msg("second"),
        assistant_text("reply"),
        user_msg("third"),
    ];
    assert_eq!(build_query_string(&messages), "third\nsecond\nfirst");
}

#[test]
fn build_query_skips_trailing_other_messages() {
    let messages = vec![
        user_msg("a"),
        user_msg("b"),
        assistant_text("x"),
        assistant_text("z"),
    ];
    assert_eq!(build_query_string(&messages), "b\na");
}

#[test]
fn build_query_joins_text_blocks_with_spaces() {
    let messages = vec![AgentMessage::User(UserMessage {
        content: vec![
            Content::Text { text: "a".into() },
            Content::Image { mime_type: "image/png".into(), data: "x".into() },
            Content::Text { text: "b".into() },
        ],
        timestamp: 0,
    })];
    assert_eq!(build_query_string(&messages), "a b");
}

#[test]
fn test_format_simple_turn() {
    let messages = vec![user_msg("hello"), assistant_text("hi there")];
    let output = format_turn_content(1, &messages);
    assert!(output.contains("## Turn 1"));
    assert!(output.contains("**User**: hello"));
    assert!(output.contains("**Assistant**: hi there"));
}

#[test]
fn format_simple_turn_exact() {
    let messages = vec![user_msg("hello"), assistant_text("hi there")];
    assert_eq!(
        format_turn_content(12, &messages),
        "## Turn 12\n\n**User**: hello\n\n**Assistant**: hi there\n\n"
    );
}

#[test]
fn test_format_turn_with_tool_calls() {
    let messages = vec![
        user_msg("read src/main.rs"),
        assistant_tool_call("read_file", r#"{"path":"src/main.rs"}"#),
        tool_result("read_file", "fn main() { println!(\"hello\"); }", false),
        assistant_text("I found the main function."),
    ];
    let output = format_turn_content(2, &messages);
    assert!(output.contains("## Turn 2"));
    assert!(output.contains("**ToolCall[read_file]**"));
    assert!(output.contains("**ToolResult[read_file]**"));
    assert!(output.contains("(成功"));
}

#[test]
fn test_format_turn_tool_error() {
    let messages = vec![
        user_msg("delete /etc/passwd"),
        assistant_tool_call("delete_file", r#"{"path":"/etc/passwd"}"#),
        tool_result("delete_file", "Permission denied", true),
    ];
    let output = format_turn_content(3, &messages);
    assert!(output.contains("(失败"));
    assert!(output.contains("**ToolResult[delete_file]**: (失败, 17 字符)\nPermission denied\n\n"));
}

#[test]
fn format_long_tool_result_is_cut() {
    let long = "x".repeat(600);
    let messages = vec![tool_result("bash", &long, false)];
    let output = format_turn_content(0, &messages);
    let expected = format!(
        "## Turn 0\n\n**ToolResult[bash]**: (成功, 600 字符)\n{}...(截断, 共 600 字符)\n\n",
        "x".repeat(500)
    );
    assert_eq!(output, expected);
}

#[test]
fn test_format_empty_turn() {
    let output = format_turn_content(0, &vec![]);
    assert!(output.contains("## Turn 0"));
}

#[test]
fn test_extract_tool_summaries() {
    let messages = vec![
        user_msg("run test"),
        assistant_tool_call("bash", r#"{"command":"cargo test"}"#),
        tool_result("bash", "test result: ok. 5 passed", false),
    ];
    let summaries = extract_tool_summaries(&messages);
    assert_eq!(summaries.len(), 1);
    assert_eq!(summaries[0].name, "bash");
    assert!(!summaries[0].is_error);
    assert!(summaries[0].result_len > 0);
}

#[test]
fn extract_tool_summaries_pairs_calls_in_order() {
    let messages = vec![
        assistant_with(
            vec![
                Content::ToolCall(ToolCall { id: "a".into(), name: "first".into(), arguments: "{}".into() }),
                Content::ToolCall(ToolCall { id: "b".into(), name: "second".into(), arguments: "{}".into() }),
            ],
            StopReason::ToolUse,
        ),
        tool_result("r1", "abc", false),
        tool_result("r2", "de", true),
        tool_result("r3", "", false),
    ];
    let s = extract_tool_summaries(&messages);
    assert_eq!(s.len(), 3);
    assert_eq!(s[0].name, "first");
    assert_eq!(s[0].result_len, 3);
    assert_eq!(s[1].name, "second");
    assert!(s[1].is_error);
    assert_eq!(s[1].result_len, 2);
    assert_eq!(s[2].name, "r3");
    assert_eq!(s[2].result_len, 0);
}

#[test]
fn memory_context_carries_identity() {
    let c = memory_context("tenant", "session", "gpt-4", 42);
    assert_eq!(c.tenant_id, "tenant");
    assert_eq!(c.session_id, "session");
    assert!(c.user_id.is_none());
    assert_eq!(c.model, "gpt-4");
    assert_eq!(c.session_started_at, 42);
}

#[test]
fn recalled_context_without_facts_changes_nothing() {
    let m = recalled_context(&vec![user_msg("hi")], &vec![], 5);
    assert!(m.messages.is_none());
}

#[test]
fn recalled_context_prepends_memory_message() {
    let facts = vec!["likes tea".to_string(), "lives in Paris".to_string()];
    let m = recalled_context(&vec![user_msg("hi")], &facts, 5);
    let msgs = m.messages.unwrap();
    assert_eq!(msgs.len(), 2);
    match &msgs[0] {
        AgentMessage::User(u) => {
            assert_eq!(u.timestamp, 5);
            match &u.content[0] {
                Content::Text { text } => assert_eq!(text, "[Memory]\nlikes tea\n---\nlives in Paris"),
                _ => panic!("expected text"),
            }
        }
        _ => panic!("expected a user message"),
    }
    assert!(matches!(&msgs[1], AgentMessage::User(_)));
}

#[test]
fn compaction_memory_text_has_heading() {
    assert_eq!(compaction_memory_text("sum"), "[Session Compaction Summary]\nsum");
}

#[test]
fn memory_error_text() {
    assert_eq!(MemoryError::StoreError("down".into()).to_string(), "memory store error: down");
}

fn ctx(tenant: &str, session: &str) -> agent_core::memory::MemoryContext {
    memory_context(tenant, session, "gpt-4", 0)
}

#[test]
fn test_remember_and_recall() {
    let mut store = InMemoryStore::new();
    let c = ctx("t1", "s1");
    store.remember(&c, "User likes TypeScript", "{\"turn\":1}").unwrap();
    let results = store.recall(&c, "TypeScript").unwrap();
    assert_eq!(results.len(), 1);
    assert!(results[0].contains("TypeScript"));
}

#[test]
fn test_forget_session() {
    let mut store = InMemoryStore::new();
    let c = ctx("t1", "s1");
    store.remember(&c, "test", "{}").unwrap();
    store.forget_session(&c).unwrap();
    assert!(store.recall(&c, "test").unwrap().is_empty());
}

#[test]
fn test_tenant_isolation() {
    let mut store = InMemoryStore::new();
    let a = ctx("ta", "s1");
    let b = ctx("tb", "s1");
    store.remember(&a, "secret-a", "{}").unwrap();
    store.remember(&b, "secret-b", "{}").unwrap();
    assert_eq!(store.recall(&a, "secret").unwrap(), vec!["secret-a".to_string()]);
    assert_eq!(store.recall(&b, "secret").unwrap(), vec!["secret-b".to_string()]);
}

#[test]
fn recall_returns_at_most_five_in_order() {
    let mut store = InMemoryStore::new();
    let c = ctx("t", "s");
    for i in 0..7 {
        store.remember(&c, &format!("note {}", i), "{}").unwrap();
    }
    store.remember(&c, "other", "{}").unwrap();
    let r = store.recall(&c, "note").unwrap();
    assert_eq!(r, vec!["note 0", "note 1", "note 2", "note 3", "note 4"]);
    assert_eq!(store.recall(&c, "").unwrap().len(), 5);
    assert!(store.recall(&c, "missing").unwrap().is_empty());
}

#[test]
fn recall_prefix_covers_longer_session_ids() {
    let mut store = InMemoryStore::new();
    store.remember(&ctx("t1", "s10"), "from s10", "{}").unwrap();
    store.remember(&ctx("t1", "s1"), "from s1", "{}").unwrap();
    assert_eq!(store.recall(&ctx("t1", "s1"), "from").unwrap(), vec!["from s10", "from s1"]);
    store.forget_session(&ctx("t1", "s1")).unwrap();
    assert_eq!(store.recall(&ctx("t1", "s1"), "from").unwrap(), vec!["from s10"]);
}

fn jstr(s: &str) -> JsonValue {
    JsonValue::String(s.to_string())
}

fn jobj(members: Vec<(&str, JsonValue)>) -> JsonValue {
    JsonValue::Object(members.into_iter().map(|(k, v)| (k.to_string(), v)).collect())
}

fn member<'a>(v: &'a JsonValue, key: &str) -> Option<&'a JsonValue> {
    match v {
        JsonValue::Object(o) => o.iter().find(|(k, _)| k == key).map(|(_, v)| v),
        _ => None,
    }
}

fn text_of(v: Option<&JsonValue>) -> Option<String> {
    match v {
        Some(JsonValue::String(s)) => Some(s.clone()),
        _ => None,
    }
}

#[test]
fn emerald_urls() {
    assert_eq!(trim_base_url("http://localhost:8000//"), "http://localhost:8000");
    assert_eq!(trim_base_url("http://localhost:8000"), "http://localhost:8000");
    assert_eq!(trim_base_url("///"), "");
    assert_eq!(endpoint_url("http://h", "/v1/search"), "http://h/v1/search");
}

#[test]
fn emerald_blank_queries_are_skipped() {
    assert!(recall_skipped(""));
    assert!(recall_skipped(" \t\n"));
    assert!(!recall_skipped(" a "));
}

#[test]
fn emerald_metadata_gets_session_and_model() {
    let c = ctx("tenant_1", "sess_1");
    let m = remember_metadata(&c, jobj(vec![("turn", JsonValue::Number("1".into())), ("model", jstr("old"))]));
    assert_eq!(text_of(member(&m, "session_id")).as_deref(), Some("sess_1"));
    assert_eq!(text_of(member(&m, "model")).as_deref(), Some("gpt-4"));
    assert!(matches!(member(&m, "turn"), Some(JsonValue::Number(n)) if n == "1"));
    let plain = remember_metadata(&c, JsonValue::Null);
    assert!(matches!(plain, JsonValue::Null));
}

#[test]
fn emerald_request_bodies() {
    let c = ctx("tenant_1", "sess_1");
    let body = remember_body(&c, "turn text", jobj(vec![]));
    match &body {
        JsonValue::Object(o) => {
            let keys: Vec<&str> = o.iter().map(|(k, _)| k.as_str()).collect();
            assert_eq!(keys, vec!["content", "entity_id", "content_type", "metadata"]);
        }
        _ => panic!("expected an object"),
    }
    assert_eq!(text_of(member(&body, "content")).as_deref(), Some("turn text"));
    assert_eq!(text_of(member(&body, "entity_id")).as_deref(), Some("tenant_1"));
    assert_eq!(text_of(member(&body, "content_type")).as_deref(), Some("conversation"));
    let meta = member(&body, "metadata").unwrap();
    assert_eq!(text_of(member(meta, "session_id")).as_deref(), Some("sess_1"));

    let search = recall_body(&c, "rust");
    assert_eq!(text_of(member(&search, "q")).as_deref(), Some("rust"));
    assert_eq!(text_of(member(&search, "entity_id")).as_deref(), Some("tenant_1"));
    assert_eq!(text_of(member(&search, "search_mode")).as_deref(), Some("hybrid"));
    assert!(matches!(member(&search, "top_k"), Some(JsonValue::Number(n)) if n == "5"));
}

#[test]
fn emerald_results_are_contents() {
    let answer = jobj(vec![(
        "data",
        jobj(vec![(
            "results",
            JsonValue::Array(vec![
                jobj(vec![("content", jstr("a"))]),
                jobj(vec![("other", JsonValue::Bool(true))]),
                jobj(vec![("content", JsonValue::Number("3".into()))]),
                jobj(vec![("content", jstr("b"))]),
            ]),
        )]),
    )]);
    assert_eq!(recall_results(&answer), vec!["a".to_string(), "b".to_string()]);
    assert!(recall_results(&jobj(vec![("data", jobj(vec![]))])).is_empty());
    assert!(recall_results(&jobj(vec![("data", jobj(vec![("results", jstr("x"))]))])).is_empty());
    assert!(recall_results(&JsonValue::Null).is_empty());
}
