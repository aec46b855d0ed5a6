use agent_core::compaction as legacy;
use agent_core::error::CompactionError;
use agent_core::file_ops::DefaultFileOperationExtractor;
use agent_core::harness::agent_loop::StreamEvent;
use agent_core::harness::compaction::{
    combined_summary, compaction_result, estimate_context_tokens, finish_summary, find_cut_point,
    history_summary_budget, history_summary_prompt, needs_prefix_summary, prefix_summary_budget,
    serialize_messages, should_compact, summarization_system_prompt_text, summary_event, try_estimate_context_tokens,
    turn_prefix_prompt, CompactionActor, CompactionConfig, SummaryStep,
};
use agent_core::persistence::entry::SessionEntry;
use agent_core::types::{AgentMessage, AssistantMessage, Content, StopReason, ToolCall, Usage, UserMessage};

fn user(text: &str) -> AgentMessage {
    AgentMessage::User(UserMessage { content: vec![Content::Text { text: text.into() }], timestamp: 0 })
}

fn assistant(content: Vec<Content>, total_tokens: u64) -> AgentMessage {
    AgentMessage::Assistant(AssistantMessage {
        content,
        usage: Usage { input_tokens: 0, output_tokens: 0, total_tokens },
        stop_reason: StopReason::Stop,
        error_message: None,
        timestamp: 0,
    })
}

fn text40() -> String {
    "x".repeat(40)
}

fn read_call(path: &str) -> Content {
    Content::ToolCall(ToolCall { id: "r".into(), name: "read".into(), arguments: format!("{{\"path\":\"{}\"}}", path) })
}

/// Four messages of 10, 5, 10 and 10 estimated tokens.
fn history_messages() -> Vec<AgentMessage> {
    vec![
        user(&text40()),
        assistant(vec![read_call("a.rs")], 0),
        user(&text40()),
        assistant(vec![Content::Text { text: text40() }], 0),
    ]
}

fn history_entries() -> Vec<SessionEntry> {
    history_messages()
        .into_iter()
        .enumerate()
        .map(|(i, m)| SessionEntry::Message { id: 10 + i as u128, message: m })
        .collect()
}

fn actor(keep: usize) -> CompactionActor {
    CompactionActor::new(CompactionConfig::new(true, 100, keep), DefaultFileOperationExtractor::default())
}

#[test]
fn context_tokens_without_usage_are_estimates() {
    assert_eq!(estimate_context_tokens(&history_entries()), 35);
    assert_eq!(try_estimate_context_tokens(&history_entries()), Some(35));
}

#[test]
fn context_tokens_from_last_usage() {
    let mut entries = history_entries();
    entries[1] = SessionEntry::Message { id: 11, message: assistant(vec![read_call("a.rs")], 1000) };
    assert_eq!(estimate_context_tokens(&entries), 1020);
}

#[test]
fn should_compact_over_window_minus_reserve() {
    let config = CompactionConfig::new(true, 100, 10);
    assert!(should_compact(901, 1000, &config));
    assert!(!should_compact(900, 1000, &config));
    assert!(!should_compact(901, 0, &config));
    assert!(!should_compact(901, 1000, &CompactionConfig::new(false, 100, 10)));
    assert!(should_compact(1, 50, &config));
}

#[test]
fn cut_point_keeps_recent_tokens() {
    let entries = history_entries();
    let c = find_cut_point(&entries, 0, 4, 15);
    assert_eq!(c.first_kept_entry_index, 2);
    assert_eq!(c.turn_start_index, None);
    assert!(!c.is_split_turn);
}

#[test]
fn cut_point_inside_a_turn_is_split() {
    let entries = history_entries();
    let c = find_cut_point(&entries, 0, 4, 25);
    assert_eq!(c.first_kept_entry_index, 1);
    assert_eq!(c.turn_start_index, Some(0));
    assert!(c.is_split_turn);
}

#[test]
fn prepare_collects_summarized_part() {
    let p = actor(15).prepare(&history_entries()).unwrap();
    assert_eq!(p.first_kept_entry_id, 12);
    assert_eq!(p.messages_to_summarize.len(), 2);
    assert!(p.turn_prefix_messages.is_empty());
    assert!(!p.is_split_turn);
    assert_eq!(p.tokens_before, 35);
    assert!(p.previous_summary.is_none());
    assert_eq!(p.file_ops.read, vec!["a.rs".to_string()]);
    assert!(p.file_ops.written.is_empty());
    assert!(!needs_prefix_summary(&p));
    let r = compaction_result(p, "summary".into());
    assert_eq!(r.summary, "summary");
    assert_eq!(r.first_kept_entry_id, 12);
    assert_eq!(r.tokens_before, 35);
    let d = r.details.unwrap();
    assert_eq!(d.read_files, vec!["a.rs".to_string()]);
    assert!(d.modified_files.is_empty());
}

#[test]
fn prepare_split_turn() {
    let p = actor(25).prepare(&history_entries()).unwrap();
    assert_eq!(p.first_kept_entry_id, 11);
    assert!(p.is_split_turn);
    assert!(p.messages_to_summarize.is_empty());
    assert_eq!(p.turn_prefix_messages.len(), 1);
    assert!(needs_prefix_summary(&p));
}

#[test]
fn prepare_refuses_compacted_history() {
    assert!(matches!(actor(15).prepare(&vec![]), Err(CompactionError::AlreadyCompacted)));
    let mut entries = history_entries();
    entries.push(SessionEntry::Compaction {
        id: 99,
        summary: "s".into(),
        first_kept_entry_id: 12,
        tokens_before: 35,
        details: None,
        from_extension: false,
        timestamp: 0,
    });
    assert!(matches!(actor(15).prepare(&entries), Err(CompactionError::AlreadyCompacted)));
}

#[test]
fn prepare_after_previous_compaction_starts_at_kept_entry() {
    let mut entries = history_entries();
    entries.insert(
        2,
        SessionEntry::Compaction {
            id: 99,
            summary: "earlier".into(),
            first_kept_entry_id: 11,
            tokens_before: 35,
            details: None,
            from_extension: false,
            timestamp: 0,
        },
    );
    let p = actor(15).prepare(&entries).unwrap();
    assert_eq!(p.previous_summary.as_deref(), Some("earlier"));
    assert_eq!(p.first_kept_entry_id, 12);
    assert_eq!(p.messages_to_summarize.len(), 1);
}

#[test]
fn summary_prompts() {
    let msgs = vec![user("hi"), assistant(vec![Content::Text { text: "a".into() }, Content::Text { text: "b".into() }], 0)];
    assert_eq!(serialize_messages(&msgs), "[User]: hi\n\n[Assistant]: a b\n\n");
    let p = history_summary_prompt(&msgs, &None);
    assert!(p.starts_with("<conversation>\n[User]: hi\n\n[Assistant]: a b\n\n\n</conversation>\n\nSummarize the conversation above"));
    let q = history_summary_prompt(&msgs, &Some("old".into()));
    assert!(q.contains("<previous-summary>\nold\n</previous-summary>\n\nThe messages above are NEW"));
    let t = turn_prefix_prompt(&msgs);
    assert!(t.ends_with("Focus on what's needed to understand the kept suffix."));
    assert_eq!(summarization_system_prompt_text(), "You are a conversation summarizer. ...");
}

#[test]
fn summary_budgets() {
    assert_eq!(history_summary_budget(1000), 800);
    assert_eq!(history_summary_budget(7), 5);
    assert_eq!(history_summary_budget(usize::MAX), (usize::MAX / 5) * 4 + 4 * (usize::MAX % 5) / 5);
    assert_eq!(prefix_summary_budget(7), 3);
}

#[test]
fn combined_summary_appends_prefix() {
    assert_eq!(combined_summary("h".into(), None), "h");
    assert_eq!(combined_summary("h".into(), Some("p".into())), "h\n\n---\n\n**Turn Context (split turn):**\n\np");
}

#[test]
fn summary_stream_steps() {
    let mut text = String::new();
    assert!(matches!(
        summary_event(&mut text, StreamEvent::TextDelta { content_index: 0, delta: "par".into() }),
        SummaryStep::Continue
    ));
    assert_eq!(text, "par");
    assert!(matches!(summary_event(&mut text, StreamEvent::Other), SummaryStep::Continue));
    let done = StreamEvent::Done {
        reason: StopReason::Stop,
        content: vec![Content::Text { text: "x".into() }, Content::Text { text: "y".into() }],
        usage: Usage { input_tokens: 0, output_tokens: 0, total_tokens: 0 },
    };
    assert!(matches!(summary_event(&mut text, done), SummaryStep::Done));
    assert_eq!(text, "x\ny");
    match summary_event(&mut text, StreamEvent::Error { stop_reason: StopReason::Error, error_message: None }) {
        SummaryStep::Failed(CompactionError::LlmError(m)) => assert_eq!(m, "LLM error"),
        _ => panic!("expected failure"),
    }
    assert_eq!(finish_summary("s".into(), "empty").unwrap(), "s");
    match finish_summary(String::new(), "empty summary") {
        Err(CompactionError::LlmError(m)) => assert_eq!(m, "empty summary"),
        _ => panic!("expected error"),
    }
}

// The standalone compaction helpers.

#[test]
fn legacy_settings_default() {
    let s = legacy::CompactionSettings::default();
    assert!(s.enabled);
    assert_eq!(s.reserve_tokens, 16_384);
    assert_eq!(s.keep_recent_tokens, 20_000);
}

#[test]
fn legacy_estimates_and_cut_point() {
    let msgs = history_messages();
    assert_eq!(legacy::estimate_tokens(&msgs[0]), 10);
    assert_eq!(legacy::estimate_tokens(&msgs[1]), 5);
    let e = legacy::estimate_context_tokens(&msgs);
    assert_eq!(e.tokens, 35);
    assert_eq!(e.last_usage_index, None);
    let c = legacy::find_cut_point(&msgs, 15);
    assert_eq!(c.first_kept_index, 2);
    assert!(!c.is_split_turn);
    let s = legacy::find_cut_point(&msgs, 25);
    assert_eq!(s.first_kept_index, 1);
    assert_eq!(s.turn_start_index, Some(0));
    assert!(s.is_split_turn);
}

#[test]
fn legacy_should_compact() {
    let s = legacy::CompactionSettings { enabled: true, reserve_tokens: 100, keep_recent_tokens: 10 };
    assert!(legacy::should_compact(901, 1000, &s));
    assert!(!legacy::should_compact(900, 1000, &s));
    assert!(!legacy::should_compact(901, 1000, &legacy::CompactionSettings { enabled: false, ..s }));
}

#[test]
fn legacy_file_lists_and_format() {
    let mut ops = legacy::FileOperations::default();
    legacy::extract_file_ops_from_message(
        &assistant(
            vec![
                read_call("b"),
                read_call("a"),
                Content::ToolCall(ToolCall { id: "w".into(), name: "write".into(), arguments: "{\"path\":\"b\"}".into() }),
                Content::ToolCall(ToolCall { id: "e".into(), name: "edit".into(), arguments: "{\"path\":\"c\"}".into() }),
            ],
            0,
        ),
        &mut ops,
    );
    let (read_only, modified) = legacy::compute_file_lists(&ops);
    assert_eq!(read_only, vec!["a".to_string()]);
    assert_eq!(modified, vec!["b".to_string(), "c".to_string()]);
    assert_eq!(
        legacy::format_file_operations(&read_only, &modified),
        "\n\n<read-files>\na\n</read-files>\n\n<modified-files>\nb\nc\n</modified-files>"
    );
    assert_eq!(legacy::format_file_operations(&vec![], &vec![]), "");
}

#[test]
fn legacy_message_from_entry() {
    let m = legacy::message_from_entry(&SessionEntry::Message { id: 1, message: user("x") });
    assert!(m.is_some());
    let c = legacy::message_from_entry(&SessionEntry::Compaction {
        id: 2,
        summary: String::new(),
        first_kept_entry_id: 1,
        tokens_before: 0,
        details: None,
        from_extension: false,
        timestamp: 0,
    });
    assert!(c.is_none());
}

#[test]
fn legacy_serialize_conversation() {
    let msgs = vec![
        user("hi"),
        assistant(
            vec![
                Content::Text { text: "a".into() },
                Content::Thinking { thinking: "t".into() },
                Content::ToolCall(ToolCall { id: "1".into(), name: "read".into(), arguments: "{\"path\": \"x\"}".into() }),
                Content::Image { mime_type: "image/png".into(), data: "zz".into() },
            ],
            0,
        ),
        AgentMessage::ToolResult(agent_core::types::ToolResultMessage {
            tool_call_id: "1".into(),
            tool_name: "read".into(),
            content: vec![Content::Text { text: "o".into() }, Content::Text { text: "k".into() }],
            details: None,
            is_error: false,
            timestamp: 0,
        }),
    ];
    assert_eq!(
        legacy::serialize_conversation(&msgs),
        "[User]: hi\n[Assistant]: a\n[Assistant thinking]: t\n[Assistant tool calls]: read({\"path\":\"x\"})\n[Tool result]: ok\n"
    );
}

#[test]
fn legacy_serialize_cuts_long_results() {
    let long = "y".repeat(2005);
    let msgs = vec![AgentMessage::ToolResult(agent_core::types::ToolResultMessage {
        tool_call_id: "1".into(),
        tool_name: "bash".into(),
        content: vec![Content::Text { text: long }],
        details: None,
        is_error: false,
        timestamp: 0,
    })];
    let expected = format!("[Tool result]: {}\n[... 5 more characters truncated]\n", "y".repeat(2000));
    assert_eq!(legacy::serialize_conversation(&msgs), expected);
}

#[test]
fn legacy_prepare_compaction() {
    let settings = legacy::CompactionSettings { enabled: true, reserve_tokens: 100, keep_recent_tokens: 15 };
    assert!(legacy::prepare_compaction(&[], &settings).is_none());
    let p = legacy::prepare_compaction(&history_entries(), &settings).unwrap();
    assert_eq!(p.first_kept_entry_id, 12);
    assert_eq!(p.messages_to_summarize.len(), 2);
    assert!(!p.is_split_turn);
    assert_eq!(p.tokens_before, 35);
    assert!(p.previous_summary.is_none());
    assert_eq!(p.file_ops.read, vec!["a.rs".to_string()]);
    let split = legacy::prepare_compaction(
        &history_entries(),
        &legacy::CompactionSettings { keep_recent_tokens: 25, ..settings },
    )
    .unwrap();
    assert!(split.is_split_turn);
    assert_eq!(split.first_kept_entry_id, 11);
    assert!(split.messages_to_summarize.is_empty());
    assert_eq!(split.turn_prefix_messages.len(), 1);
    assert_eq!(split.file_ops.read.len(), 0);
}

#[test]
fn cut_point_skips_tool_results() {
    let entries = vec![
        SessionEntry::Message { id: 1, message: user(&text40()) },
        SessionEntry::Message { id: 2, message: assistant(vec![read_call("a.rs")], 0) },
        SessionEntry::Message {
            id: 3,
            message: AgentMessage::ToolResult(agent_core::types::ToolResultMessage {
                tool_call_id: "r".into(),
                tool_name: "read".into(),
                content: vec![Content::Text { text: text40() }],
                details: None,
                is_error: false,
                timestamp: 0,
            }),
        },
        SessionEntry::Message { id: 4, message: assistant(vec![Content::Text { text: text40() }], 0) },
    ];
    let c = find_cut_point(&entries, 0, 4, 15);
    assert_eq!(c.first_kept_entry_index, 3);
    assert_eq!(c.turn_start_index, Some(0));
    assert!(c.is_split_turn);
}

#[test]
fn tool_call_arguments_count_compact() {
    let spaced = assistant(
        vec![Content::ToolCall(ToolCall { id: "r".into(), name: "read".into(), arguments: "{ \"path\" : \"a.rs\" }".into() })],
        0,
    );
    assert_eq!(legacy::estimate_tokens(&spaced), 5);
    let entries = vec![SessionEntry::Message { id: 1, message: spaced }];
    assert_eq!(estimate_context_tokens(&entries), 5);
}
