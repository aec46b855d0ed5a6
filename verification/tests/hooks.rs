use agent_core::harness::config::HookConfig;
use agent_core::hook::context::{AgentEndCtx, ToolCallCtx, ToolResultCtx};
use agent_core::hook::default_dispatcher::{
    collect_string_paths, extract_paths, guard_decision, is_path_allowed, is_path_like, normalize_path,
    tool_call_decision, tool_call_guard, tool_result_guard, tool_result_guard_text,
};
use agent_core::hook::mutations::HookDecision;
use agent_core::json::JsonValue;
use agent_core::types::Content;

fn s(x: &str) -> JsonValue {
    JsonValue::String(x.to_string())
}

fn obj(members: Vec<(&str, JsonValue)>) -> JsonValue {
    JsonValue::Object(members.into_iter().map(|(k, v)| (k.to_string(), v)).collect())
}

fn strings(v: &[&str]) -> Vec<String> {
    v.iter().map(|x| x.to_string()).collect()
}

const WS: &str = "/workspace/t1";

#[test]
fn test_hook_config_with_pawbun_defaults() {
    let config = HookConfig::default().with_pawbun_defaults();
    assert_eq!(config.guard_fields("file_read").unwrap(), &vec!["path".to_string()]);
    assert_eq!(config.guard_fields("file_write").unwrap(), &vec!["path".to_string()]);
    assert_eq!(config.guard_fields("directory_list").unwrap(), &vec!["path".to_string()]);
    assert_eq!(config.guard_fields("code_execute").unwrap(), &vec!["work_dir".to_string()]);
}

#[test]
fn test_hook_config_with_pawbun_preserves_existing() {
    let config = HookConfig {
        path_guard_fields: vec![("custom".to_string(), vec!["file".to_string()])],
        ..Default::default()
    }
    .with_pawbun_defaults();

    assert!(config.guard_fields("custom").is_some());
    assert!(config.guard_fields("file_read").is_some());
}

#[test]
fn set_guard_fields_replaces_entry() {
    let mut c = HookConfig::default();
    c.set_guard_fields("t".into(), strings(&["a"]));
    c.set_guard_fields("t".into(), strings(&["b", "c"]));
    assert_eq!(c.path_guard_fields.len(), 1);
    assert_eq!(c.guard_fields("t").unwrap(), &strings(&["b", "c"]));
    assert!(c.guard_fields("u").is_none());
}

#[test]
fn normalize_paths() {
    assert_eq!(normalize_path("/workspace/t1/../t2/x").as_deref(), Some("/workspace/t2/x"));
    assert_eq!(normalize_path("./a//b/").as_deref(), Some("a/b"));
    assert_eq!(normalize_path("a/../../b").as_deref(), Some("b"));
    assert_eq!(normalize_path("/").as_deref(), Some("/"));
    assert_eq!(normalize_path("/.."), None);
    assert_eq!(normalize_path(""), None);
}

#[test]
fn path_allowed_inside_workspace_only() {
    assert!(is_path_allowed("/workspace/t1/src/main.rs", WS));
    assert!(is_path_allowed("/workspace/t1/a", "/workspace/t1/"));
    assert!(!is_path_allowed("/workspace/t1/", "/workspace/t1/"));
    assert!(!is_path_allowed("/workspace/t1", WS));
    assert!(!is_path_allowed("/workspace/t10/x", WS));
    assert!(!is_path_allowed("/workspace/t1/../t2/x", WS));
    assert!(!is_path_allowed("/etc/passwd", WS));
    assert!(!is_path_allowed("/..", WS));
    assert!(is_path_allowed("relative/file.txt", WS));
    assert!(!is_path_allowed("../../etc/passwd", WS));
    assert!(!is_path_allowed("../t2/x", WS));
    assert!(is_path_allowed("../t1/x", WS));
    assert!(!is_path_allowed("", WS));
}

#[test]
fn path_like_strings() {
    assert!(is_path_like("/etc"));
    assert!(is_path_like("./x"));
    assert!(is_path_like("a/b"));
    assert!(!is_path_like("plain"));
    assert!(!is_path_like(""));
}

#[test]
fn collect_paths_in_document_order() {
    let v = obj(vec![
        ("a", s("/x")),
        ("b", JsonValue::Array(vec![s("y"), s("./z"), JsonValue::Null, JsonValue::Bool(true)])),
        ("c", obj(vec![("d", s("e/f")), ("n", JsonValue::Number("1".into()))])),
    ]);
    let mut paths = vec!["first".to_string()];
    collect_string_paths(&v, &mut paths);
    assert_eq!(paths, strings(&["first", "/x", "./z", "e/f"]));
}

#[test]
fn extract_configured_fields_only() {
    let config = HookConfig::default().with_pawbun_defaults();
    let input = obj(vec![("path", s("/etc/passwd")), ("other", s("/tmp/x"))]);
    let mut paths = Vec::new();
    extract_paths(&config, "file_read", &input, &mut paths);
    assert_eq!(paths, strings(&["/etc/passwd"]));
    let mut unknown = Vec::new();
    extract_paths(&config, "bash", &input, &mut unknown);
    assert!(unknown.is_empty());
    let scanning = HookConfig { path_guard_scan_unknown: true, ..HookConfig::default() };
    let mut all = Vec::new();
    extract_paths(&scanning, "bash", &input, &mut all);
    assert_eq!(all, strings(&["/etc/passwd", "/tmp/x"]));
}

#[test]
fn tool_guard_denies_and_allows() {
    let denied = HookConfig { denied_tools: strings(&["rm"]), ..HookConfig::default() };
    match tool_call_decision(&denied, "rm", &JsonValue::Null, WS) {
        HookDecision::Block { reason } => assert_eq!(reason, "tool 'rm' is denied by tool-guard"),
        _ => panic!("expected block"),
    }
    let allow = HookConfig { allowed_tools: strings(&["read"]), ..HookConfig::default() };
    match tool_call_decision(&allow, "write", &JsonValue::Null, WS) {
        HookDecision::Block { reason } => assert_eq!(reason, "tool 'write' is not in allowed list"),
        _ => panic!("expected block"),
    }
    assert!(matches!(tool_call_decision(&allow, "read", &JsonValue::Null, WS), HookDecision::Continue));
}

#[test]
fn path_guard_blocks_outside_workspace() {
    let config = HookConfig::default().with_pawbun_defaults();
    let bad = obj(vec![("path", s("/etc/passwd"))]);
    match tool_call_decision(&config, "file_read", &bad, WS) {
        HookDecision::Block { reason } => {
            assert_eq!(reason, "path '/etc/passwd' is outside of allowed workspace (/workspace/t1)")
        }
        _ => panic!("expected block"),
    }
    let good = obj(vec![("path", s("/workspace/t1/a.txt"))]);
    assert!(matches!(tool_call_decision(&config, "file_read", &good, WS), HookDecision::Continue));
    let list = guard_decision("x", &vec![], &vec![], &strings(&["ok/rel", "/bad", "/worse"]), WS);
    match list {
        HookDecision::Block { reason } => assert_eq!(reason, "path '/bad' is outside of allowed workspace (/workspace/t1)"),
        _ => panic!("expected block"),
    }
    let escape = obj(vec![("path", s("../../etc/passwd"))]);
    assert!(matches!(tool_call_decision(&config, "file_read", &escape, WS), HookDecision::Block { .. }));
}

#[test]
fn result_guard_replaces_leaking_results() {
    let leaking = Some(obj(vec![("file", s("/etc/shadow"))]));
    let m = tool_result_guard(&leaking, WS);
    assert_eq!(m.is_error, Some(true));
    let content = m.content.unwrap();
    assert_eq!(content.len(), 1);
    match &content[0] {
        Content::Text { text } => assert_eq!(text, "[PathGuard: illegal path reference removed]"),
        _ => panic!("expected text"),
    }
    let clean = tool_result_guard(&Some(obj(vec![("file", s("/workspace/t1/a"))])), WS);
    assert!(clean.content.is_none() && clean.is_error.is_none());
    let none = tool_result_guard(&None, WS);
    assert!(none.content.is_none());
}

#[test]
fn hook_contexts_start_empty() {
    let c = ToolCallCtx::new("t".into(), "s".into(), "bash".into(), "id".into());
    assert_eq!(c.input, "null");
    let r = ToolResultCtx::new("t".into(), "s".into(), "bash".into(), "id".into());
    assert!(r.details.is_none() && !r.is_error && r.content.is_empty());
    let a = AgentEndCtx::new("t".into(), "s".into());
    assert!(a.messages.is_empty());
}

#[test]
fn guards_parse_json_text() {
    let config = HookConfig::default().with_pawbun_defaults();
    let mut ctx = ToolCallCtx::new("t1".into(), "s1".into(), "file_read".into(), "tc1".into());
    ctx.input = r#"{"path":"../../etc/passwd"}"#.to_string();
    match tool_call_guard(&config, &ctx, WS) {
        HookDecision::Block { reason } => {
            assert_eq!(reason, "path '../../etc/passwd' is outside of allowed workspace (/workspace/t1)")
        }
        _ => panic!("expected block"),
    }
    ctx.input = r#"{"path":"src/main.rs"}"#.to_string();
    assert!(matches!(tool_call_guard(&config, &ctx, WS), HookDecision::Continue));
    ctx.input = "not json".to_string();
    assert!(matches!(tool_call_guard(&config, &ctx, WS), HookDecision::Continue));

    let leaking = Some(r#"{"files":["/workspace/t1/a","/etc/shadow"]}"#.to_string());
    let m = tool_result_guard_text(&leaking, WS);
    assert_eq!(m.is_error, Some(true));
    let clean = tool_result_guard_text(&Some(r#"{"file":"/workspace/t1/a"}"#.to_string()), WS);
    assert!(clean.content.is_none());
    assert!(tool_result_guard_text(&Some("/etc/shadow".to_string()), WS).content.is_none());
    assert!(tool_result_guard_text(&None, WS).content.is_none());
}
