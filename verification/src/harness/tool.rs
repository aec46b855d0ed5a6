//! The tool execution pipeline around a tool call: what a blocked call
//! answers, which input the tool receives, how the result hook rewrites the
//! result, and how the stop request of a tool reaches the loop.
use vstd::prelude::*;

use crate::hook::mutations::{ToolCallMutation, ToolResultMutation};
use crate::json::{json_set_true, json_string, quote_json, set_true_flag};
use crate::types::{
    contents_view, opt_str_view, AgentMessage, AgentToolResult, Content, ContentView, MessageView,
    ToolCall, ToolResultMessage,
};

verus! {

/// The result message of a tool call with the given parts.
pub open spec fn result_view(
    tc: ToolCall,
    content: Seq<ContentView>,
    details: Option<Seq<char>>,
    is_error: bool,
    now: u64,
) -> MessageView {
    MessageView::ToolResult {
        tool_call_id: tc.id@,
        tool_name: tc.name@,
        content,
        details,
        is_error,
        timestamp: now,
    }
}

/// Details of a call that a hook blocked.
pub open spec fn blocked_details(reason: Seq<char>) -> Seq<char> {
    "{\"blocked\":true,\"reason\":"@ + json_string(reason) + "}"@
}

/// The answer to a call that a hook blocked: an error result without
/// content whose details name the reason.
pub fn blocked_result(tc: &ToolCall, reason: &str, now_ms: u64) -> (r: ToolResultMessage)
    ensures
        AgentMessage::ToolResult(r)@ == result_view(
            *tc,
            Seq::empty(),
            Some(blocked_details(reason@)),
            true,
            now_ms,
        ),
{
    let q = quote_json(reason);
    let details = "{\"blocked\":true,\"reason\":".to_owned().concat(q.as_str()).concat("}");
    let r = ToolResultMessage {
        tool_call_id: tc.id.clone(),
        tool_name: tc.name.clone(),
        content: Vec::new(),
        details: Some(details),
        is_error: true,
        timestamp: now_ms,
    };
    proof {
        assert(contents_view(r.content@) =~= Seq::<ContentView>::empty());
    }
    r
}

/// The input the tool receives: the hook's replacement, or the call's arguments.
pub fn tool_input(tc: &ToolCall, mutation: ToolCallMutation) -> (r: String)
    ensures
        r@ == (match mutation.input {
            Some(i) => i@,
            None => tc.arguments@,
        }),
{
    match mutation.input {
        Some(i) => i,
        None => tc.arguments.clone(),
    }
}

/// Applies the result hook's rewrites: each field it sets replaces the tool's.
pub fn apply_tool_result_mutation(result: &mut AgentToolResult, mutation: ToolResultMutation)
    ensures
        contents_view(final(result).content@) == (match mutation.content {
            Some(c) => contents_view(c@),
            None => contents_view(old(result).content@),
        }),
        opt_str_view(final(result).details) == (match mutation.details {
            Some(d) => Some(d@),
            None => opt_str_view(old(result).details),
        }),
        final(result).is_error == (match mutation.is_error {
            Some(e) => e,
            None => old(result).is_error,
        }),
        final(result).terminate == (match mutation.terminate {
            Some(t) => t,
            None => old(result).terminate,
        }),
{
    if let Some(content) = mutation.content {
        result.content = content;
    }
    if let Some(details) = mutation.details {
        result.details = Some(details);
    }
    if let Some(is_error) = mutation.is_error {
        result.is_error = is_error;
    }
    if let Some(terminate) = mutation.terminate {
        result.terminate = terminate;
    }
}

/// The details a finished result carries: the tool's details (an empty JSON
/// object if none), with `"_terminate": true` set when the tool asked to
/// stop. `None` when that flag cannot be set (the details are JSON but
/// neither an object nor `null`, or not JSON).
pub open spec fn final_details(details: Option<Seq<char>>, terminate: bool) -> Option<Seq<char>> {
    let d = match details {
        Some(d) => d,
        None => "{}"@,
    };
    if terminate {
        json_set_true(d, "_terminate"@)
    } else {
        Some(d)
    }
}

/// The result message of an executed call: the tool's content and error
/// flag, and details that carry its stop request to the loop. `None` where
/// the stop request cannot be written into the details.
pub fn finish_tool_result(tc: &ToolCall, result: AgentToolResult, now_ms: u64) -> (r: Option<
    ToolResultMessage,
>)
    ensures
        r matches Some(m) ==> final_details(opt_str_view(result.details), result.terminate)
            matches Some(d) && AgentMessage::ToolResult(m)@ == result_view(
            *tc,
            contents_view(result.content@),
            Some(d),
            result.is_error,
            now_ms,
        ),
        r is None <==> final_details(opt_str_view(result.details), result.terminate) is None,
        r matches Some(m) ==> (result.terminate ==> crate::harness::agent_loop::terminates(m)),
{
    let d = match result.details {
        Some(d) => d,
        None => "{}".to_owned(),
    };
    let details = if result.terminate {
        match set_true_flag(d.as_str(), "_terminate") {
            Some(t) => t,
            None => {
                return None;
            },
        }
    } else {
        d
    };
    Some(
        ToolResultMessage {
            tool_call_id: tc.id.clone(),
            tool_name: tc.name.clone(),
            content: result.content,
            details: Some(details),
            is_error: result.is_error,
            timestamp: now_ms,
        },
    )
}

} // verus!
