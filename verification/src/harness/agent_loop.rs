//! The decisions of the agent loop: how a turn ends, which tool calls are left
//! unanswered, how the conversation grows across turns, when a provider call
//! is retried, and how a streamed response is assembled.
//!
//! Awaiting the provider, the hooks and the tools is left to the caller, which
//! feeds what came back into the functions here and acts on what they return.
use vstd::prelude::*;

use crate::error::{AgentError, AgentErrorView};
use crate::file_ops::calls_of;
use crate::harness::error_recovery::{
    backoff_delay, backoff_ms, is_overflow_text, is_retryable_text, overflow_text, retryable_text,
};
use crate::harness::tool::result_view;
use crate::json::{bool_field, json_bool_field, json_string, quote_json};
use crate::prompt::mutation::apply_mutation_spec;
use crate::prompt::{PromptBuilder, PromptMutation};
use crate::system::unix_time_ms;
use crate::text::str_eq;
use crate::types::{
    assistant_view, clone_contents, contents_view, messages_view, opt_str_view, AgentMessage,
    AssistantMessage, Content, ContentView, MessageView, StopReason, ToolCall, ToolCallView,
    ToolExecutionMode, ToolInfo, ToolResultMessage, Usage,
};

verus! {

/// How a turn of the loop ended.
#[derive(Debug)]
pub enum TurnResult {
    /// The model asked for tools; another turn follows.
    ToolUse,
    /// The turn is complete.
    Stop,
    /// The turn failed.
    Error(AgentError),
}

/// Abstract value of a turn result.
pub enum TurnResultView {
    ToolUse,
    Stop,
    Error(AgentErrorView),
}

impl View for TurnResult {
    type V = TurnResultView;

    open spec fn view(&self) -> TurnResultView {
        match self {
            TurnResult::ToolUse => TurnResultView::ToolUse,
            TurnResult::Stop => TurnResultView::Stop,
            TurnResult::Error(e) => TurnResultView::Error(e@),
        }
    }
}

/// The name a stop reason is printed with.
pub open spec fn stop_reason_name(r: StopReason) -> Seq<char> {
    match r {
        StopReason::Stop => "Stop"@,
        StopReason::Length => "Length"@,
        StopReason::ToolUse => "ToolUse"@,
        StopReason::Error => "Error"@,
        StopReason::Aborted => "Aborted"@,
    }
}

/// The name a stop reason is printed with.
pub fn stop_reason_text(r: StopReason) -> (s: &'static str)
    ensures
        s@ == stop_reason_name(r),
{
    match r {
        StopReason::Stop => "Stop",
        StopReason::Length => "Length",
        StopReason::ToolUse => "ToolUse",
        StopReason::Error => "Error",
        StopReason::Aborted => "Aborted",
    }
}

/// Stop reasons with which a response cannot be used.
pub open spec fn failed_stop(r: StopReason) -> bool {
    r == StopReason::Error || r == StopReason::Aborted || r == StopReason::Length
}

/// The text reported for a failed response: its error message, or a note
/// naming the stop reason.
pub open spec fn failure_text(m: AssistantMessage) -> Seq<char> {
    match m.error_message {
        Some(e) => e@,
        None => "LLM returned stop reason: "@ + stop_reason_name(m.stop_reason),
    }
}

/// The error a response ends its turn with, if any: failed stop reasons end
/// the turn, an `Error` whose text mentions the context limit as an overflow.
pub open spec fn response_error_spec(m: AssistantMessage) -> Option<AgentErrorView> {
    if failed_stop(m.stop_reason) {
        let t = failure_text(m);
        if m.stop_reason == StopReason::Error && overflow_text(t) {
            Some(AgentErrorView::ContextOverflow(t))
        } else {
            Some(AgentErrorView::LlmResponseError(t))
        }
    } else {
        None
    }
}

/// The error a response ends its turn with, if any.
pub fn response_error(m: &AssistantMessage) -> (r: Option<AgentError>)
    ensures
        r matches Some(e) ==> response_error_spec(*m) == Some(e@),
        r is None ==> response_error_spec(*m) is None,
{
    if m.stop_reason == StopReason::Error || m.stop_reason == StopReason::Aborted
        || m.stop_reason == StopReason::Length {
        let text = match &m.error_message {
            Some(e) => e.clone(),
            None => "LLM returned stop reason: ".to_owned().concat(stop_reason_text(m.stop_reason)),
        };
        if m.stop_reason == StopReason::Error && is_overflow_text(text.as_str()) {
            Some(AgentError::ContextOverflow(text))
        } else {
            Some(AgentError::LlmResponseError(text))
        }
    } else {
        None
    }
}

/// Abstract value of a list of tool calls.
pub open spec fn calls_view(v: Seq<ToolCall>) -> Seq<ToolCallView> {
    v.map_values(|t: ToolCall| t@)
}

/// The tool calls among content blocks, in order.
pub fn tool_calls_of(content: &Vec<Content>) -> (r: Vec<ToolCall>)
    ensures
        calls_view(r@) == calls_of(contents_view(content@)),
{
    let mut r: Vec<ToolCall> = Vec::new();
    for i in 0..content.len()
        invariant
            calls_view(r@) == calls_of(contents_view(content@).take(i as int)),
    {
        proof {
            assert(contents_view(content@).take(i + 1).drop_last() =~= contents_view(
                content@,
            ).take(i as int));
        }
        match &content[i] {
            Content::ToolCall(tc) => {
                r.push(tc.clone());
                proof {
                    assert(calls_view(r@) =~= calls_view(r@).drop_last().push(tc@));
                }
            },
            _ => {},
        }
    }
    proof {
        assert(contents_view(content@).take(content@.len() as int) =~= contents_view(content@));
    }
    r
}

/// What a turn does once its response is recorded.
#[derive(Debug)]
pub enum AfterResponse {
    /// The response failed: the turn ends with this error.
    Fail(AgentError),
    /// The response calls no tool: the turn ends.
    Stop,
    /// Execute these tool calls, in order.
    RunTools(Vec<ToolCall>),
}

/// The next step of a turn after its response: an error ends it first; a
/// response without tool calls stops; otherwise its calls are executed.
pub fn after_response(m: &AssistantMessage) -> (r: AfterResponse)
    ensures
        (match r {
            AfterResponse::Fail(e) => response_error_spec(*m) == Some(e@),
            AfterResponse::Stop => response_error_spec(*m) is None && calls_of(
                contents_view(m.content@),
            ).len() == 0,
            AfterResponse::RunTools(calls) => response_error_spec(*m) is None && calls_view(calls@)
                == calls_of(contents_view(m.content@)) && calls@.len() > 0,
        }),
{
    if let Some(e) = response_error(m) {
        return AfterResponse::Fail(e);
    }
    let calls = tool_calls_of(&m.content);
    if calls.len() == 0 {
        AfterResponse::Stop
    } else {
        AfterResponse::RunTools(calls)
    }
}

/// The tool asked the loop to stop after this result: its details carry
/// `"_terminate": true`.
pub open spec fn terminates(r: ToolResultMessage) -> bool {
    r.details matches Some(d) && json_bool_field(d@, "_terminate"@) == Some(true)
}

/// Whether the result asks the loop to stop.
pub fn terminate_flag(r: &ToolResultMessage) -> (b: bool)
    ensures
        b == terminates(*r),
{
    match &r.details {
        Some(d) => {
            let f = bool_field(d.as_str(), "_terminate");
            match f {
                Some(v) => v,
                None => false,
            }
        },
        None => false,
    }
}

/// Every result of the turn asks the loop to stop (and there is at least one).
pub open spec fn all_terminate(rs: Seq<ToolResultMessage>) -> bool {
    rs.len() > 0 && forall|i: int| 0 <= i < rs.len() ==> terminates(#[trigger] rs[i])
}

/// How a turn that executed tools ends: every tool asked to stop, or the
/// model stopped for another reason than tool use, ends it; otherwise the
/// loop runs another turn.
pub open spec fn after_tools_spec(stop: StopReason, rs: Seq<ToolResultMessage>) -> TurnResultView {
    if all_terminate(rs) {
        TurnResultView::Stop
    } else if stop == StopReason::ToolUse {
        TurnResultView::ToolUse
    } else {
        TurnResultView::Stop
    }
}

/// How a turn that executed tools ends.
pub fn turn_result_after_tools(stop: StopReason, results: &Vec<ToolResultMessage>) -> (r: TurnResult)
    ensures
        r@ == after_tools_spec(stop, results@),
{
    let mut all = results.len() > 0;
    let mut i: usize = 0;
    while i < results.len()
        invariant
            i <= results@.len(),
            all == (results@.len() > 0 && forall|k: int| 0 <= k < i ==> terminates(
                #[trigger] results@[k],
            )),
        decreases results@.len() - i,
    {
        if !terminate_flag(&results[i]) {
            all = false;
        }
        i = i + 1;
    }
    if all {
        TurnResult::Stop
    } else if stop == StopReason::ToolUse {
        TurnResult::ToolUse
    } else {
        TurnResult::Stop
    }
}

/// Replaces the content and the stop reason of a response where a hook asked to.
pub fn apply_provider_response_mutation(
    msg: &mut AssistantMessage,
    mutation: crate::hook::mutations::ProviderResponseMutation,
)
    ensures
        contents_view(final(msg).content@) == (match mutation.content {
            Some(c) => contents_view(c@),
            None => contents_view(old(msg).content@),
        }),
        final(msg).stop_reason == (match mutation.stop_reason {
            Some(s) => s,
            None => old(msg).stop_reason,
        }),
        final(msg).usage == old(msg).usage,
        final(msg).error_message == old(msg).error_message,
        final(msg).timestamp == old(msg).timestamp,
{
    if let Some(content) = mutation.content {
        msg.content = content;
    }
    if let Some(stop_reason) = mutation.stop_reason {
        msg.stop_reason = stop_reason;
    }
}

/// The details a placeholder result carries: the call was never executed.
pub open spec fn orphan_details() -> Seq<char> {
    "{\"_orphan\":true,\"message\":\"tool call was not executed (context truncated or restored)\"}"@
}

/// The ids of the tool calls answered by tool results, in order.
pub open spec fn answered_ids(s: Seq<MessageView>) -> Seq<Seq<char>>
    decreases s.len(),
{
    if s.len() == 0 {
        Seq::empty()
    } else {
        match s.last() {
            MessageView::ToolResult { tool_call_id, .. } => answered_ids(s.drop_last()).push(
                tool_call_id,
            ),
            _ => answered_ids(s.drop_last()),
        }
    }
}

/// The name of the first tool call with the given id among content blocks.
pub open spec fn first_call_name(c: Seq<ContentView>, id: Seq<char>) -> Seq<char>
    decreases c.len(),
{
    if c.len() == 0 {
        "unknown"@
    } else {
        match c[0] {
            ContentView::ToolCall(tc) => if tc.id == id {
                tc.name
            } else {
                first_call_name(c.drop_first(), id)
            },
            _ => first_call_name(c.drop_first(), id),
        }
    }
}

/// The placeholder result of an unanswered tool call.
pub open spec fn orphan_result(id: Seq<char>, name: Seq<char>, now: u64) -> MessageView {
    MessageView::ToolResult {
        tool_call_id: id,
        tool_name: name,
        content: Seq::empty(),
        details: Some(orphan_details()),
        is_error: true,
        timestamp: now,
    }
}

/// Placeholder results for the unanswered calls among the blocks `c` of a
/// message whose content is `full`, the latest call first. A call is
/// unanswered when no tool result in `s` carries its id.
pub open spec fn orphans_latest_first(
    s: Seq<MessageView>,
    full: Seq<ContentView>,
    c: Seq<ContentView>,
    now: u64,
) -> Seq<MessageView>
    decreases c.len(),
{
    if c.len() == 0 {
        Seq::empty()
    } else {
        let rest = orphans_latest_first(s, full, c.drop_last(), now);
        match c.last() {
            ContentView::ToolCall(tc) => if answered_ids(s).contains(tc.id) {
                rest
            } else {
                seq![orphan_result(tc.id, first_call_name(full, tc.id), now)] + rest
            },
            _ => rest,
        }
    }
}

/// The placeholder results that follow message `m` of the conversation `s`.
pub open spec fn orphans_after(s: Seq<MessageView>, m: MessageView, now: u64) -> Seq<MessageView> {
    match m {
        MessageView::Assistant { content, .. } => orphans_latest_first(s, content, content, now),
        _ => Seq::empty(),
    }
}

/// The messages of `p` (a prefix of the conversation `s`), each assistant
/// message followed by placeholder results for its unanswered tool calls.
pub open spec fn resolved_spec(s: Seq<MessageView>, p: Seq<MessageView>, now: u64) -> Seq<
    MessageView,
>
    decreases p.len(),
{
    if p.len() == 0 {
        Seq::empty()
    } else {
        resolved_spec(s, p.drop_last(), now) + seq![p.last()] + orphans_after(s, p.last(), now)
    }
}

/// The message calls a tool with the given id.
pub open spec fn calls_with_id(m: MessageView, id: Seq<char>) -> bool {
    &&& m matches MessageView::Assistant { content, .. }
    &&& exists|j: int| 0 <= j < m.content().len() && (#[trigger] m.content()[j]) is ToolCall && m.content()[j]->0.id == id
}

proof fn lemma_answered_ids_append(a: Seq<MessageView>, b: Seq<MessageView>)
    ensures
        answered_ids(a + b) == answered_ids(a) + answered_ids(b),
    decreases b.len(),
{
    if b.len() == 0 {
        assert(a + b =~= a);
        assert(answered_ids(a) + answered_ids(b) =~= answered_ids(a));
    } else {
        assert((a + b).drop_last() =~= a + b.drop_last());
        assert((a + b).last() == b.last());
        lemma_answered_ids_append(a, b.drop_last());
        match b.last() {
            MessageView::ToolResult { tool_call_id, .. } => {
                assert(answered_ids(a + b) =~= answered_ids(a) + answered_ids(b));
            },
            _ => {},
        }
    }
}

proof fn lemma_contains_append(a: Seq<Seq<char>>, b: Seq<Seq<char>>, x: Seq<char>)
    ensures
        a.contains(x) ==> (a + b).contains(x),
        b.contains(x) ==> (a + b).contains(x),
{
    if a.contains(x) {
        let j = choose|j: int| 0 <= j < a.len() && a[j] == x;
        assert((a + b)[j] == x);
    }
    if b.contains(x) {
        let j = choose|j: int| 0 <= j < b.len() && b[j] == x;
        assert((a + b)[a.len() + j] == x);
    }
}

/// A call among the blocks `c` that no result in `s` answers gets a placeholder.
proof fn lemma_orphans_answer(s: Seq<MessageView>, full: Seq<ContentView>, c: Seq<ContentView>, now: u64, j: int)
    requires
        0 <= j < c.len(),
        c[j] is ToolCall,
        !answered_ids(s).contains(c[j]->0.id),
    ensures
        answered_ids(orphans_latest_first(s, full, c, now)).contains(c[j]->0.id),
    decreases c.len(),
{
    let id = c[j]->0.id;
    let rest = orphans_latest_first(s, full, c.drop_last(), now);
    if j == c.len() - 1 {
        let o = orphan_result(id, first_call_name(full, id), now);
        assert(orphans_latest_first(s, full, c, now) == seq![o] + rest);
        lemma_answered_ids_append(seq![o], rest);
        assert(seq![o].drop_last() =~= Seq::<MessageView>::empty());
        assert(answered_ids(Seq::<MessageView>::empty()) =~= Seq::<Seq<char>>::empty());
        assert(seq![o].last() == o);
        assert(answered_ids(seq![o]) =~= seq![id]);
        lemma_contains_append(seq![id], answered_ids(rest), id);
        assert(seq![id][0] == id);
    } else {
        assert(c.drop_last()[j] == c[j]);
        lemma_orphans_answer(s, full, c.drop_last(), now, j);
        match c.last() {
            ContentView::ToolCall(tc) => if !answered_ids(s).contains(tc.id) {
                let o = orphan_result(tc.id, first_call_name(full, tc.id), now);
                lemma_answered_ids_append(seq![o], rest);
                lemma_contains_append(answered_ids(seq![o]), answered_ids(rest), id);
            },
            _ => {},
        }
    }
}

proof fn lemma_resolved_answers(s: Seq<MessageView>, p: Seq<MessageView>, now: u64)
    ensures
        forall|x: Seq<char>| answered_ids(p).contains(x) ==> answered_ids(resolved_spec(s, p, now)).contains(x),
        forall|i: int, x: Seq<char>|
            0 <= i < p.len() && #[trigger] calls_with_id(p[i], x) && !answered_ids(s).contains(x)
                ==> answered_ids(resolved_spec(s, p, now)).contains(x),
    decreases p.len(),
{
    if p.len() > 0 {
        let q = p.drop_last();
        let last = p.last();
        lemma_resolved_answers(s, q, now);
        let rq = resolved_spec(s, q, now);
        let oa = orphans_after(s, last, now);
        assert(resolved_spec(s, p, now) == rq + seq![last] + oa);
        lemma_answered_ids_append(rq + seq![last], oa);
        lemma_answered_ids_append(rq, seq![last]);
        assert(seq![last].drop_last() =~= Seq::<MessageView>::empty());
        assert(answered_ids(Seq::<MessageView>::empty()) =~= Seq::<Seq<char>>::empty());
        assert(seq![last].last() == last);
        let a_rq = answered_ids(rq);
        let a_l = answered_ids(seq![last]);
        let a_o = answered_ids(oa);
        assert forall|x: Seq<char>| answered_ids(p).contains(x) implies answered_ids(resolved_spec(s, p, now)).contains(x) by {
            lemma_contains_append(a_rq, a_l, x);
            lemma_contains_append(a_rq + a_l, a_o, x);
            match last {
                MessageView::ToolResult { tool_call_id, .. } => {
                    assert(answered_ids(p) == answered_ids(q).push(tool_call_id));
                    if x == tool_call_id {
                        assert(a_l =~= seq![tool_call_id]);
                        assert(a_l[0] == x);
                    } else {
                        let k = choose|k: int| 0 <= k < answered_ids(p).len() && answered_ids(p)[k] == x;
                        assert(answered_ids(q)[k] == x);
                        assert(answered_ids(q).contains(x));
                    }
                },
                _ => {
                    assert(answered_ids(p) == answered_ids(q));
                    assert(answered_ids(q).contains(x));
                },
            }
        }
        assert forall|i: int, x: Seq<char>|
            0 <= i < p.len() && #[trigger] calls_with_id(p[i], x) && !answered_ids(s).contains(x)
            implies answered_ids(resolved_spec(s, p, now)).contains(x) by {
            lemma_contains_append(a_rq, a_l, x);
            lemma_contains_append(a_rq + a_l, a_o, x);
            if i < p.len() - 1 {
                assert(q[i] == p[i]);
            } else {
                let content = last.content();
                let j = choose|j: int| 0 <= j < content.len() && (#[trigger] content[j]) is ToolCall && content[j]->0.id == x;
                lemma_orphans_answer(s, content, content, now, j);
            }
        }
    }
}

/// Law: once orphaned calls are resolved, every tool call of the
/// conversation is answered by a tool result carrying its id.
pub proof fn law_every_call_answered(s: Seq<MessageView>, now: u64, i: int, id: Seq<char>)
    requires
        0 <= i < s.len(),
        calls_with_id(s[i], id),
    ensures
        answered_ids(resolved_spec(s, s, now)).contains(id),
{
    lemma_resolved_answers(s, s, now);
}

/// A message whose calls are all answered gets no placeholders.
proof fn lemma_no_orphans(t: Seq<MessageView>, full: Seq<ContentView>, c: Seq<ContentView>, now: u64)
    requires
        forall|j: int| 0 <= j < c.len() && (#[trigger] c[j]) is ToolCall ==> answered_ids(t).contains(c[j]->0.id),
    ensures
        orphans_latest_first(t, full, c, now) == Seq::<MessageView>::empty(),
    decreases c.len(),
{
    if c.len() > 0 {
        let d = c.drop_last();
        assert forall|j: int| 0 <= j < d.len() && (#[trigger] d[j]) is ToolCall implies answered_ids(t).contains(d[j]->0.id) by {
            assert(d[j] == c[j]);
        }
        lemma_no_orphans(t, full, d, now);
        assert(c.last() == c[c.len() - 1]);
    }
}

/// Resolving messages whose calls are all answered adds nothing.
proof fn lemma_resolved_identity(t: Seq<MessageView>, q: Seq<MessageView>, now: u64)
    requires
        forall|i: int, x: Seq<char>|
            0 <= i < q.len() && #[trigger] calls_with_id(q[i], x) ==> answered_ids(t).contains(x),
    ensures
        resolved_spec(t, q, now) == q,
    decreases q.len(),
{
    if q.len() > 0 {
        let d = q.drop_last();
        assert forall|i: int, x: Seq<char>| 0 <= i < d.len() && #[trigger] calls_with_id(d[i], x) implies answered_ids(t).contains(x) by {
            assert(d[i] == q[i]);
        }
        lemma_resolved_identity(t, d, now);
        let m = q.last();
        assert(m == q[q.len() - 1]);
        match m {
            MessageView::Assistant { content, .. } => {
                assert forall|j: int| 0 <= j < content.len() && (#[trigger] content[j]) is ToolCall implies answered_ids(t).contains(content[j]->0.id) by {
                    assert(calls_with_id(q[q.len() - 1], content[j]->0.id));
                }
                lemma_no_orphans(t, content, content, now);
            },
            _ => {},
        }
        assert(d + seq![m] + Seq::<MessageView>::empty() =~= q);
    }
}

/// Every message of a resolved conversation is a tool result or one of the
/// conversation's own messages.
proof fn lemma_resolved_members(s: Seq<MessageView>, p: Seq<MessageView>, now: u64)
    ensures
        forall|i: int|
            0 <= i < resolved_spec(s, p, now).len() ==> (#[trigger] resolved_spec(s, p, now)[i]) is ToolResult
                || exists|k: int| 0 <= k < p.len() && resolved_spec(s, p, now)[i] == p[k],
    decreases p.len(),
{
    if p.len() > 0 {
        let d = p.drop_last();
        lemma_resolved_members(s, d, now);
        let rd = resolved_spec(s, d, now);
        let oa = orphans_after(s, p.last(), now);
        let r = resolved_spec(s, p, now);
        assert(r == rd + seq![p.last()] + oa);
        lemma_orphans_results(s, p.last(), now);
        assert forall|i: int| 0 <= i < r.len() implies (#[trigger] r[i]) is ToolResult || exists|k: int| 0 <= k < p.len() && r[i] == p[k] by {
            if i < rd.len() {
                assert(r[i] == rd[i]);
                if !(rd[i] is ToolResult) {
                    let k = choose|k: int| 0 <= k < d.len() && rd[i] == d[k];
                    assert(d[k] == p[k]);
                }
            } else if i == rd.len() {
                assert(r[i] == p[p.len() - 1]);
            } else {
                assert(r[i] == oa[i - rd.len() - 1]);
            }
        }
    }
}

/// The placeholders that follow a message are tool results.
proof fn lemma_orphans_results(s: Seq<MessageView>, m: MessageView, now: u64)
    ensures
        forall|i: int| 0 <= i < orphans_after(s, m, now).len() ==> (#[trigger] orphans_after(s, m, now)[i]) is ToolResult,
{
    match m {
        MessageView::Assistant { content, .. } => lemma_orphans_latest_results(s, content, content, now),
        _ => {},
    }
}

proof fn lemma_orphans_latest_results(s: Seq<MessageView>, full: Seq<ContentView>, c: Seq<ContentView>, now: u64)
    ensures
        forall|i: int| 0 <= i < orphans_latest_first(s, full, c, now).len() ==> (#[trigger] orphans_latest_first(s, full, c, now)[i]) is ToolResult,
    decreases c.len(),
{
    if c.len() > 0 {
        lemma_orphans_latest_results(s, full, c.drop_last(), now);
        let rest = orphans_latest_first(s, full, c.drop_last(), now);
        match c.last() {
            ContentView::ToolCall(tc) => if !answered_ids(s).contains(tc.id) {
                let o = orphan_result(tc.id, first_call_name(full, tc.id), now);
                let r = seq![o] + rest;
                assert forall|i: int| 0 <= i < r.len() implies (#[trigger] r[i]) is ToolResult by {
                    if i > 0 {
                        assert(r[i] == rest[i - 1]);
                    }
                }
            },
            _ => {},
        }
    }
}

/// Law: resolving orphaned calls a second time changes nothing (whatever
/// time the second pass carries): after the first pass every call is
/// answered.
pub proof fn law_resolve_idempotent(s: Seq<MessageView>, now: u64, later: u64)
    ensures
        resolved_spec(resolved_spec(s, s, now), resolved_spec(s, s, now), later) == resolved_spec(s, s, now),
{
    let t = resolved_spec(s, s, now);
    lemma_resolved_members(s, s, now);
    assert forall|i: int, x: Seq<char>| 0 <= i < t.len() && #[trigger] calls_with_id(t[i], x) implies answered_ids(t).contains(x) by {
        assert(!(t[i] is ToolResult));
        let k = choose|k: int| 0 <= k < s.len() && t[i] == s[k];
        law_every_call_answered(s, now, k, x);
    }
    lemma_resolved_identity(t, t, later);
}

/// The ids of the tool calls answered in the conversation.
fn collect_answered_ids(messages: &Vec<AgentMessage>) -> (r: Vec<String>)
    ensures
        crate::file_ops::strings_view(r@) == answered_ids(messages_view(messages@)),
{
    let mut r: Vec<String> = Vec::new();
    for i in 0..messages.len()
        invariant
            crate::file_ops::strings_view(r@) == answered_ids(messages_view(messages@).take(i as int)),
    {
        proof {
            assert(messages_view(messages@).take(i + 1).drop_last() =~= messages_view(
                messages@,
            ).take(i as int));
        }
        match &messages[i] {
            AgentMessage::ToolResult(t) => {
                r.push(t.tool_call_id.clone());
                proof {
                    assert(crate::file_ops::strings_view(r@) =~= crate::file_ops::strings_view(
                        r@.drop_last(),
                    ).push(t.tool_call_id@));
                }
            },
            _ => {},
        }
    }
    proof {
        assert(messages_view(messages@).take(messages@.len() as int) =~= messages_view(messages@));
    }
    r
}

/// Whether `id` is among `ids`.
fn contains_id(ids: &Vec<String>, id: &str) -> (b: bool)
    ensures
        b == crate::file_ops::strings_view(ids@).contains(id@),
{
    let mut i: usize = 0;
    while i < ids.len()
        invariant
            i <= ids@.len(),
            forall|k: int| 0 <= k < i ==> ids@[k]@ != id@,
        decreases ids@.len() - i,
    {
        if str_eq(ids[i].as_str(), id) {
            proof {
                assert(crate::file_ops::strings_view(ids@)[i as int] == id@);
            }
            return true;
        }
        i = i + 1;
    }
    proof {
        if crate::file_ops::strings_view(ids@).contains(id@) {
            let k = choose|k: int|
                0 <= k < ids@.len() && crate::file_ops::strings_view(ids@)[k] == id@;
            assert(ids@[k]@ == id@);
        }
    }
    false
}

/// The name of the first tool call with the given id among content blocks.
fn call_name(content: &Vec<Content>, id: &str) -> (r: String)
    ensures
        r@ == first_call_name(contents_view(content@), id@),
{
    let mut i: usize = 0;
    proof {
        assert(contents_view(content@).skip(0) =~= contents_view(content@));
    }
    while i < content.len()
        invariant
            i <= content@.len(),
            first_call_name(contents_view(content@), id@) == first_call_name(
                contents_view(content@).skip(i as int),
                id@,
            ),
        decreases content@.len() - i,
    {
        proof {
            assert(contents_view(content@).skip(i as int).drop_first() =~= contents_view(
                content@,
            ).skip(i + 1));
        }
        match &content[i] {
            Content::ToolCall(tc) => {
                if str_eq(tc.id.as_str(), id) {
                    return tc.name.clone();
                }
            },
            _ => {},
        }
        i = i + 1;
    }
    proof {
        assert(contents_view(content@).skip(i as int) =~= Seq::<ContentView>::empty());
    }
    "unknown".to_owned()
}

/// The placeholder result of an unanswered tool call.
fn orphan_message(id: &String, name: String, now_ms: u64) -> (m: AgentMessage)
    ensures
        m@ == orphan_result(id@, name@, now_ms),
{
    let m = AgentMessage::ToolResult(
        ToolResultMessage {
            tool_call_id: id.clone(),
            tool_name: name,
            content: Vec::new(),
            details: Some(
                "{\"_orphan\":true,\"message\":\"tool call was not executed (context truncated or restored)\"}".to_owned(),
            ),
            is_error: true,
            timestamp: now_ms,
        },
    );
    proof {
        assert(contents_view(Seq::<Content>::empty()) =~= Seq::<ContentView>::empty());
    }
    m
}

/// Placeholder results for the unanswered calls of one message, latest first.
fn orphans_of(
    s: Ghost<Seq<MessageView>>,
    ids: &Vec<String>,
    m: &AgentMessage,
    now_ms: u64,
) -> (r: Vec<AgentMessage>)
    requires
        crate::file_ops::strings_view(ids@) == answered_ids(s@),
    ensures
        messages_view(r@) == orphans_after(s@, m@, now_ms),
{
    let mut r: Vec<AgentMessage> = Vec::new();
    match m {
        AgentMessage::Assistant(a) => {
            let ghost full = contents_view(a.content@);
            for i in 0..a.content.len()
                invariant
                    full == contents_view(a.content@),
                    crate::file_ops::strings_view(ids@) == answered_ids(s@),
                    messages_view(r@) == orphans_latest_first(s@, full, full.take(i as int), now_ms),
            {
                proof {
                    assert(full.take(i + 1).drop_last() =~= full.take(i as int));
                }
                match &a.content[i] {
                    Content::ToolCall(tc) => {
                        if !contains_id(ids, tc.id.as_str()) {
                            let name = call_name(&a.content, tc.id.as_str());
                            let o = orphan_message(&tc.id, name, now_ms);
                            r.insert(0, o);
                            proof {
                                assert(messages_view(r@) =~= seq![
                                    orphan_result(tc.id@, first_call_name(full, tc.id@), now_ms),
                                ] + messages_view(r@).drop_first());
                            }
                        }
                    },
                    _ => {},
                }
            }
            proof {
                assert(full.take(a.content@.len() as int) =~= full);
            }
        },
        _ => {
            proof {
                assert(messages_view(r@) =~= Seq::<MessageView>::empty());
            }
        },
    }
    r
}

/// Places, after each assistant message, an error result for every tool call
/// that no tool result in the conversation answers (latest call first), so
/// that the provider sees every call answered. The results carry the time
/// `now_ms`.
pub fn resolve_orphan_tool_calls_at(messages: &mut Vec<AgentMessage>, now_ms: u64)
    ensures
        messages_view(final(messages)@) == resolved_spec(
            messages_view(old(messages)@),
            messages_view(old(messages)@),
            now_ms,
        ),
{
    let ghost s = messages_view(messages@);
    let ids = collect_answered_ids(messages);
    let mut out: Vec<AgentMessage> = Vec::new();
    for i in 0..messages.len()
        invariant
            s == messages_view(messages@),
            crate::file_ops::strings_view(ids@) == answered_ids(s),
            messages_view(out@) == resolved_spec(s, s.take(i as int), now_ms),
    {
        proof {
            assert(s.take(i + 1).drop_last() =~= s.take(i as int));
        }
        let m = messages[i].clone();
        let mut orphans = orphans_of(Ghost(s), &ids, &messages[i], now_ms);
        out.push(m);
        out.append(&mut orphans);
        proof {
            assert(messages_view(out@) =~= resolved_spec(s, s.take(i as int), now_ms) + seq![s[i as int]]
                + orphans_after(s, s[i as int], now_ms));
        }
    }
    proof {
        assert(s.take(messages@.len() as int) =~= s);
    }
    *messages = out;
}

/// Places, after each assistant message, an error result for every tool call
/// that no tool result in the conversation answers (latest call first). The
/// results carry the current time.
pub fn resolve_orphan_tool_calls(messages: &mut Vec<AgentMessage>)
    ensures
        exists|now: u64|
            messages_view(final(messages)@) == resolved_spec(
                messages_view(old(messages)@),
                messages_view(old(messages)@),
                now,
            ),
{
    let now = unix_time_ms();
    resolve_orphan_tool_calls_at(messages, now);
}

/// What the caller of the loop does next.
#[derive(Debug)]
pub enum RunAction {
    /// Drain the steering queue and hand its messages to `on_steer`.
    DrainSteer,
    /// Unless the run was cancelled (then call `on_cancelled`), run a turn
    /// and hand its result to `on_turn_result`.
    RunTurn,
    /// Drain the follow-up queue and hand its messages to `on_follow_ups`.
    DrainFollowUps,
    /// The run is over: it returns the messages it added.
    Finish,
    /// The run failed with this error.
    Fail(AgentError),
}

/// Abstract value of a run action.
pub enum RunActionView {
    DrainSteer,
    RunTurn,
    DrainFollowUps,
    Finish,
    Fail(AgentErrorView),
}

impl View for RunAction {
    type V = RunActionView;

    open spec fn view(&self) -> RunActionView {
        match self {
            RunAction::DrainSteer => RunActionView::DrainSteer,
            RunAction::RunTurn => RunActionView::RunTurn,
            RunAction::DrainFollowUps => RunActionView::DrainFollowUps,
            RunAction::Finish => RunActionView::Finish,
            RunAction::Fail(e) => RunActionView::Fail(e@),
        }
    }
}

/// The conversation of one run of the loop: every message it holds, the
/// messages the run added, and the turn and response counters.
pub struct LoopState {
    messages: Vec<AgentMessage>,
    new_messages: Vec<AgentMessage>,
    turn_index: u64,
    message_index: u64,
    base: Ghost<Seq<MessageView>>,
}

/// Abstract value of a loop state.
pub struct LoopView {
    pub messages: Seq<MessageView>,
    pub new_messages: Seq<MessageView>,
    pub turn_index: u64,
    pub message_index: u64,
}

impl View for LoopState {
    type V = LoopView;

    closed spec fn view(&self) -> LoopView {
        LoopView {
            messages: messages_view(self.messages@),
            new_messages: messages_view(self.new_messages@),
            turn_index: self.turn_index,
            message_index: self.message_index,
        }
    }
}

/// Run actions as transitions of the turn results: tool use runs another
/// turn, a stop drains the follow-ups, an error fails the run.
pub open spec fn after_turn_spec(r: TurnResultView) -> RunActionView {
    match r {
        TurnResultView::ToolUse => RunActionView::RunTurn,
        TurnResultView::Stop => RunActionView::DrainFollowUps,
        TurnResultView::Error(e) => RunActionView::Fail(e),
    }
}

impl LoopState {
    /// The conversation the run started from.
    pub closed spec fn base(&self) -> Seq<MessageView> {
        self.base@
    }

    /// The conversation is the starting one followed by the messages the run
    /// added.
    pub closed spec fn wf(&self) -> bool {
        messages_view(self.messages@) == self.base@ + messages_view(self.new_messages@)
    }

    /// Starts a run on `initial`, or on `replacement` where the start hook
    /// supplied one.
    pub fn new(initial: Vec<AgentMessage>, replacement: Option<Vec<AgentMessage>>) -> (r: Self)
        ensures
            r.wf(),
            r.base() == (match replacement {
                Some(m) => messages_view(m@),
                None => messages_view(initial@),
            }),
            r@.new_messages.len() == 0,
            r@.turn_index == 0,
            r@.message_index == 0,
    {
        let messages = match replacement {
            Some(m) => m,
            None => initial,
        };
        let r = LoopState {
            base: Ghost(messages_view(messages@)),
            messages,
            new_messages: Vec::new(),
            turn_index: 0,
            message_index: 0,
        };
        proof {
            assert(r.base@ + messages_view(r.new_messages@) =~= r.base@);
        }
        r
    }

    /// The first action of a run.
    pub fn start(&self) -> (a: RunAction)
        ensures
            a@ == RunActionView::DrainSteer,
    {
        RunAction::DrainSteer
    }

    /// The number of the current turn (0 before the first).
    pub fn turn_index(&self) -> (n: u64)
        ensures
            n == self@.turn_index,
    {
        self.turn_index
    }

    /// The number of responses recorded so far.
    pub fn message_index(&self) -> (n: u64)
        ensures
            n == self@.message_index,
    {
        self.message_index
    }

    /// The conversation so far.
    pub fn messages(&self) -> (r: &Vec<AgentMessage>)
        ensures
            messages_view(r@) == self@.messages,
    {
        &self.messages
    }

    /// Appends the drained steering messages to the conversation and to the
    /// added messages; a turn follows.
    pub fn on_steer(&mut self, steer: Vec<AgentMessage>) -> (a: RunAction)
        requires
            old(self).wf(),
        ensures
            final(self).wf(),
            final(self).base() == old(self).base(),
            final(self)@.messages == old(self)@.messages + messages_view(steer@),
            final(self)@.new_messages == old(self)@.new_messages + messages_view(steer@),
            final(self)@.turn_index == old(self)@.turn_index,
            final(self)@.message_index == old(self)@.message_index,
            a@ == RunActionView::RunTurn,
    {
        let ghost sv = messages_view(steer@);
        let mut copy = crate::types::clone_messages(&steer);
        let mut steer = steer;
        self.new_messages.append(&mut copy);
        self.messages.append(&mut steer);
        proof {
            assert(messages_view(self.messages@) =~= messages_view(old(self).messages@)
                + sv);
            assert(messages_view(self.new_messages@) =~= messages_view(old(self).new_messages@)
                + sv);
            assert(self.base@ + (messages_view(old(self).new_messages@) + sv) =~= (self.base@
                + messages_view(old(self).new_messages@)) + sv);
        }
        RunAction::RunTurn
    }

    /// The run was cancelled before a turn.
    pub fn on_cancelled(&self) -> (a: RunAction)
        ensures
            a@ == RunActionView::Fail(AgentErrorView::Cancelled),
    {
        RunAction::Fail(AgentError::Cancelled)
    }

    /// Starts a turn and returns its number (counting from 1).
    pub fn begin_turn(&mut self) -> (n: u64)
        requires
            old(self).wf(),
            old(self)@.turn_index < u64::MAX,
        ensures
            final(self).wf(),
            final(self).base() == old(self).base(),
            final(self)@ == (LoopView { turn_index: (old(self)@.turn_index + 1) as u64, ..old(self)@ }),
            n == final(self)@.turn_index,
    {
        self.turn_index = self.turn_index + 1;
        self.turn_index
    }

    /// Records the (possibly hook-modified) response of the model: it joins
    /// the conversation and the added messages, and the response counter
    /// advances.
    pub fn record_response(&mut self, msg: AssistantMessage)
        requires
            old(self).wf(),
            old(self)@.message_index < u64::MAX,
        ensures
            final(self).wf(),
            final(self).base() == old(self).base(),
            final(self)@.messages == old(self)@.messages.push(assistant_view(msg)),
            final(self)@.new_messages == old(self)@.new_messages.push(assistant_view(msg)),
            final(self)@.turn_index == old(self)@.turn_index,
            final(self)@.message_index == old(self)@.message_index + 1,
    {
        self.message_index = self.message_index + 1;
        let copy = msg.clone();
        self.new_messages.push(AgentMessage::Assistant(copy));
        self.messages.push(AgentMessage::Assistant(msg));
        proof {
            assert(messages_view(self.messages@) =~= messages_view(old(self).messages@).push(
                assistant_view(msg),
            ));
            assert(messages_view(self.new_messages@) =~= messages_view(
                old(self).new_messages@,
            ).push(assistant_view(msg)));
        }
    }

    /// Records the results of the executed tools, in order: they join the
    /// conversation and the added messages.
    pub fn record_tool_results(&mut self, results: &Vec<ToolResultMessage>)
        requires
            old(self).wf(),
        ensures
            final(self).wf(),
            final(self).base() == old(self).base(),
            final(self)@.messages == old(self)@.messages + results@.map_values(
                |t: ToolResultMessage| AgentMessage::ToolResult(t)@,
            ),
            final(self)@.new_messages == old(self)@.new_messages + results@.map_values(
                |t: ToolResultMessage| AgentMessage::ToolResult(t)@,
            ),
            final(self)@.turn_index == old(self)@.turn_index,
            final(self)@.message_index == old(self)@.message_index,
    {
        let ghost rv = results@.map_values(|t: ToolResultMessage| AgentMessage::ToolResult(t)@);
        for i in 0..results.len()
            invariant
                rv == results@.map_values(|t: ToolResultMessage| AgentMessage::ToolResult(t)@),
                self.wf(),
                self.base() == old(self).base(),
                messages_view(self.messages@) == messages_view(old(self).messages@) + rv.take(
                    i as int,
                ),
                messages_view(self.new_messages@) == messages_view(old(self).new_messages@)
                    + rv.take(i as int),
                self.turn_index == old(self).turn_index,
                self.message_index == old(self).message_index,
        {
            let a = results[i].clone();
            let b = results[i].clone();
            proof {
                assert(AgentMessage::ToolResult(a)@ == rv[i as int]);
                assert(AgentMessage::ToolResult(b)@ == rv[i as int]);
            }
            let ghost pm = messages_view(self.messages@);
            let ghost pn = messages_view(self.new_messages@);
            self.new_messages.push(AgentMessage::ToolResult(a));
            self.messages.push(AgentMessage::ToolResult(b));
            proof {
                assert(messages_view(self.messages@) =~= pm.push(rv[i as int]));
                assert(messages_view(self.new_messages@) =~= pn.push(rv[i as int]));
                assert(rv.take(i + 1) =~= rv.take(i as int).push(rv[i as int]));
                assert(messages_view(self.messages@) =~= messages_view(old(self).messages@)
                    + rv.take(i + 1));
                assert(messages_view(self.new_messages@) =~= messages_view(
                    old(self).new_messages@,
                ) + rv.take(i + 1));
                assert(self.base@ + messages_view(self.new_messages@) =~= (self.base@ + pn).push(
                    rv[i as int],
                ));
            }
        }
        proof {
            assert(rv.take(results@.len() as int) =~= rv);
        }
    }

    /// The next action after a turn.
    pub fn on_turn_result(&self, r: TurnResult) -> (a: RunAction)
        ensures
            a@ == after_turn_spec(r@),
    {
        match r {
            TurnResult::ToolUse => RunAction::RunTurn,
            TurnResult::Stop => RunAction::DrainFollowUps,
            TurnResult::Error(e) => RunAction::Fail(e),
        }
    }

    /// Appends the drained follow-up messages to the conversation and to the
    /// added messages; with none, the run is over, otherwise it goes on.
    pub fn on_follow_ups(&mut self, follow_ups: Vec<AgentMessage>) -> (a: RunAction)
        requires
            old(self).wf(),
        ensures
            final(self).wf(),
            final(self).base() == old(self).base(),
            final(self)@.messages == old(self)@.messages + messages_view(follow_ups@),
            final(self)@.new_messages == old(self)@.new_messages + messages_view(follow_ups@),
            final(self)@.turn_index == old(self)@.turn_index,
            final(self)@.message_index == old(self)@.message_index,
            a@ == (if follow_ups@.len() == 0 {
                RunActionView::Finish
            } else {
                RunActionView::DrainSteer
            }),
    {
        if follow_ups.len() == 0 {
            proof {
                assert(messages_view(self.messages@) =~= messages_view(self.messages@)
                    + messages_view(follow_ups@));
                assert(messages_view(self.new_messages@) =~= messages_view(self.new_messages@)
                    + messages_view(follow_ups@));
            }
            return RunAction::Finish;
        }
        let ghost fv = messages_view(follow_ups@);
        let mut copy = crate::types::clone_messages(&follow_ups);
        let mut follow_ups = follow_ups;
        self.messages.append(&mut copy);
        self.new_messages.append(&mut follow_ups);
        proof {
            assert(messages_view(self.messages@) =~= messages_view(old(self).messages@)
                + fv);
            assert(messages_view(self.new_messages@) =~= messages_view(old(self).new_messages@)
                + fv);
            assert(self.base@ + (messages_view(old(self).new_messages@) + fv) =~= (self.base@
                + messages_view(old(self).new_messages@)) + fv);
        }
        RunAction::DrainSteer
    }

    /// The messages the run added, which a finished run returns.
    pub fn into_new_messages(self) -> (r: Vec<AgentMessage>)
        ensures
            messages_view(r@) == self@.new_messages,
    {
        self.new_messages
    }
}

/// Law: whatever the run went through, its conversation is the starting one
/// followed by exactly the messages it returns, in order.
pub proof fn law_run_extends_conversation(st: &LoopState)
    requires
        st.wf(),
    ensures
        st@.messages == st.base() + st@.new_messages,
{
}

/// What the caller does after a failed provider attempt.
#[derive(Debug)]
pub enum RetryDecision {
    /// Announce and wait `delay_ms`, then make retry number `attempt`
    /// (counting from 1) of at most `max_attempts`: the payload of the
    /// retry-start event.
    Retry { attempt: u32, max_attempts: u32, delay_ms: u64 },
    /// Stop retrying.
    GiveUp,
}

/// The retry counter of one provider call: retries a retryable failure, with
/// a delay of 100 ms doubled on each retry, until `max_retries` retries were made.
#[derive(Debug, Clone, Copy)]
pub struct LlmRetry {
    pub retry_count: u32,
    pub max_retries: u32,
}

/// One retry decision: the counter after it and whether (and when) to retry.
pub open spec fn retry_step(r: LlmRetry, retryable: bool) -> (LlmRetry, RetryDecision) {
    if retryable && r.retry_count < r.max_retries {
        let c = (r.retry_count + 1) as u32;
        (
            LlmRetry { retry_count: c, ..r },
            RetryDecision::Retry {
                attempt: c,
                max_attempts: r.max_retries,
                delay_ms: backoff_ms(c as nat) as u64,
            },
        )
    } else {
        (r, RetryDecision::GiveUp)
    }
}

/// The response failed transiently: an `Error` stop whose message names a
/// transient condition.
pub open spec fn response_retryable(m: AssistantMessage) -> bool {
    &&& m.stop_reason == StopReason::Error
    &&& m.error_message matches Some(e) && retryable_text(e@)
}

impl LlmRetry {
    /// The counter before the first attempt. Delays up to the 58th retry fit
    /// in 64 bits.
    pub fn new(max_retries: u32) -> (r: Self)
        requires
            max_retries <= 58,
        ensures
            r == (LlmRetry { retry_count: 0, max_retries }),
    {
        LlmRetry { retry_count: 0, max_retries }
    }

    fn step(&mut self, retryable: bool) -> (d: RetryDecision)
        requires
            old(self).max_retries <= 58,
            old(self).retry_count <= old(self).max_retries,
        ensures
            (*final(self), d) == retry_step(*old(self), retryable),
            final(self).retry_count <= final(self).max_retries,
            final(self).max_retries == old(self).max_retries,
    {
        if retryable && self.retry_count < self.max_retries {
            self.retry_count = self.retry_count + 1;
            let delay_ms = backoff_delay(self.retry_count);
            RetryDecision::Retry { attempt: self.retry_count, max_attempts: self.max_retries, delay_ms }
        } else {
            RetryDecision::GiveUp
        }
    }

    /// The provider could not be reached; `retryable` is the provider error's
    /// own verdict. A breaker failure is recorded exactly when it is retryable.
    pub fn on_open_error(&mut self, retryable: bool) -> (d: RetryDecision)
        requires
            old(self).max_retries <= 58,
            old(self).retry_count <= old(self).max_retries,
        ensures
            (*final(self), d) == retry_step(*old(self), retryable),
            final(self).retry_count <= final(self).max_retries,
            final(self).max_retries == old(self).max_retries,
    {
        self.step(retryable)
    }

    /// A response arrived: it is retried when it failed transiently and
    /// retries are left; otherwise it is the call's result. A breaker failure
    /// is recorded exactly when it failed transiently.
    pub fn on_response(&mut self, msg: &AssistantMessage) -> (d: RetryDecision)
        requires
            old(self).max_retries <= 58,
            old(self).retry_count <= old(self).max_retries,
        ensures
            (*final(self), d) == retry_step(*old(self), response_retryable(*msg)),
            final(self).retry_count <= final(self).max_retries,
            final(self).max_retries == old(self).max_retries,
    {
        let retryable = match &msg.error_message {
            Some(e) => msg.stop_reason == StopReason::Error && is_retryable_text(e.as_str()),
            None => false,
        };
        self.step(retryable)
    }
}

/// What a provider call reports to the circuit breaker.
#[derive(Debug, Clone, Copy, PartialEq, Eq, Structural)]
pub struct BreakerUpdate {
    /// Record a failure.
    pub failure: bool,
    /// Then record a success.
    pub success: bool,
}

/// The breaker's bookkeeping when the provider could not be reached: a
/// failure exactly when the error is retryable.
pub fn breaker_on_open_error(retryable: bool) -> (r: BreakerUpdate)
    ensures
        r == (BreakerUpdate { failure: retryable, success: false }),
{
    BreakerUpdate { failure: retryable, success: false }
}

/// The breaker's bookkeeping after a response and the retry decision on
/// it: a failure exactly when the response failed transiently, and a
/// success whenever the response is the call's result (it is not retried).
pub fn breaker_on_response(msg: &AssistantMessage, decision: &RetryDecision) -> (r: BreakerUpdate)
    ensures
        r == (BreakerUpdate { failure: response_retryable(*msg), success: decision is GiveUp }),
{
    let failure = match &msg.error_message {
        Some(e) => msg.stop_reason == StopReason::Error && is_retryable_text(e.as_str()),
        None => false,
    };
    let success = match decision {
        RetryDecision::GiveUp => true,
        RetryDecision::Retry { .. } => false,
    };
    BreakerUpdate { failure, success }
}

/// Law: consecutive retries of one call wait twice as long as the previous.
pub proof fn law_retry_delay_doubles(r: LlmRetry)
    requires
        r.max_retries <= 58,
        1 <= r.retry_count,
        r.retry_count + 1 < r.max_retries,
    ensures
        ({
            let (r1, d1) = retry_step(r, true);
            let (r2, d2) = retry_step(r1, true);
            d1 matches RetryDecision::Retry { delay_ms: a, .. } && d2 matches RetryDecision::Retry {
                delay_ms: b,
                ..
            } && b == 2 * a
        }),
{
    let c = (r.retry_count + 1) as nat;
    crate::harness::error_recovery::lemma_two_pow_mono((c - 1) as nat, 57);
    crate::harness::error_recovery::lemma_two_pow_mono(c, 57);
    crate::harness::error_recovery::lemma_two_pow_shift(57);
    assert((1u64 << 57u64) == 144115188075855872u64) by (bit_vector);
}

/// The counter after `n` retryable failures in a row.
pub open spec fn retries_after(r: LlmRetry, n: nat) -> LlmRetry
    decreases n,
{
    if n == 0 {
        r
    } else {
        retry_step(retries_after(r, (n - 1) as nat), true).0
    }
}

/// From a fresh counter, `k` failures (at most the limit) count `k` retries.
pub proof fn lemma_retries_after_fresh(max: u32, k: nat)
    requires
        k <= max,
    ensures
        retries_after(LlmRetry { retry_count: 0, max_retries: max }, k) == (LlmRetry {
            retry_count: k as u32,
            max_retries: max,
        }),
    decreases k,
{
    if k > 0 {
        lemma_retries_after_fresh(max, (k - 1) as nat);
    }
}

/// Law: from a fresh counter with limit `max`, the `n`-th retryable failure
/// in a row (`n` at most `max`) is retried as attempt `n` of `max` after
/// 100 * 2^(n-1) ms; the failure after the `max`-th retry gives up.
pub proof fn law_retry_sequence(max: u32, n: nat)
    requires
        1 <= n <= max + 1,
    ensures
        ({
            let d = retry_step(retries_after(LlmRetry { retry_count: 0, max_retries: max }, (n - 1) as nat), true).1;
            &&& n <= max ==> d == (RetryDecision::Retry {
                attempt: n as u32,
                max_attempts: max,
                delay_ms: backoff_ms(n) as u64,
            })
            &&& n == max + 1 ==> d is GiveUp
        }),
{
    lemma_retries_after_fresh(max, (n - 1) as nat);
}

/// One event of a streamed response, as far as the loop reads it.
#[derive(Debug)]
pub enum StreamEvent {
    /// More text for the text block at `content_index`.
    TextDelta { content_index: usize, delta: String },
    /// The text block at `content_index` is complete; `text` is its text as
    /// the provider reports it.
    TextEnd { content_index: usize, text: String },
    /// A complete tool call.
    ToolCallEnd { tool_call: ToolCall },
    /// The response is complete.
    Done { reason: StopReason, content: Vec<Content>, usage: Usage },
    /// The response failed.
    Error { stop_reason: StopReason, error_message: Option<String> },
    /// Any event the loop does not read.
    Other,
}

/// Abstract value of a stream event.
pub enum StreamEventView {
    TextDelta { content_index: usize, delta: Seq<char> },
    TextEnd { content_index: usize, text: Seq<char> },
    ToolCallEnd { tool_call: ToolCallView },
    Done { reason: StopReason, content: Seq<ContentView>, usage: Usage },
    Error { stop_reason: StopReason, error_message: Option<Seq<char>> },
    Other,
}

impl View for StreamEvent {
    type V = StreamEventView;

    open spec fn view(&self) -> StreamEventView {
        match self {
            StreamEvent::TextDelta { content_index, delta } => StreamEventView::TextDelta {
                content_index: *content_index,
                delta: delta@,
            },
            StreamEvent::TextEnd { content_index, text } => StreamEventView::TextEnd {
                content_index: *content_index,
                text: text@,
            },
            StreamEvent::ToolCallEnd { tool_call } => StreamEventView::ToolCallEnd {
                tool_call: tool_call@,
            },
            StreamEvent::Done { reason, content, usage } => StreamEventView::Done {
                reason: *reason,
                content: contents_view(content@),
                usage: *usage,
            },
            StreamEvent::Error { stop_reason, error_message } => StreamEventView::Error {
                stop_reason: *stop_reason,
                error_message: opt_str_view(*error_message),
            },
            StreamEvent::Other => StreamEventView::Other,
        }
    }
}

/// Abstract value of a response under assembly.
pub struct AccumulatorView {
    pub content: Seq<ContentView>,
    pub usage: Usage,
    pub stop_reason: StopReason,
    pub error_message: Option<Seq<char>>,
    /// Text received for blocks not yet complete, by block index.
    pub pending: Map<usize, Seq<char>>,
}

/// The response before any event.
pub open spec fn empty_accumulator() -> AccumulatorView {
    AccumulatorView {
        content: Seq::empty(),
        usage: Usage { input_tokens: 0, output_tokens: 0, total_tokens: 0 },
        stop_reason: StopReason::Stop,
        error_message: None,
        pending: Map::empty(),
    }
}

/// The response after one more event. Deltas gather per block; a completed
/// block uses the gathered text, or the reported text if none was gathered;
/// a completion with content replaces what was assembled; an error records
/// its stop reason and message.
pub open spec fn accumulate(a: AccumulatorView, e: StreamEventView) -> AccumulatorView {
    match e {
        StreamEventView::TextDelta { content_index, delta } => AccumulatorView {
            pending: a.pending.insert(
                content_index,
                (if a.pending.dom().contains(content_index) {
                    a.pending[content_index]
                } else {
                    Seq::empty()
                }) + delta,
            ),
            ..a
        },
        StreamEventView::TextEnd { content_index, text } => AccumulatorView {
            content: a.content.push(
                ContentView::Text {
                    text: if a.pending.dom().contains(content_index) {
                        a.pending[content_index]
                    } else {
                        text
                    },
                },
            ),
            pending: a.pending.remove(content_index),
            ..a
        },
        StreamEventView::ToolCallEnd { tool_call } => AccumulatorView {
            content: a.content.push(ContentView::ToolCall(tool_call)),
            ..a
        },
        StreamEventView::Done { reason, content, usage } => AccumulatorView {
            content: if content.len() > 0 {
                content
            } else {
                a.content
            },
            usage,
            stop_reason: reason,
            ..a
        },
        StreamEventView::Error { stop_reason, error_message } => AccumulatorView {
            stop_reason,
            error_message,
            ..a
        },
        StreamEventView::Other => a,
    }
}

/// The gathered texts as a map from block index.
pub open spec fn pending_map(v: Seq<(usize, Seq<char>)>) -> Map<usize, Seq<char>>
    decreases v.len(),
{
    if v.len() == 0 {
        Map::empty()
    } else {
        pending_map(v.drop_last()).insert(v.last().0, v.last().1)
    }
}

/// No block index occurs twice.
pub open spec fn keys_distinct(v: Seq<(usize, Seq<char>)>) -> bool {
    forall|i: int, j: int| 0 <= i < j < v.len() ==> #[trigger] v[i].0 != #[trigger] v[j].0
}

proof fn lemma_pending_map(v: Seq<(usize, Seq<char>)>)
    requires
        keys_distinct(v),
    ensures
        forall|i: int|
            0 <= i < v.len() ==> #[trigger] pending_map(v).dom().contains(v[i].0) && pending_map(
                v,
            )[v[i].0] == v[i].1,
        forall|k: usize|
            #[trigger] pending_map(v).dom().contains(k) ==> exists|i: int|
                0 <= i < v.len() && v[i].0 == k,
    decreases v.len(),
{
    if v.len() > 0 {
        let u = v.drop_last();
        assert(keys_distinct(u));
        lemma_pending_map(u);
        assert(pending_map(v) == pending_map(u).insert(v.last().0, v.last().1));
        assert forall|i: int| 0 <= i < v.len() implies #[trigger] pending_map(v).dom().contains(
            v[i].0,
        ) && pending_map(v)[v[i].0] == v[i].1 by {
            if i < v.len() - 1 {
                assert(u[i] == v[i]);
                assert(v[i].0 != v[v.len() - 1].0);
                assert(pending_map(u).dom().contains(u[i].0) && pending_map(u)[u[i].0] == u[i].1);
            }
        }
        assert forall|k: usize| #[trigger] pending_map(v).dom().contains(k) implies exists|i: int|
            0 <= i < v.len() && v[i].0 == k by {
            if k != v.last().0 {
                assert(pending_map(u).dom().contains(k));
                let i = choose|i: int| 0 <= i < u.len() && u[i].0 == k;
                assert(v[i] == u[i]);
            } else {
                assert(v[v.len() - 1].0 == k);
            }
        }
    }
}

/// Replacing the text at one position changes the map at that key only.
proof fn lemma_pending_map_update(v: Seq<(usize, Seq<char>)>, i: int, x: Seq<char>)
    requires
        keys_distinct(v),
        0 <= i < v.len(),
    ensures
        keys_distinct(v.update(i, (v[i].0, x))),
        pending_map(v.update(i, (v[i].0, x))) == pending_map(v).insert(v[i].0, x),
{
    let w = v.update(i, (v[i].0, x));
    assert forall|a: int, b: int| 0 <= a < b < w.len() implies #[trigger] w[a].0 != #[trigger] w[b].0 by {
        assert(w[a].0 == v[a].0);
        assert(w[b].0 == v[b].0);
    }
    lemma_pending_map(v);
    lemma_pending_map(w);
    let m = pending_map(v).insert(v[i].0, x);
    assert forall|k: usize| #[trigger] pending_map(w).dom().contains(k) <==> m.dom().contains(k) by {
        if pending_map(w).dom().contains(k) {
            let j = choose|j: int| 0 <= j < w.len() && w[j].0 == k;
            assert(v[j].0 == k);
            assert(pending_map(v).dom().contains(v[j].0));
        }
        if m.dom().contains(k) && k != v[i].0 {
            let j = choose|j: int| 0 <= j < v.len() && v[j].0 == k;
            assert(w[j].0 == k);
            assert(pending_map(w).dom().contains(w[j].0));
        }
        if k == v[i].0 {
            assert(pending_map(w).dom().contains(w[i].0));
        }
    }
    assert forall|k: usize| #[trigger] pending_map(w).dom().contains(k) implies pending_map(w)[k]
        == m[k] by {
        let j = choose|j: int| 0 <= j < w.len() && w[j].0 == k;
        assert(pending_map(w).dom().contains(w[j].0));
        assert(pending_map(v).dom().contains(v[j].0));
        if j != i {
            assert(v[j].0 != v[i].0);
        }
    }
    assert(pending_map(w) =~= m);
}

/// Removing a position removes its key from the map.
proof fn lemma_pending_map_remove(v: Seq<(usize, Seq<char>)>, i: int)
    requires
        keys_distinct(v),
        0 <= i < v.len(),
    ensures
        keys_distinct(v.remove(i)),
        pending_map(v.remove(i)) == pending_map(v).remove(v[i].0),
{
    let w = v.remove(i);
    assert forall|a: int, b: int| 0 <= a < b < w.len() implies #[trigger] w[a].0 != #[trigger] w[b].0 by {
        let a0 = if a < i { a } else { a + 1 };
        let b0 = if b < i { b } else { b + 1 };
        assert(w[a] == v[a0]);
        assert(w[b] == v[b0]);
    }
    lemma_pending_map(v);
    lemma_pending_map(w);
    let m = pending_map(v).remove(v[i].0);
    assert forall|k: usize| #[trigger] pending_map(w).dom().contains(k) <==> m.dom().contains(k) by {
        if pending_map(w).dom().contains(k) {
            let j = choose|j: int| 0 <= j < w.len() && w[j].0 == k;
            let j0 = if j < i { j } else { j + 1 };
            assert(w[j] == v[j0]);
            assert(j0 != i);
            assert(pending_map(v).dom().contains(v[j0].0));
        }
        if m.dom().contains(k) {
            let j = choose|j: int| 0 <= j < v.len() && v[j].0 == k;
            assert(j != i);
            let j1 = if j < i { j } else { j - 1 };
            assert(w[j1] == v[j]);
            assert(pending_map(w).dom().contains(w[j1].0));
        }
    }
    assert forall|k: usize| #[trigger] pending_map(w).dom().contains(k) implies pending_map(w)[k]
        == m[k] by {
        let j = choose|j: int| 0 <= j < w.len() && w[j].0 == k;
        let j0 = if j < i { j } else { j + 1 };
        assert(w[j] == v[j0]);
        assert(pending_map(w).dom().contains(w[j].0));
        assert(pending_map(v).dom().contains(v[j0].0));
    }
    assert(pending_map(w) =~= m);
}

/// Abstract value of the gathered texts.
pub open spec fn pending_view(v: Seq<(usize, String)>) -> Seq<(usize, Seq<char>)> {
    v.map_values(|p: (usize, String)| (p.0, p.1@))
}

/// A streamed response under assembly.
#[derive(Debug)]
pub struct ResponseAccumulator {
    content: Vec<Content>,
    usage: Usage,
    stop_reason: StopReason,
    error_message: Option<String>,
    pending: Vec<(usize, String)>,
}

impl View for ResponseAccumulator {
    type V = AccumulatorView;

    closed spec fn view(&self) -> AccumulatorView {
        AccumulatorView {
            content: contents_view(self.content@),
            usage: self.usage,
            stop_reason: self.stop_reason,
            error_message: opt_str_view(self.error_message),
            pending: pending_map(pending_view(self.pending@)),
        }
    }
}

impl ResponseAccumulator {
    /// Internal consistency: no block index is gathered twice.
    pub closed spec fn wf(&self) -> bool {
        keys_distinct(pending_view(self.pending@))
    }

    /// A response before any event.
    pub fn new() -> (r: Self)
        ensures
            r.wf(),
            r@ == empty_accumulator(),
    {
        let r = ResponseAccumulator {
            content: Vec::new(),
            usage: Usage { input_tokens: 0, output_tokens: 0, total_tokens: 0 },
            stop_reason: StopReason::Stop,
            error_message: None,
            pending: Vec::new(),
        };
        proof {
            assert(contents_view(r.content@) =~= Seq::<ContentView>::empty());
            assert(pending_view(r.pending@) =~= Seq::<(usize, Seq<char>)>::empty());
            assert(pending_map(pending_view(r.pending@)) =~= Map::<usize, Seq<char>>::empty());
        }
        r
    }

    fn find_pending(&self, k: usize) -> (r: Option<usize>)
        requires
            self.wf(),
        ensures
            r matches Some(i) ==> i < self.pending@.len() && self.pending@[i as int].0 == k,
            r is None ==> !self@.pending.dom().contains(k),
    {
        let mut i: usize = 0;
        while i < self.pending.len()
            invariant
                i <= self.pending@.len(),
                forall|j: int| 0 <= j < i ==> self.pending@[j].0 != k,
            decreases self.pending@.len() - i,
        {
            if self.pending[i].0 == k {
                return Some(i);
            }
            i = i + 1;
        }
        proof {
            lemma_pending_map(pending_view(self.pending@));
            if self@.pending.dom().contains(k) {
                let j = choose|j: int|
                    0 <= j < pending_view(self.pending@).len() && pending_view(self.pending@)[j].0
                        == k;
                assert(self.pending@[j].0 == k);
            }
        }
        None
    }

    /// Takes in one event; returns whether the stream is to be read further
    /// (an error ends the response).
    pub fn on_event(&mut self, event: StreamEvent) -> (more: bool)
        requires
            old(self).wf(),
        ensures
            final(self).wf(),
            final(self)@ == accumulate(old(self)@, event@),
            more == !(event@ is Error),
    {
        let ghost ev = event@;
        let ghost pv0 = pending_view(self.pending@);
        proof {
            lemma_pending_map(pv0);
        }
        match event {
            StreamEvent::TextDelta { content_index, delta } => {
                match self.find_pending(content_index) {
                    Some(i) => {
                        let (k, text) = self.pending.remove(i);
                        let joined = text.concat(delta.as_str());
                        self.pending.insert(i, (k, joined));
                        proof {
                            let pv = pending_view(self.pending@);
                            assert(pv =~= pv0.update(i as int, (pv0[i as int].0, pv0[i as int].1 + delta@)));
                            lemma_pending_map_update(pv0, i as int, pv0[i as int].1 + delta@);
                        }
                    },
                    None => {
                        self.pending.push((content_index, delta));
                        proof {
                            let pv = pending_view(self.pending@);
                            assert(pv =~= pv0.push((content_index, ev->delta)));
                            assert(pv.drop_last() =~= pv0);
                            assert(keys_distinct(pv));
                            assert(Seq::<char>::empty() + ev->delta =~= ev->delta);
                        }
                    },
                }
                true
            },
            StreamEvent::TextEnd { content_index, text } => {
                match self.find_pending(content_index) {
                    Some(i) => {
                        let (_, gathered) = self.pending.remove(i);
                        proof {
                            assert(gathered@ == pv0[i as int].1);
                        }
                        self.content.push(Content::Text { text: gathered });
                        proof {
                            let pv = pending_view(self.pending@);
                            assert(pv =~= pv0.remove(i as int));
                            lemma_pending_map_remove(pv0, i as int);
                            assert(contents_view(self.content@) =~= contents_view(
                                old(self).content@,
                            ).push(ContentView::Text { text: gathered@ }));
                        }
                    },
                    None => {
                        self.content.push(Content::Text { text });
                        proof {
                            assert(pending_map(pv0).remove(content_index) =~= pending_map(pv0));
                            assert(contents_view(self.content@) =~= contents_view(
                                old(self).content@,
                            ).push(ContentView::Text { text: ev->text }));
                        }
                    },
                }
                true
            },
            StreamEvent::ToolCallEnd { tool_call } => {
                self.content.push(Content::ToolCall(tool_call));
                proof {
                    assert(contents_view(self.content@) =~= contents_view(old(self).content@).push(
                        ContentView::ToolCall(ev->tool_call),
                    ));
                }
                true
            },
            StreamEvent::Done { reason, content, usage } => {
                if content.len() > 0 {
                    self.content = content;
                }
                self.usage = usage;
                self.stop_reason = reason;
                true
            },
            StreamEvent::Error { stop_reason, error_message } => {
                self.error_message = error_message;
                self.stop_reason = stop_reason;
                false
            },
            StreamEvent::Other => true,
        }
    }

    /// The assembled response, stamped with `timestamp`.
    pub fn finish(self, timestamp: u64) -> (m: AssistantMessage)
        ensures
            contents_view(m.content@) == self@.content,
            m.usage == self@.usage,
            m.stop_reason == self@.stop_reason,
            opt_str_view(m.error_message) == self@.error_message,
            m.timestamp == timestamp,
    {
        AssistantMessage {
            content: self.content,
            usage: self.usage,
            stop_reason: self.stop_reason,
            error_message: self.error_message,
            timestamp,
        }
    }
}

/// Index of the first registered tool with the given name.
pub fn find_tool(tools: &Vec<ToolInfo>, name: &str) -> (r: Option<usize>)
    ensures
        r matches Some(i) ==> i < tools@.len() && tools@[i as int].name@ == name@ && forall|j: int|
            0 <= j < i ==> (#[trigger] tools@[j]).name@ != name@,
        r is None ==> forall|j: int| 0 <= j < tools@.len() ==> (#[trigger] tools@[j]).name@ != name@,
{
    let mut i: usize = 0;
    while i < tools.len()
        invariant
            i <= tools@.len(),
            forall|j: int| 0 <= j < i ==> (#[trigger] tools@[j]).name@ != name@,
        decreases tools@.len() - i,
    {
        if str_eq(tools[i].name.as_str(), name) {
            return Some(i);
        }
        i = i + 1;
    }
    None
}

/// The call names a registered tool whose first registration runs sequentially.
pub open spec fn call_is_sequential(tools: Seq<ToolInfo>, name: Seq<char>) -> bool {
    exists|i: int|
        0 <= i < tools.len() && (#[trigger] tools[i]).name@ == name && (forall|j: int|
            0 <= j < i ==> (#[trigger] tools[j]).name@ != name) && tools[i].execution_mode
            == ToolExecutionMode::Sequential
}

/// The calls of a turn run one after another when any of them names a
/// sequential tool; otherwise they run concurrently.
pub open spec fn sequential_spec(calls: Seq<ToolCall>, tools: Seq<ToolInfo>) -> bool {
    exists|k: int| 0 <= k < calls.len() && call_is_sequential(tools, (#[trigger] calls[k]).name@)
}

/// Whether the calls of a turn run one after another.
pub fn sequential_execution(calls: &Vec<ToolCall>, tools: &Vec<ToolInfo>) -> (b: bool)
    ensures
        b == sequential_spec(calls@, tools@),
{
    let mut k: usize = 0;
    while k < calls.len()
        invariant
            k <= calls@.len(),
            forall|m: int| 0 <= m < k ==> !call_is_sequential(tools@, (#[trigger] calls@[m]).name@),
        decreases calls@.len() - k,
    {
        match find_tool(tools, calls[k].name.as_str()) {
            Some(i) => {
                if tools[i].execution_mode == ToolExecutionMode::Sequential {
                    return true;
                }
                proof {
                    assert forall|i2: int|
                        0 <= i2 < tools@.len() && (#[trigger] tools@[i2]).name@ == calls@[k as int].name@
                            && (forall|j: int| 0 <= j < i2 ==> (#[trigger] tools@[j]).name@ != calls@[k as int].name@)
                        implies tools@[i2].execution_mode != ToolExecutionMode::Sequential by {
                        if i2 < i {
                        } else if i2 > i {
                            assert(tools@[i as int].name@ == calls@[k as int].name@);
                        }
                    }
                }
            },
            None => {},
        }
        k = k + 1;
    }
    false
}

/// The answer to a call of an unregistered tool.
pub fn missing_tool_result(tc: &ToolCall, now_ms: u64) -> (r: ToolResultMessage)
    ensures
        AgentMessage::ToolResult(r)@ == result_view(
            *tc,
            Seq::empty(),
            Some("{\"error\":\"tool not found\"}"@),
            true,
            now_ms,
        ),
{
    let r = ToolResultMessage {
        tool_call_id: tc.id.clone(),
        tool_name: tc.name.clone(),
        content: Vec::new(),
        details: Some("{\"error\":\"tool not found\"}".to_owned()),
        is_error: true,
        timestamp: now_ms,
    };
    proof {
        assert(contents_view(r.content@) =~= Seq::<ContentView>::empty());
    }
    r
}

/// The answer to a call whose execution failed: the error's text under `"error"`.
pub fn failed_tool_result(tc: &ToolCall, error: &AgentError, now_ms: u64) -> (r: ToolResultMessage)
    ensures
        AgentMessage::ToolResult(r)@ == result_view(
            *tc,
            Seq::empty(),
            Some("{\"error\":"@ + json_string(error@.text()) + "}"@),
            true,
            now_ms,
        ),
{
    let text = error.to_string();
    let q = quote_json(text.as_str());
    let r = ToolResultMessage {
        tool_call_id: tc.id.clone(),
        tool_name: tc.name.clone(),
        content: Vec::new(),
        details: Some("{\"error\":".to_owned().concat(q.as_str()).concat("}")),
        is_error: true,
        timestamp: now_ms,
    };
    proof {
        assert(contents_view(r.content@) =~= Seq::<ContentView>::empty());
    }
    r
}

/// The answer to a call that the run's cancellation interrupted.
pub fn cancelled_tool_result(tc: &ToolCall, now_ms: u64) -> (r: ToolResultMessage)
    ensures
        AgentMessage::ToolResult(r)@ == result_view(
            *tc,
            Seq::empty(),
            Some("{\"_cancelled\":true}"@),
            true,
            now_ms,
        ),
{
    let r = ToolResultMessage {
        tool_call_id: tc.id.clone(),
        tool_name: tc.name.clone(),
        content: Vec::new(),
        details: Some("{\"_cancelled\":true}".to_owned()),
        is_error: true,
        timestamp: now_ms,
    };
    proof {
        assert(contents_view(r.content@) =~= Seq::<ContentView>::empty());
    }
    r
}

/// The messages a turn sends: the context hook's replacement, or the
/// conversation, with every unanswered tool call answered by a placeholder
/// stamped `now_ms`.
pub fn turn_context(messages: &Vec<AgentMessage>, replacement: Option<Vec<AgentMessage>>, now_ms: u64) -> (r:
    Vec<AgentMessage>)
    ensures
        ({
            let base = match replacement {
                Some(m) => messages_view(m@),
                None => messages_view(messages@),
            };
            messages_view(r@) == resolved_spec(base, base, now_ms)
        }),
{
    let mut transformed = match replacement {
        Some(m) => m,
        None => crate::types::clone_messages(messages),
    };
    resolve_orphan_tool_calls_at(&mut transformed, now_ms);
    transformed
}

/// A hook's prompt changes: its mutation is applied to the current builder;
/// a wholesale replacement, where given, takes the builder's place.
pub fn apply_prompt_changes(
    builder: &mut PromptBuilder,
    prompt_mutation: Option<PromptMutation>,
    replacement: Option<PromptBuilder>,
)
    ensures
        final(builder)@ == (match replacement {
            Some(b) => b@,
            None => match prompt_mutation {
                Some(m) => apply_mutation_spec(old(builder)@, m),
                None => old(builder)@,
            },
        }),
{
    if let Some(m) = prompt_mutation {
        builder.apply_mutation(m);
    }
    if let Some(b) = replacement {
        *builder = b;
    }
}

/// The text a streamed event adds to the response, where it is a text
/// delta: what is forwarded to listeners as it arrives.
pub fn text_delta_of(event: &StreamEvent) -> (r: Option<String>)
    ensures
        (event matches StreamEvent::TextDelta { delta, .. } ==> r matches Some(d) && d@ == delta@),
        (!(event is TextDelta) ==> r is None),
{
    match event {
        StreamEvent::TextDelta { delta, .. } => Some(delta.clone()),
        _ => None,
    }
}

} // verus!
