//! Decisions and mutations returned by extension hooks.
use vstd::prelude::*;

use crate::harness::compaction::CompactionResult;
use crate::harness::agent_loop::apply_prompt_changes;
use crate::prompt::builder::{index_of_id, lemma_index_of_id_props, law_upsert_holds_fragment, truncated, upsert_spec};
use crate::prompt::mutation::{apply_mutation_spec, remove_ids_spec, remove_kinds_spec, remove_sources_spec, upserts_spec};
use crate::prompt::types::{fragments_view, FragmentSource, FragmentView, SourceView};
use crate::prompt::{PromptBuilder, PromptMutation};
use crate::types::{AgentMessage, Content, StopReason};

verus! {

/// Decision returned by first-block-wins hooks.
#[derive(Debug)]
pub enum HookDecision {
    Continue,
    Block { reason: String },
}

impl Default for HookDecision {
    fn default() -> (r: Self)
        ensures
            r is Continue,
    {
        HookDecision::Continue
    }
}

/// Mutation returned by chain hooks for tool results. `details` is JSON text.
#[derive(Debug)]
pub struct ToolResultMutation {
    pub content: Option<Vec<Content>>,
    pub details: Option<String>,
    pub is_error: Option<bool>,
    /// Replaces the terminate flag set by the tool execution.
    pub terminate: Option<bool>,
}

impl Default for ToolResultMutation {
    fn default() -> (r: Self)
        ensures
            r.content is None,
            r.details is None,
            r.is_error is None,
            r.terminate is None,
    {
        ToolResultMutation { content: None, details: None, is_error: None, terminate: None }
    }
}

/// Mutation returned by chain hooks for the context.
#[derive(Debug)]
pub struct ContextMutation {
    pub messages: Option<Vec<AgentMessage>>,
}

impl Default for ContextMutation {
    fn default() -> (r: Self)
        ensures
            r.messages is None,
    {
        ContextMutation { messages: None }
    }
}

/// Mutation returned by blocking hooks for tool calls. `input` is JSON text.
#[derive(Debug)]
pub struct ToolCallMutation {
    pub input: Option<String>,
}

impl Default for ToolCallMutation {
    fn default() -> (r: Self)
        ensures
            r.input is None,
    {
        ToolCallMutation { input: None }
    }
}

/// Decision returned by the before-compact hook.
#[derive(Debug)]
pub enum CompactDecision {
    Continue,
    Block { reason: String },
    Replace { result: CompactionResult },
}

impl Default for CompactDecision {
    fn default() -> (r: Self)
        ensures
            r is Continue,
    {
        CompactDecision::Continue
    }
}

/// Mutation returned by the before-agent-start hook.
#[derive(Debug)]
pub struct BeforeAgentStartMutation {
    /// Wholesale replacement of the prompt builder.
    pub system_prompt: Option<PromptBuilder>,
    /// Surgical prompt mutation applied to the current builder.
    pub prompt_mutation: Option<PromptMutation>,
    pub messages: Option<Vec<AgentMessage>>,
}

impl Default for BeforeAgentStartMutation {
    fn default() -> (r: Self)
        ensures
            r.system_prompt is None,
            r.prompt_mutation is None,
            r.messages is None,
    {
        BeforeAgentStartMutation { system_prompt: None, prompt_mutation: None, messages: None }
    }
}

/// Mutation returned by the after-provider-response hook.
#[derive(Debug)]
pub struct ProviderResponseMutation {
    pub content: Option<Vec<Content>>,
    pub stop_reason: Option<StopReason>,
}

impl Default for ProviderResponseMutation {
    fn default() -> (r: Self)
        ensures
            r.content is None,
            r.stop_reason is None,
    {
        ProviderResponseMutation { content: None, stop_reason: None }
    }
}

/// Folds the next hook's result rewrite into the ones before it: each field
/// the next hook sets replaces the earlier value.
pub fn merge_tool_result_mutation(acc: &mut ToolResultMutation, next: ToolResultMutation)
    ensures
        (match next.content {
            Some(c) => final(acc).content == Some(c),
            None => final(acc).content == old(acc).content,
        }),
        (match next.details {
            Some(d) => final(acc).details == Some(d),
            None => final(acc).details == old(acc).details,
        }),
        final(acc).is_error == (if next.is_error is Some { next.is_error } else { old(acc).is_error }),
        final(acc).terminate == (if next.terminate is Some { next.terminate } else { old(acc).terminate }),
{
    if next.content.is_some() {
        acc.content = next.content;
    }
    if next.details.is_some() {
        acc.details = next.details;
    }
    if next.is_error.is_some() {
        acc.is_error = next.is_error;
    }
    if next.terminate.is_some() {
        acc.terminate = next.terminate;
    }
}

/// A tool-call decision that ends a first-block-wins chain.
pub fn blocks(decision: &HookDecision) -> (b: bool)
    ensures
        b == decision is Block,
{
    matches!(decision, HookDecision::Block { .. })
}

/// A compaction decision that ends a first-block-wins chain (a block or a
/// replacement).
pub fn settles_compaction(decision: &CompactDecision) -> (b: bool)
    ensures
        b == !(decision is Continue),
{
    !matches!(decision, CompactDecision::Continue)
}


/// Folds the next hook's response rewrite into the ones before it: the
/// content and the stop reason it sets replace the earlier ones.
pub fn merge_provider_response_mutation(acc: &mut ProviderResponseMutation, next: ProviderResponseMutation)
    ensures
        (match next.content {
            Some(c) => final(acc).content == Some(c),
            None => final(acc).content == old(acc).content,
        }),
        final(acc).stop_reason == (if next.stop_reason is Some { next.stop_reason } else { old(acc).stop_reason }),
{
    if next.content.is_some() {
        acc.content = next.content;
    }
    if next.stop_reason.is_some() {
        acc.stop_reason = next.stop_reason;
    }
}

/// The prompt fragments after one hook's prompt changes: its replacement
/// builder where it gives one, else its mutation applied to the current
/// fragments (as the agent loop applies a hook's response).
pub open spec fn prompt_step(
    s: Seq<FragmentView>,
    m: Option<PromptMutation>,
    replacement: Option<PromptBuilder>,
) -> Seq<FragmentView> {
    match replacement {
        Some(b) => b@,
        None => match m {
            Some(m) => apply_mutation_spec(s, m),
            None => s,
        },
    }
}

/// Folds the next hook's start-of-run changes into the state of a chain
/// (pipeline mode): its prompt changes are applied to the current builder
/// and its replacement messages take the place of the current ones, so that
/// the next hook sees the output of this one.
pub fn merge_before_agent_start(
    builder: &mut PromptBuilder,
    messages: &mut Vec<AgentMessage>,
    next: BeforeAgentStartMutation,
)
    ensures
        final(builder)@ == prompt_step(old(builder)@, next.prompt_mutation, next.system_prompt),
        (match next.messages {
            Some(m) => *final(messages) == m,
            None => *final(messages) == *old(messages),
        }),
{
    let BeforeAgentStartMutation { system_prompt, prompt_mutation, messages: next_messages } = next;
    apply_prompt_changes(builder, prompt_mutation, system_prompt);
    if let Some(m) = next_messages {
        *messages = m;
    }
}

/// Law: two hooks in a chain that each upsert one fragment, under different
/// ids and with no replacement builder, leave both fragments (cut to the
/// byte limit) in the builder.
pub proof fn law_chained_upserts_kept(
    s: Seq<FragmentView>,
    m1: PromptMutation,
    m2: PromptMutation,
)
    requires
        m1.replace_all is None,
        m2.replace_all is None,
        m1.remove_ids@.len() == 0 && m1.remove_sources@.len() == 0 && m1.remove_kinds@.len() == 0,
        m2.remove_ids@.len() == 0 && m2.remove_sources@.len() == 0 && m2.remove_kinds@.len() == 0,
        m1.upsert_fragments@.len() == 1,
        m2.upsert_fragments@.len() == 1,
        m1.upsert_fragments@[0]@.id != m2.upsert_fragments@[0]@.id,
    ensures
        prompt_step(prompt_step(s, Some(m1), None), Some(m2), None).contains(
            truncated(m1.upsert_fragments@[0]@),
        ),
        prompt_step(prompt_step(s, Some(m1), None), Some(m2), None).contains(
            truncated(m2.upsert_fragments@[0]@),
        ),
{
    broadcast use vstd::seq_lib::group_to_multiset_ensures;

    let f1 = truncated(m1.upsert_fragments@[0]@);
    let f2 = truncated(m2.upsert_fragments@[0]@);
    let fs1 = fragments_view(m1.upsert_fragments@);
    let fs2 = fragments_view(m2.upsert_fragments@);
    assert(fs1.drop_last() =~= Seq::<FragmentView>::empty());
    assert(fs2.drop_last() =~= Seq::<FragmentView>::empty());
    assert(m1.remove_ids@.map_values(|x: String| x@) =~= Seq::<Seq<char>>::empty());
    assert(m1.remove_sources@.map_values(|x: FragmentSource| x@) =~= Seq::<SourceView>::empty());
    assert(m2.remove_ids@.map_values(|x: String| x@) =~= Seq::<Seq<char>>::empty());
    assert(m2.remove_sources@.map_values(|x: FragmentSource| x@) =~= Seq::<SourceView>::empty());
    let t1 = upsert_spec(s, f1);
    assert(remove_ids_spec(s, m1.remove_ids@.map_values(|x: String| x@)) == s);
    assert(remove_sources_spec(s, m1.remove_sources@.map_values(|x: FragmentSource| x@)) == s);
    assert(remove_kinds_spec(s, m1.remove_kinds@) == s);
    assert(fs1.last() == m1.upsert_fragments@[0]@);
    assert(upserts_spec(s, fs1.drop_last()) == s);
    assert(upserts_spec(s, fs1) == t1);
    assert(prompt_step(s, Some(m1), None) == t1);
    let t2 = upsert_spec(t1, f2);
    assert(remove_ids_spec(t1, m2.remove_ids@.map_values(|x: String| x@)) == t1);
    assert(remove_sources_spec(t1, m2.remove_sources@.map_values(|x: FragmentSource| x@)) == t1);
    assert(remove_kinds_spec(t1, m2.remove_kinds@) == t1);
    assert(fs2.last() == m2.upsert_fragments@[0]@);
    assert(upserts_spec(t1, fs2.drop_last()) == t1);
    assert(upserts_spec(t1, fs2) == t2);
    assert(prompt_step(t1, Some(m2), None) == t2);
    law_upsert_holds_fragment(s, f1);
    law_upsert_holds_fragment(t1, f2);
    lemma_index_of_id_props(t1, f2.id);
    assert(t1.to_multiset().count(f1) > 0);
    if index_of_id(t1, f2.id) < t1.len() {
        let old_f = t1[index_of_id(t1, f2.id) as int];
        assert(old_f.id == f2.id);
        assert(old_f != f1);
        assert(t2.to_multiset().count(f1) == t1.to_multiset().insert(f2).remove(old_f).count(f1));
    }
    assert(t2.to_multiset().count(f1) > 0);
}

} // verus!
