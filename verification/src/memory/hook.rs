//! What the memory hooks send and inject: the identity of a memory
//! operation, the recalled memories placed before the conversation, and the
//! text a compaction summary is remembered under.
use vstd::prelude::*;

use crate::harness::session::join;
use crate::hook::mutations::ContextMutation;
use crate::memory::types::MemoryContext;
use crate::types::{messages_view, AgentMessage, Content, ContentView, MessageView, UserMessage};

verus! {

/// The identity of a memory operation of a session.
pub fn memory_context(tenant_id: &str, session_id: &str, model: &str, session_started_at: u64) -> (r:
    MemoryContext)
    ensures
        r.tenant_id@ == tenant_id@,
        r.session_id@ == session_id@,
        r.user_id is None,
        r.model@ == model@,
        r.session_started_at == session_started_at,
{
    MemoryContext {
        tenant_id: tenant_id.to_owned(),
        session_id: session_id.to_owned(),
        user_id: None,
        model: model.to_owned(),
        session_started_at,
    }
}

/// The message that carries recalled memories, separated by rules.
pub open spec fn memory_message(facts: Seq<Seq<char>>, now: u64) -> MessageView {
    MessageView::User {
        content: seq![ContentView::Text { text: "[Memory]\n"@ + join(facts, "\n---\n"@) }],
        timestamp: now,
    }
}

/// The context change of recalled memories: none without memories;
/// otherwise the conversation with the memory message first.
pub fn recalled_context(messages: &Vec<AgentMessage>, facts: &Vec<String>, now_ms: u64) -> (r:
    ContextMutation)
    ensures
        facts@.len() == 0 ==> r.messages is None,
        facts@.len() > 0 ==> (r.messages matches Some(m) && messages_view(m@) == seq![
            memory_message(crate::file_ops::strings_view(facts@), now_ms),
        ] + messages_view(messages@)),
{
    if facts.len() == 0 {
        return ContextMutation { messages: None };
    }
    let ghost fv = crate::file_ops::strings_view(facts@);
    let mut text = "[Memory]\n".to_owned();
    let ghost head = text@;
    for i in 0..facts.len()
        invariant
            fv == crate::file_ops::strings_view(facts@),
            text@ == head + join(fv.take(i as int), "\n---\n"@),
    {
        proof {
            assert(fv.take(i + 1).drop_last() =~= fv.take(i as int));
        }
        if i > 0 {
            text.append("\n---\n");
        }
        text.append(facts[i].as_str());
        proof {
            if i == 0 {
                assert(join(fv.take(0), "\n---\n"@) =~= Seq::<char>::empty());
                assert(text@ =~= head + fv.take(1)[0]);
            } else {
                assert(text@ =~= head + (join(fv.take(i as int), "\n---\n"@) + "\n---\n"@ + fv[i as int]));
            }
        }
    }
    proof {
        assert(fv.take(facts@.len() as int) =~= fv);
    }
    let mut content: Vec<Content> = Vec::new();
    content.push(Content::Text { text });
    let memory = AgentMessage::User(UserMessage { content, timestamp: now_ms });
    let mut out: Vec<AgentMessage> = Vec::new();
    out.push(memory);
    let mut rest = crate::types::clone_messages(messages);
    out.append(&mut rest);
    proof {
        assert(crate::types::contents_view(content@) =~= seq![ContentView::Text { text: text@ }]);
        assert(messages_view(out@) =~= seq![memory_message(fv, now_ms)] + messages_view(messages@));
    }
    ContextMutation { messages: Some(out) }
}

/// The text a compaction summary is remembered under.
pub fn compaction_memory_text(summary: &str) -> (r: String)
    ensures
        r@ == "[Session Compaction Summary]\n"@ + summary@,
{
    "[Session Compaction Summary]\n".to_owned().concat(summary)
}

} // verus!
