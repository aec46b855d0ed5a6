//! Entries of a session history and the model context built from them.
use vstd::prelude::*;

use crate::file_ops::strings_view;
use crate::system::unix_time_ms;
use crate::types::{
    clone_messages, AgentMessage, Content, ContentView, MessageView, StopReason, UserMessage,
};

verus! {

/// Files read and modified in a compacted segment.
#[derive(Debug)]
pub struct CompactionDetails {
    pub read_files: Vec<String>,
    pub modified_files: Vec<String>,
}

/// Abstract value of compaction details.
pub struct DetailsView {
    pub read_files: Seq<Seq<char>>,
    pub modified_files: Seq<Seq<char>>,
}

impl View for CompactionDetails {
    type V = DetailsView;

    open spec fn view(&self) -> DetailsView {
        DetailsView {
            read_files: strings_view(self.read_files@),
            modified_files: strings_view(self.modified_files@),
        }
    }
}

impl Clone for CompactionDetails {
    fn clone(&self) -> (r: Self)
        ensures
            r@ == self@,
    {
        let read_files = self.read_files.clone();
        let modified_files = self.modified_files.clone();
        proof {
            assert(strings_view(read_files@) =~= strings_view(self.read_files@));
            assert(strings_view(modified_files@) =~= strings_view(self.modified_files@));
        }
        CompactionDetails { read_files, modified_files }
    }
}

/// A single entry in the session history. Ids are 128-bit values.
#[derive(Debug)]
pub enum SessionEntry {
    /// A standard message (user, assistant, tool result).
    Message { id: u128, message: AgentMessage },
    /// A compaction boundary: marks where old messages were summarized.
    /// Entries before it are not sent to the model.
    Compaction {
        id: u128,
        summary: String,
        first_kept_entry_id: u128,
        tokens_before: usize,
        details: Option<CompactionDetails>,
        from_extension: bool,
        /// Milliseconds since the Unix epoch.
        timestamp: u64,
    },
}

/// Abstract value of an entry.
pub enum EntryView {
    Message { id: u128, message: MessageView },
    Compaction {
        id: u128,
        summary: Seq<char>,
        first_kept_entry_id: u128,
        tokens_before: usize,
        details: Option<DetailsView>,
        from_extension: bool,
        timestamp: u64,
    },
}

impl View for SessionEntry {
    type V = EntryView;

    open spec fn view(&self) -> EntryView {
        match self {
            SessionEntry::Message { id, message } => EntryView::Message { id: *id, message: message@ },
            SessionEntry::Compaction {
                id,
                summary,
                first_kept_entry_id,
                tokens_before,
                details,
                from_extension,
                timestamp,
            } => EntryView::Compaction {
                id: *id,
                summary: summary@,
                first_kept_entry_id: *first_kept_entry_id,
                tokens_before: *tokens_before,
                details: match details {
                    Some(d) => Some(d@),
                    None => None,
                },
                from_extension: *from_extension,
                timestamp: *timestamp,
            },
        }
    }
}

impl Clone for SessionEntry {
    fn clone(&self) -> (r: Self)
        ensures
            r@ == self@,
    {
        match self {
            SessionEntry::Message { id, message } => SessionEntry::Message {
                id: *id,
                message: message.clone(),
            },
            SessionEntry::Compaction {
                id,
                summary,
                first_kept_entry_id,
                tokens_before,
                details,
                from_extension,
                timestamp,
            } => SessionEntry::Compaction {
                id: *id,
                summary: summary.clone(),
                first_kept_entry_id: *first_kept_entry_id,
                tokens_before: *tokens_before,
                details: match details {
                    Some(d) => Some(d.clone()),
                    None => None,
                },
                from_extension: *from_extension,
                timestamp: *timestamp,
            },
        }
    }
}

/// Abstract value of a list of entries.
pub open spec fn entries_view(v: Seq<SessionEntry>) -> Seq<EntryView> {
    v.map_values(|e: SessionEntry| e@)
}

impl EntryView {
    pub open spec fn id(self) -> u128 {
        match self {
            EntryView::Message { id, .. } => id,
            EntryView::Compaction { id, .. } => id,
        }
    }

    pub open spec fn is_compaction(self) -> bool {
        self is Compaction
    }
}

impl SessionEntry {
    /// The entry's id.
    pub fn id(&self) -> (r: u128)
        ensures
            r == self@.id(),
    {
        match self {
            SessionEntry::Message { id, .. } => *id,
            SessionEntry::Compaction { id, .. } => *id,
        }
    }
}

/// Index of the last compaction entry, if any.
pub open spec fn last_compaction_index(s: Seq<EntryView>) -> Option<int>
    decreases s.len(),
{
    if s.len() == 0 {
        None
    } else if s.last().is_compaction() {
        Some(s.len() - 1)
    } else {
        last_compaction_index(s.drop_last())
    }
}

/// The messages of entries that go to the model: assistant messages that
/// ended in error are left out (they stay in the transcript only).
pub open spec fn sendable_messages(s: Seq<EntryView>) -> Seq<MessageView>
    decreases s.len(),
{
    if s.len() == 0 {
        Seq::empty()
    } else {
        let prev = sendable_messages(s.drop_last());
        match s.last() {
            EntryView::Message { message, .. } => match message {
                MessageView::Assistant { stop_reason, .. } => if stop_reason == StopReason::Error {
                    prev
                } else {
                    prev.push(message)
                },
                _ => prev.push(message),
            },
            _ => prev,
        }
    }
}

/// The user message that carries a compaction summary.
pub open spec fn summary_message(summary: Seq<char>, timestamp: u64) -> MessageView {
    MessageView::User {
        content: seq![ContentView::Text { text: "[Context Summary]\n"@ + summary }],
        timestamp,
    }
}

/// The model context of a history, the summary message stamped `now`: the
/// latest compaction's summary (if any) followed by the sendable messages
/// after it.
pub open spec fn context_spec(s: Seq<EntryView>, now: u64) -> Seq<MessageView> {
    match last_compaction_index(s) {
        Some(k) => match s[k] {
            EntryView::Compaction { summary, .. } => seq![summary_message(summary, now)]
                + sendable_messages(s.skip(k + 1)),
            _ => Seq::empty(),
        },
        None => sendable_messages(s),
    }
}

/// `last_compaction_index` names a compaction entry, and none comes after it.
pub proof fn lemma_last_compaction_index(s: Seq<EntryView>)
    ensures
        last_compaction_index(s) matches Some(k) ==> 0 <= k < s.len() && s[k].is_compaction() && forall|
            m: int,
        |
            k < m < s.len() ==> !s[m].is_compaction(),
        last_compaction_index(s) is None ==> forall|m: int|
            0 <= m < s.len() ==> !s[m].is_compaction(),
    decreases s.len(),
{
    if s.len() > 0 && !s.last().is_compaction() {
        lemma_last_compaction_index(s.drop_last());
        assert forall|m: int| 0 <= m < s.len() - 1 implies s[m] == s.drop_last()[m] by {}
    }
}

/// Position of the last compaction entry.
pub fn last_compaction_position(entries: &[SessionEntry]) -> (r: Option<usize>)
    ensures
        r matches Some(k) ==> last_compaction_index(entries_view(entries@)) == Some(k as int),
        r is None ==> last_compaction_index(entries_view(entries@)) is None,
{
    let mut i = entries.len();
    proof {
        assert(entries_view(entries@).take(i as int) =~= entries_view(entries@));
    }
    while i > 0
        invariant
            i <= entries@.len(),
            last_compaction_index(entries_view(entries@)) == last_compaction_index(
                entries_view(entries@).take(i as int),
            ),
        decreases i,
    {
        proof {
            assert(entries_view(entries@).take(i as int).drop_last() =~= entries_view(entries@).take(
                i - 1,
            ));
        }
        if let SessionEntry::Compaction { .. } = &entries[i - 1] {
            return Some(i - 1);
        }
        i = i - 1;
    }
    None
}

/// Builds the model context from history entries.
pub struct SessionContextBuilder;

impl SessionContextBuilder {
    /// The context to send to the model: entries before the last compaction
    /// boundary are skipped, its summary is injected first as a user message
    /// (stamped with the current time), and assistant messages that ended in
    /// error are left out.
    pub fn build_context(entries: &[SessionEntry]) -> (r: Vec<AgentMessage>)
        ensures
            exists|now: u64| crate::types::messages_view(r@) == context_spec(entries_view(entries@), now),
    {
        proof {
            assert(entries_view(entries@).take(entries@.len() as int) =~= entries_view(entries@));
        }
        let last = last_compaction_position(entries);
        let mut messages: Vec<AgentMessage> = Vec::new();
        let mut start: usize = 0;
        let now = unix_time_ms();
        proof {
            lemma_last_compaction_index(entries_view(entries@));
        }
        if let Some(k) = last {
            if let SessionEntry::Compaction { summary, .. } = &entries[k] {
                let mut text = String::from_str("[Context Summary]\n");
                text.append(summary.as_str());
                let mut content: Vec<Content> = Vec::new();
                content.push(Content::Text { text });
                messages.push(AgentMessage::User(UserMessage { content, timestamp: now }));
                proof {
                    assert(crate::types::contents_view(content@) =~= seq![
                        ContentView::Text { text: "[Context Summary]\n"@ + summary@ },
                    ]);
                }
            }
            start = k + 1;
        }
        let ghost head = crate::types::messages_view(messages@);
        let ghost tail = entries_view(entries@).skip(start as int);
        let n = entries.len();
        let mut i = start;
        proof {
            lemma_last_compaction_index(entries_view(entries@));
            assert(tail.take(0) =~= Seq::<EntryView>::empty());
        }
        while i < n
            invariant
                n == entries@.len(),
                start <= i <= n,
                tail == entries_view(entries@).skip(start as int),
                crate::types::messages_view(messages@) == head + sendable_messages(
                    tail.take(i - start),
                ),
            decreases n - i,
        {
            proof {
                assert(tail.take(i - start + 1).drop_last() =~= tail.take(i - start));
                assert(tail.take(i - start + 1).last() == entries@[i as int]@);
            }
            if let SessionEntry::Message { message, .. } = &entries[i] {
                let skip = match message {
                    AgentMessage::Assistant(a) => a.stop_reason == StopReason::Error,
                    _ => false,
                };
                if !skip {
                    let ghost before = crate::types::messages_view(messages@);
                    let c = message.clone();
                    messages.push(c);
                    proof {
                        assert(crate::types::messages_view(messages@) =~= before.push(message@));
                        assert(sendable_messages(tail.take(i - start + 1)) == sendable_messages(
                            tail.take(i - start),
                        ).push(message@));
                        assert(crate::types::messages_view(messages@) =~= head + sendable_messages(
                            tail.take(i - start + 1),
                        ));
                    }
                }
            }
            i = i + 1;
        }
        proof {
            assert(tail.take(n - start) =~= tail);
            if last is None {
                assert(tail =~= entries_view(entries@));
                assert(head =~= Seq::<MessageView>::empty());
                assert(crate::types::messages_view(messages@) =~= context_spec(entries_view(entries@), now));
            } else {
                assert(crate::types::messages_view(messages@) =~= context_spec(entries_view(entries@), now));
            }
        }
        messages
    }
}

} // verus!
