//! The entries of a session and the bookkeeping of what was restored and saved.
use vstd::prelude::*;

use crate::harness::compaction::{
    context_tokens_spec, estimate_context_tokens, history_fits, message_entries,
    try_estimate_context_tokens, CompactionResult,
};
use crate::persistence::entry::{
    context_spec, entries_view, last_compaction_index, sendable_messages, summary_message, lemma_last_compaction_index, last_compaction_position,
    CompactionDetails, DetailsView, EntryView, SessionEntry,
};
use crate::system::new_entry_id;
use crate::types::{messages_view, AgentMessage, MessageView};

verus! {

/// Message history of a session.
#[derive(Debug)]
pub struct SessionHistory {
    tenant_id: String,
    session_id: String,
    entries: Vec<SessionEntry>,
    needs_restore: bool,
    last_saved_entry_count: usize,
}

/// Abstract value of a history.
pub struct HistoryView {
    pub tenant_id: Seq<char>,
    pub session_id: Seq<char>,
    pub entries: Seq<EntryView>,
    /// The stored history is still to be loaded.
    pub needs_restore: bool,
    /// How many entries the store already holds.
    pub last_saved_entry_count: usize,
}

impl View for SessionHistory {
    type V = HistoryView;

    closed spec fn view(&self) -> HistoryView {
        HistoryView {
            tenant_id: self.tenant_id@,
            session_id: self.session_id@,
            entries: entries_view(self.entries@),
            needs_restore: self.needs_restore,
            last_saved_entry_count: self.last_saved_entry_count,
        }
    }
}

/// Index of the first entry with the given id.
pub open spec fn entry_index_of(s: Seq<EntryView>, id: u128) -> Option<int> {
    if exists|i: int| 0 <= i < s.len() && (#[trigger] s[i]).id() == id {
        Some(choose|i: int| 0 <= i < s.len() && (#[trigger] s[i]).id() == id && forall|j: int| 0 <= j < i ==> (#[trigger] s[j]).id() != id)
    } else {
        None
    }
}

/// The entries from the one with the given id on; all of them if no entry has it.
pub open spec fn truncate_before_spec(s: Seq<EntryView>, id: u128) -> Seq<EntryView> {
    match entry_index_of(s, id) {
        Some(k) => s.skip(k),
        None => s,
    }
}

/// The entries after a compaction recorded by entry `c`: the compaction
/// entry, then the entries from the first kept one on. Where no entry has
/// the first kept id, nothing is kept after the summary: the entry is
/// appended after all others, so it opens the context.
pub open spec fn compacted_entries_spec(s: Seq<EntryView>, c: EntryView, first_kept: u128) -> Seq<EntryView> {
    match entry_index_of(s, first_kept) {
        Some(k) => seq![c] + s.skip(k),
        None => s.push(c),
    }
}

/// A sequence whose only compaction entry is its first has it as its last
/// compaction.
pub proof fn lemma_first_is_last_compaction(u: Seq<EntryView>)
    requires
        u.len() > 0,
        u[0].is_compaction(),
        forall|m: int| 1 <= m < u.len() ==> !(#[trigger] u[m]).is_compaction(),
    ensures
        last_compaction_index(u) == Some(0int),
    decreases u.len(),
{
    if u.len() > 1 {
        let d = u.drop_last();
        assert forall|m: int| 1 <= m < d.len() implies !(#[trigger] d[m]).is_compaction() by {
            assert(d[m] == u[m]);
        }
        lemma_first_is_last_compaction(d);
    }
}

/// Law: after a compaction whose first kept entry is at position `k` (the
/// first entry with that id), where the kept entries hold no earlier
/// compaction, the model context is the summary followed by the kept
/// messages.
pub proof fn law_compaction_keeps_context(
    s: Seq<EntryView>,
    k: int,
    r: CompactionResult,
    from_extension: bool,
    id: u128,
    timestamp: u64,
    now: u64,
)
    requires
        0 <= k < s.len(),
        s[k].id() == r.first_kept_entry_id,
        forall|j: int| 0 <= j < k ==> (#[trigger] s[j]).id() != r.first_kept_entry_id,
        forall|m: int| k <= m < s.len() ==> !(#[trigger] s[m]).is_compaction(),
    ensures
        context_spec(
            compacted_entries_spec(
                s,
                compaction_entry_spec(r, from_extension, id, timestamp),
                r.first_kept_entry_id,
            ),
            now,
        ) == seq![summary_message(r.summary@, now)] + sendable_messages(s.skip(k)),
{
    let c = compaction_entry_spec(r, from_extension, id, timestamp);
    let u = seq![c] + s.skip(k);
    let w = choose|i: int|
        0 <= i < s.len() && (#[trigger] s[i]).id() == r.first_kept_entry_id && forall|j: int|
            0 <= j < i ==> (#[trigger] s[j]).id() != r.first_kept_entry_id;
    assert(s[k].id() == r.first_kept_entry_id);
    assert(w == k) by {
        if w < k {
        } else if w > k {
        }
    }
    assert(entry_index_of(s, r.first_kept_entry_id) == Some(k));
    assert forall|m: int| 1 <= m < u.len() implies !(#[trigger] u[m]).is_compaction() by {
        assert(u[m] == s[k + m - 1]);
    }
    lemma_first_is_last_compaction(u);
    assert(u.skip(1) =~= s.skip(k));
}

/// The compaction entry that records a compaction result.
pub open spec fn compaction_entry_spec(
    r: CompactionResult,
    from_extension: bool,
    id: u128,
    timestamp: u64,
) -> EntryView {
    EntryView::Compaction {
        id,
        summary: r.summary@,
        first_kept_entry_id: r.first_kept_entry_id,
        tokens_before: r.tokens_before,
        details: match r.details {
            Some(d) => Some(d@),
            None => None,
        },
        from_extension,
        timestamp,
    }
}

/// The history with one more message entry.
pub open spec fn with_message(h: HistoryView, id: u128, m: MessageView) -> HistoryView {
    HistoryView { entries: h.entries.push(EntryView::Message { id, message: m }), ..h }
}

/// The given entry followed by the entries from position `k` on.
fn entry_then_tail(entry: SessionEntry, entries: Vec<SessionEntry>, k: usize) -> (r: Vec<SessionEntry>)
    requires
        k <= entries@.len(),
    ensures
        entries_view(r@) == seq![entry@] + entries_view(entries@).skip(k as int),
{
    let mut entries = entries;
    let ghost s = entries_view(entries@);
    let mut tail = entries.split_off(k);
    let mut fresh: Vec<SessionEntry> = Vec::new();
    fresh.push(entry);
    fresh.append(&mut tail);
    proof {
        assert(entries_view(fresh@) =~= seq![entry@] + s.skip(k as int));
    }
    fresh
}

impl SessionHistory {
    /// An empty history of the given session, to be restored from the store.
    pub fn new(tenant_id: String, session_id: String) -> (r: Self)
        ensures
            r@ == (HistoryView {
                tenant_id: tenant_id@,
                session_id: session_id@,
                entries: Seq::empty(),
                needs_restore: true,
                last_saved_entry_count: 0,
            }),
    {
        let r = SessionHistory {
            tenant_id,
            session_id,
            entries: Vec::new(),
            needs_restore: true,
            last_saved_entry_count: 0,
        };
        proof {
            assert(entries_view(r.entries@) =~= Seq::<EntryView>::empty());
        }
        r
    }

    /// Appends an entry.
    pub fn append_compaction(&mut self, entry: SessionEntry)
        ensures
            final(self)@ == (HistoryView { entries: old(self)@.entries.push(entry@), ..old(self)@ }),
    {
        self.entries.push(entry);
        proof {
            assert(entries_view(self.entries@) =~= entries_view(old(self).entries@).push(entry@));
        }
    }

    /// Appends an entry (as `append_compaction`).
    pub fn append_compaction_entry(&mut self, entry: SessionEntry)
        ensures
            final(self)@ == (HistoryView { entries: old(self)@.entries.push(entry@), ..old(self)@ }),
    {
        self.append_compaction(entry);
    }

    /// Appends a message under the given id.
    pub fn push_with_id(&mut self, msg: AgentMessage, id: u128)
        ensures
            final(self)@ == (HistoryView {
                entries: old(self)@.entries.push(EntryView::Message { id, message: msg@ }),
                ..old(self)@
            }),
    {
        self.append_compaction(SessionEntry::Message { id, message: msg });
    }

    /// Appends a message under a fresh random id.
    pub fn push(&mut self, msg: AgentMessage)
        ensures
            exists|id: u128| final(self)@ == #[trigger] with_message(old(self)@, id, msg@),
    {
        let id = new_entry_id();
        let ghost m = msg@;
        self.push_with_id(msg, id);
        proof {
            assert(self@ == with_message(old(self)@, id, m));
        }
    }

    /// Removes the entries strictly before the one with the given id (which
    /// is kept); nothing if no entry has it.
    pub fn truncate_before(&mut self, boundary: u128)
        ensures
            final(self)@ == (HistoryView {
                entries: truncate_before_spec(old(self)@.entries, boundary),
                ..old(self)@
            }),
    {
        let ghost s = entries_view(self.entries@);
        let mut i: usize = 0;
        while i < self.entries.len()
            invariant
                i <= self.entries@.len(),
                s == entries_view(self.entries@),
                s == entries_view(old(self).entries@),
                *self == *old(self),
                forall|j: int| 0 <= j < i ==> (#[trigger] s[j]).id() != boundary,
            decreases self.entries@.len() - i,
        {
            if self.entries[i].id() == boundary {
                let tail = self.entries.split_off(i);
                self.entries = tail;
                proof {
                    assert(s[i as int].id() == boundary);
                    let k = choose|k: int|
                        0 <= k < s.len() && (#[trigger] s[k]).id() == boundary && forall|j: int|
                            0 <= j < k ==> (#[trigger] s[j]).id() != boundary;
                    assert(k == i) by {
                        if k < i {
                        } else if k > i {
                        }
                    }
                    assert(entries_view(self.entries@) =~= s.skip(i as int));
                }
                return;
            }
            i = i + 1;
        }
    }

    /// The messages of the history, in order (compaction entries left out).
    pub fn messages(&self) -> (r: Vec<AgentMessage>)
        ensures
            messages_view(r@) == message_entries(self@.entries),
    {
        let mut r: Vec<AgentMessage> = Vec::new();
        for i in 0..self.entries.len()
            invariant
                messages_view(r@) == message_entries(entries_view(self.entries@).take(i as int)),
        {
            proof {
                assert(entries_view(self.entries@).take(i + 1).drop_last() =~= entries_view(
                    self.entries@,
                ).take(i as int));
            }
            match &self.entries[i] {
                SessionEntry::Message { message, .. } => {
                    r.push(message.clone());
                    proof {
                        assert(messages_view(r@) =~= messages_view(r@.drop_last()).push(message@));
                    }
                },
                SessionEntry::Compaction { .. } => {},
            }
        }
        proof {
            assert(entries_view(self.entries@).take(self.entries@.len() as int) =~= entries_view(
                self.entries@,
            ));
        }
        r
    }

    /// The entries, in order.
    pub fn entries(&self) -> (r: &[SessionEntry])
        ensures
            entries_view(r@) == self@.entries,
    {
        self.entries.as_slice()
    }

    /// A copy of the entries.
    pub fn entries_clone(&self) -> (r: Vec<SessionEntry>)
        ensures
            entries_view(r@) == self@.entries,
    {
        let r = self.entries.clone();
        proof {
            assert forall|i: int| 0 <= i < r@.len() implies r@[i]@ == self.entries@[i]@ by {
                assert(vstd::pervasive::cloned(self.entries@[i], r@[i]));
            }
            assert(entries_view(r@) =~= entries_view(self.entries@));
        }
        r
    }

    /// Number of entries.
    pub fn len(&self) -> (n: usize)
        ensures
            n == self@.entries.len(),
    {
        self.entries.len()
    }

    /// Whether there are no entries.
    pub fn is_empty(&self) -> (b: bool)
        ensures
            b == (self@.entries.len() == 0),
    {
        self.entries.len() == 0
    }

    /// The time of the latest compaction, if any.
    pub fn last_compaction_timestamp(&self) -> (r: Option<u64>)
        ensures
            r == (match last_compaction_index(self@.entries) {
                Some(k) => match self@.entries[k] {
                    EntryView::Compaction { timestamp, .. } => Some(timestamp),
                    _ => None,
                },
                None => None,
            }),
    {
        proof {
            lemma_last_compaction_index(entries_view(self.entries@));
        }
        match last_compaction_position(self.entries.as_slice()) {
            Some(k) => match &self.entries[k] {
                SessionEntry::Compaction { timestamp, .. } => Some(*timestamp),
                SessionEntry::Message { .. } => None,
            },
            None => None,
        }
    }

    /// Removes every entry (the save counter is left as it is).
    pub fn clear_entries(&mut self)
        ensures
            final(self)@ == (HistoryView { entries: Seq::empty(), ..old(self)@ }),
    {
        self.entries.clear();
        proof {
            assert(entries_view(self.entries@) =~= Seq::<EntryView>::empty());
        }
    }

    /// Whether the stored history is still to be loaded; from now on it is
    /// not (a failed load is not retried).
    pub fn begin_restore(&mut self) -> (b: bool)
        ensures
            b == old(self)@.needs_restore,
            final(self)@ == (HistoryView { needs_restore: false, ..old(self)@ }),
    {
        let b = self.needs_restore;
        self.needs_restore = false;
        b
    }

    /// Takes in the loaded history: a non-empty one replaces the entries and
    /// counts as saved; an empty one changes nothing.
    pub fn restore(&mut self, entries: Vec<SessionEntry>)
        ensures
            entries@.len() > 0 ==> final(self)@ == (HistoryView {
                entries: entries_view(entries@),
                last_saved_entry_count: entries@.len() as usize,
                ..old(self)@
            }),
            entries@.len() == 0 ==> final(self)@ == old(self)@,
    {
        if entries.len() > 0 {
            self.last_saved_entry_count = entries.len();
            self.entries = entries;
        }
    }

    /// How many entries the store already holds.
    pub fn last_saved_entry_count(&self) -> (n: usize)
        ensures
            n == self@.last_saved_entry_count,
    {
        self.last_saved_entry_count
    }

    /// The entries added since the last save, which now count as saved.
    /// The counter must not exceed the entries (after a truncation it can).
    pub fn take_unsaved(&mut self) -> (r: Vec<SessionEntry>)
        requires
            old(self)@.last_saved_entry_count <= old(self)@.entries.len(),
        ensures
            entries_view(r@) == old(self)@.entries.skip(old(self)@.last_saved_entry_count as int),
            final(self)@ == (HistoryView {
                last_saved_entry_count: old(self)@.entries.len() as usize,
                ..old(self)@
            }),
    {
        let mut r: Vec<SessionEntry> = Vec::new();
        let start = self.last_saved_entry_count;
        let mut i = start;
        while i < self.entries.len()
            invariant
                start <= i <= self.entries@.len(),
                self.entries == old(self).entries,
                start == old(self).last_saved_entry_count,
                entries_view(r@) == entries_view(self.entries@).subrange(start as int, i as int),
            decreases self.entries@.len() - i,
        {
            let e = self.entries[i].clone();
            let ghost prev = entries_view(r@);
            r.push(e);
            proof {
                assert(entries_view(r@) =~= prev.push(self.entries@[i as int]@));
                assert(entries_view(r@) =~= entries_view(self.entries@).subrange(
                    start as int,
                    i + 1,
                ));
            }
            i = i + 1;
        }
        self.last_saved_entry_count = self.entries.len();
        proof {
            assert(entries_view(self.entries@).subrange(start as int, self.entries@.len() as int)
                =~= entries_view(self.entries@).skip(start as int));
        }
        r
    }

    /// Position of the first entry with the given id.
    fn position_of(&self, id: u128) -> (r: Option<usize>)
        ensures
            r matches Some(k) ==> entry_index_of(self@.entries, id) == Some(k as int) && k
                < self.entries@.len(),
            r is None ==> entry_index_of(self@.entries, id) is None,
    {
        let ghost s = entries_view(self.entries@);
        let mut i: usize = 0;
        while i < self.entries.len()
            invariant
                i <= self.entries@.len(),
                s == entries_view(self.entries@),
                forall|j: int| 0 <= j < i ==> (#[trigger] s[j]).id() != id,
            decreases self.entries@.len() - i,
        {
            if self.entries[i].id() == id {
                proof {
                    assert(s[i as int].id() == id);
                    let k = choose|k: int|
                        0 <= k < s.len() && (#[trigger] s[k]).id() == id && forall|j: int|
                            0 <= j < k ==> (#[trigger] s[j]).id() != id;
                    assert(k == i) by {
                        if k < i {
                        } else if k > i {
                        }
                    }
                }
                return Some(i);
            }
            i = i + 1;
        }
        None
    }

    /// Records a compaction: the entries before the first kept one are
    /// dropped and the compaction entry (under `id`, stamped `timestamp`)
    /// goes in front of the kept ones, so that the context is the summary
    /// followed by the kept messages.
    pub fn apply_compaction(
        &mut self,
        result: &CompactionResult,
        from_extension: bool,
        id: u128,
        timestamp: u64,
    )
        ensures
            final(self)@ == (HistoryView {
                entries: compacted_entries_spec(
                    old(self)@.entries,
                    compaction_entry_spec(*result, from_extension, id, timestamp),
                    result.first_kept_entry_id,
                ),
                ..old(self)@
            }),
    {
        let details = match &result.details {
            Some(d) => Some(d.clone()),
            None => None,
        };
        let entry = SessionEntry::Compaction {
            id,
            summary: result.summary.clone(),
            first_kept_entry_id: result.first_kept_entry_id,
            tokens_before: result.tokens_before,
            details,
            from_extension,
            timestamp,
        };
        let ghost c = entry@;
        match self.position_of(result.first_kept_entry_id) {
            Some(k) => {
                let mut entries: Vec<SessionEntry> = Vec::new();
                std::mem::swap(&mut entries, &mut self.entries);
                let fresh = entry_then_tail(entry, entries, k);
                self.entries = fresh;
            },
            None => {
                self.append_compaction_entry(entry);
            },
        }
    }

    /// Keeps only the last `n` entries; the entries before the cut are
    /// returned (with the ones kept), or `None` when nothing was cut.
    pub fn keep_last(&mut self, n: usize) -> (r: Option<Vec<SessionEntry>>)
        ensures
            old(self)@.entries.len() > n ==> (r matches Some(all) && entries_view(all@) == old(
                self,
            )@.entries && final(self)@ == (HistoryView {
                entries: old(self)@.entries.skip(old(self)@.entries.len() - n),
                ..old(self)@
            })),
            old(self)@.entries.len() <= n ==> r is None && final(self)@ == old(self)@,
    {
        if self.entries.len() > n {
            let split_at = self.entries.len() - n;
            let old_entries = self.entries_clone();
            let tail = self.entries.split_off(split_at);
            self.entries = tail;
            proof {
                assert(entries_view(self.entries@) =~= entries_view(old(self).entries@).skip(
                    split_at as int,
                ));
            }
            Some(old_entries)
        } else {
            None
        }
    }

    /// The context size estimate of the history.
    pub fn estimate_tokens(&self) -> (n: usize)
        requires
            history_fits(self@.entries),
        ensures
            n == context_tokens_spec(self@.entries),
    {
        estimate_context_tokens(self.entries.as_slice())
    }

    /// The context size estimate of the history, or `None` if its weight does
    /// not fit a `usize`.
    pub fn try_estimate_tokens(&self) -> (r: Option<usize>)
        ensures
            r matches Some(n) ==> history_fits(self@.entries) && n == context_tokens_spec(
                self@.entries,
            ),
            r is None ==> !history_fits(self@.entries),
    {
        try_estimate_context_tokens(self.entries.as_slice())
    }
}

} // verus!
