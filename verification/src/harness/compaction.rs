//! Context compaction: token estimates, the cut point that splits the history
//! into a summarized part and a kept part, and the preparation of a summary.
use vstd::prelude::*;

use crate::error::CompactionError;
use crate::file_ops::{
    assistant_calls, strings_view, DefaultFileOperationExtractor, FileOperationExtractor,
    FileOperations,
};
use crate::json::{compact_json_len, json_compact_len};
use crate::persistence::entry::{
    entries_view, last_compaction_index, last_compaction_position, lemma_last_compaction_index,
    CompactionDetails, DetailsView, EntryView, SessionEntry,
};
use crate::harness::agent_loop::StreamEvent;
use crate::harness::session::{join, text_blocks};
use crate::text::{ceil_quarter, ceil_quarter_exec, strictly_sorted, utf8_len};
use crate::types::{
    clone_messages, messages_view, opt_str_view, AgentMessage, Content, ContentView, MessageView,
    StopReason, Usage,
};

verus! {

// ============================================================================
// Config
// ============================================================================

/// Configuration for automatic context compaction.
#[derive(Debug, Clone, Copy)]
pub struct CompactionConfig {
    pub enabled: bool,
    pub reserve_tokens: usize,
    pub keep_recent_tokens: usize,
}

impl CompactionConfig {
    pub fn new(enabled: bool, reserve_tokens: usize, keep_recent_tokens: usize) -> (r: Self)
        ensures
            r == (CompactionConfig { enabled, reserve_tokens, keep_recent_tokens }),
    {
        CompactionConfig { enabled, reserve_tokens, keep_recent_tokens }
    }
}

impl Default for CompactionConfig {
    fn default() -> (r: Self)
        ensures
            r == (CompactionConfig { enabled: false, reserve_tokens: 0, keep_recent_tokens: 0 }),
    {
        CompactionConfig { enabled: false, reserve_tokens: 0, keep_recent_tokens: 0 }
    }
}

// ============================================================================
// Result and preparation
// ============================================================================

/// Output of a successful compaction.
#[derive(Debug)]
pub struct CompactionResult {
    pub summary: String,
    pub first_kept_entry_id: u128,
    pub tokens_before: usize,
    pub details: Option<CompactionDetails>,
}

/// What a compaction summarizes and keeps.
#[derive(Debug)]
pub struct CompactionPreparation {
    pub first_kept_entry_id: u128,
    pub messages_to_summarize: Vec<AgentMessage>,
    pub turn_prefix_messages: Vec<AgentMessage>,
    pub is_split_turn: bool,
    pub tokens_before: usize,
    pub previous_summary: Option<String>,
    pub file_ops: FileOperations,
}

// ============================================================================
// Token estimation
// ============================================================================

/// Characters (UTF-8 bytes) a content block counts for. Images count 4800;
/// thinking and tool calls count only in assistant messages.
pub open spec fn block_chars(c: ContentView, assistant: bool) -> nat {
    match c {
        ContentView::Text { text } => utf8_len(text),
        ContentView::Image { .. } => 4800,
        ContentView::Thinking { thinking } => if assistant {
            utf8_len(thinking)
        } else {
            0
        },
        ContentView::ToolCall(tc) => if assistant {
            utf8_len(tc.name) + json_compact_len(tc.arguments)
        } else {
            0
        },
    }
}

/// Characters a list of content blocks counts for.
pub open spec fn blocks_chars(c: Seq<ContentView>, assistant: bool) -> nat
    decreases c.len(),
{
    if c.len() == 0 {
        0
    } else {
        blocks_chars(c.drop_last(), assistant) + block_chars(c.last(), assistant)
    }
}

/// Characters a message counts for.
pub open spec fn message_chars(m: MessageView) -> nat {
    match m {
        MessageView::User { content, .. } => blocks_chars(content, false),
        MessageView::Assistant { content, .. } => blocks_chars(content, true),
        MessageView::ToolResult { content, .. } => blocks_chars(content, false),
    }
}

/// Estimated tokens of a message: a quarter of its characters, rounded up.
pub open spec fn message_tokens(m: MessageView) -> nat {
    ceil_quarter(message_chars(m))
}

/// Estimated tokens of an entry (compaction entries count nothing).
pub open spec fn entry_tokens(e: EntryView) -> nat {
    match e {
        EntryView::Message { message, .. } => message_tokens(message),
        _ => 0,
    }
}

/// Estimated tokens of the entries `s[i..end)`.
pub open spec fn range_tokens(s: Seq<EntryView>, i: int, end: int) -> nat
    decreases end - i,
{
    if i >= end {
        0
    } else {
        entry_tokens(s[i]) + range_tokens(s, i + 1, end)
    }
}

/// The usage an assistant entry reports, when it can serve as the baseline
/// (the response neither aborted nor failed, and reported tokens).
pub open spec fn usage_baseline(e: EntryView) -> Option<nat> {
    match e {
        EntryView::Message { message: MessageView::Assistant { stop_reason, usage, .. }, .. } => {
            if stop_reason != StopReason::Aborted && stop_reason != StopReason::Error && (
            usage.total_tokens as usize) > 0 {
                Some((usage.total_tokens as usize) as nat)
            } else {
                None
            }
        },
        _ => None,
    }
}

/// Index of the last entry with a usage baseline.
pub open spec fn last_usage_index(s: Seq<EntryView>) -> Option<int>
    decreases s.len(),
{
    if s.len() == 0 {
        None
    } else if usage_baseline(s.last()) is Some {
        Some(s.len() - 1)
    } else {
        last_usage_index(s.drop_last())
    }
}

/// `last_usage_index` names an entry with a baseline, and none after it has one.
pub proof fn lemma_last_usage_index(s: Seq<EntryView>)
    ensures
        last_usage_index(s) matches Some(k) ==> 0 <= k < s.len() && usage_baseline(s[k]) is Some
            && forall|m: int| k < m < s.len() ==> usage_baseline(#[trigger] s[m]) is None,
        last_usage_index(s) is None ==> forall|m: int|
            0 <= m < s.len() ==> usage_baseline(#[trigger] s[m]) is None,
    decreases s.len(),
{
    if s.len() > 0 && usage_baseline(s.last()) is None {
        lemma_last_usage_index(s.drop_last());
        assert forall|m: int| 0 <= m < s.len() - 1 implies s[m] == s.drop_last()[m] by {}
    }
}

/// Estimated context size: the last reported usage plus estimates of the
/// messages after it, or estimates of all messages when none reported usage.
pub open spec fn context_tokens_spec(s: Seq<EntryView>) -> nat {
    match last_usage_index(s) {
        Some(i) => usage_baseline(s[i]).unwrap() + range_tokens(s, i + 1, s.len() as int),
        None => range_tokens(s, 0, s.len() as int),
    }
}

/// What an entry adds to the weight of a history: its message characters
/// and the usage it reports.
pub open spec fn entry_weight(e: EntryView) -> nat {
    match e {
        EntryView::Message { message, .. } => message_chars(message) + match message {
            MessageView::Assistant { usage, .. } => (usage.total_tokens as usize) as nat,
            _ => 0,
        },
        _ => 0,
    }
}

/// Size of a history against which every estimate is computed: all message
/// characters and all reported usage.
pub open spec fn history_weight(s: Seq<EntryView>) -> nat
    decreases s.len(),
{
    if s.len() == 0 {
        0
    } else {
        history_weight(s.drop_last()) + entry_weight(s.last())
    }
}

/// The estimates of a history fit in a `usize`.
pub open spec fn history_fits(s: Seq<EntryView>) -> bool {
    history_weight(s) <= usize::MAX
}

/// Whether compaction should trigger.
pub open spec fn should_compact_spec(tokens: usize, window: usize, config: CompactionConfig) -> bool {
    config.enabled && window > 0 && tokens > (if window >= config.reserve_tokens {
        window - config.reserve_tokens
    } else {
        0
    })
}

/// Characters of a prefix of content blocks never exceed the whole.
proof fn lemma_blocks_chars_prefix(c: Seq<ContentView>, assistant: bool, i: int)
    requires
        0 <= i <= c.len(),
    ensures
        blocks_chars(c.take(i), assistant) <= blocks_chars(c, assistant),
    decreases c.len() - i,
{
    if i < c.len() {
        lemma_blocks_chars_prefix(c, assistant, i + 1);
        assert(c.take(i + 1).drop_last() =~= c.take(i));
    } else {
        assert(c.take(i) =~= c);
    }
}

/// A quarter rounded up never exceeds the whole.
proof fn lemma_ceil_quarter_le(n: nat)
    ensures
        ceil_quarter(n) <= n,
{
}

/// Estimated tokens of a message.
fn estimate_tokens(message: &AgentMessage) -> (r: usize)
    requires
        message_chars(message@) <= usize::MAX,
    ensures
        r == message_tokens(message@),
{
    let (content, assistant) = match message {
        AgentMessage::User(u) => (&u.content, false),
        AgentMessage::Assistant(a) => (&a.content, true),
        AgentMessage::ToolResult(t) => (&t.content, false),
    };
    let ghost cv = crate::types::contents_view(content@);
    assert(message_chars(message@) == blocks_chars(cv, assistant));
    let mut chars: usize = 0;
    let n = content.len();
    for i in 0..n
        invariant
            n == content@.len(),
            cv == crate::types::contents_view(content@),
            blocks_chars(cv, assistant) <= usize::MAX,
            chars == blocks_chars(cv.take(i as int), assistant),
    {
        proof {
            assert(cv.take(i + 1).drop_last() =~= cv.take(i as int));
            assert(cv.take(i + 1).last() == content@[i as int]@);
            lemma_blocks_chars_prefix(cv, assistant, i + 1);
        }
        let add: usize = match &content[i] {
            Content::Text { text } => text.as_str().len(),
            Content::Image { .. } => 4800,
            Content::Thinking { thinking } => if assistant {
                thinking.as_str().len()
            } else {
                0
            },
            Content::ToolCall(tc) => if assistant {
                let a = tc.name.as_str().len();
                let b = compact_json_len(tc.arguments.as_str());
                a + b
            } else {
                0
            },
        };
        chars = chars + add;
    }
    proof {
        assert(cv.take(n as int) =~= cv);
    }
    ceil_quarter_exec(chars)
}

/// Range tokens split at a middle point.
proof fn lemma_range_tokens_split(s: Seq<EntryView>, i: int, j: int, end: int)
    requires
        i <= j <= end,
    ensures
        range_tokens(s, i, end) == range_tokens(s, i, j) + range_tokens(s, j, end),
    decreases j - i,
{
    if i < j {
        lemma_range_tokens_split(s, i + 1, j, end);
    }
}

/// The estimates of a prefix weigh no more than the whole.
proof fn lemma_history_weight_prefix(s: Seq<EntryView>, i: int)
    requires
        0 <= i <= s.len(),
    ensures
        history_weight(s.take(i)) <= history_weight(s),
    decreases s.len() - i,
{
    if i < s.len() {
        lemma_history_weight_prefix(s, i + 1);
        assert(s.take(i + 1).drop_last() =~= s.take(i));
    } else {
        assert(s.take(i) =~= s);
    }
}

/// The tokens of a range weigh no more than the entries of the range.
proof fn lemma_range_weight(s: Seq<EntryView>, i: int, j: int)
    requires
        0 <= i <= j <= s.len(),
    ensures
        range_tokens(s, i, j) + history_weight(s.take(i)) <= history_weight(s.take(j)),
    decreases j - i,
{
    if i < j {
        lemma_range_weight(s, i, j - 1);
        lemma_range_tokens_split(s, i, j - 1, j);
        assert(s.take(j).drop_last() =~= s.take(j - 1));
        assert(s.take(j).last() == s[j - 1]);
        assert(range_tokens(s, j, j) == 0);
        assert(range_tokens(s, j - 1, j) == entry_tokens(s[j - 1]));
        if let EntryView::Message { message, .. } = s[j - 1] {
            lemma_ceil_quarter_le(message_chars(message));
        }
    }
}

/// Estimated context size of a history.
pub fn estimate_context_tokens(entries: &[SessionEntry]) -> (r: usize)
    requires
        history_fits(entries_view(entries@)),
    ensures
        r == context_tokens_spec(entries_view(entries@)),
{
    let ghost s = entries_view(entries@);
    let n = entries.len();
    let mut last: Option<usize> = None;
    let mut last_tokens: usize = 0;
    for i in 0..n
        invariant
            n == entries@.len(),
            s == entries_view(entries@),
            last matches Some(k) ==> k < i && last_usage_index(s.take(i as int)) == Some(k as int)
                && last_tokens == usage_baseline(s[k as int]).unwrap(),
            last is None ==> last_usage_index(s.take(i as int)) is None && last_tokens == 0,
    {
        proof {
            assert(s.take(i + 1).drop_last() =~= s.take(i as int));
            assert(s.take(i + 1).last() == entries@[i as int]@);
        }
        if let SessionEntry::Message { message: AgentMessage::Assistant(a), .. } = &entries[i] {
            let total = a.usage.total_tokens as usize;
            if a.stop_reason != StopReason::Aborted && a.stop_reason != StopReason::Error && total
                > 0 {
                last = Some(i);
                last_tokens = total;
            }
        }
    }
    proof {
        assert(s.take(n as int) =~= s);
    }
    let start = match last {
        Some(k) => k + 1,
        None => 0,
    };
    let mut tokens: usize = last_tokens;
    let mut i = start;
    proof {
        lemma_history_weight_prefix(s, start as int);
        if let Some(k) = last {
            assert(s.take(k + 1).drop_last() =~= s.take(k as int));
            assert(s.take(k + 1).last() == s[k as int]);
            assert(history_weight(s.take(k + 1)) == history_weight(s.take(k as int)) + entry_weight(
                s[k as int],
            ));
            lemma_last_usage_index(s);
            assert(usage_baseline(s[k as int]).unwrap() <= entry_weight(s[k as int]));
        }
        assert(range_tokens(s, start as int, start as int) == 0);
    }
    while i < n
        invariant
            n == entries@.len(),
            s == entries_view(entries@),
            start <= i <= n,
            tokens == last_tokens + range_tokens(s, start as int, i as int),
            tokens <= history_weight(s.take(i as int)),
            history_fits(s),
        decreases n - i,
    {
        proof {
            lemma_range_tokens_split(s, start as int, i as int, i + 1);
            lemma_history_weight_prefix(s, i + 1);
            assert(s.take(i + 1).drop_last() =~= s.take(i as int));
            assert(s.take(i + 1).last() == s[i as int]);
            assert(range_tokens(s, i + 1, i + 1) == 0);
            assert(range_tokens(s, i as int, i + 1) == entry_tokens(s[i as int]));
        }
        if let SessionEntry::Message { message, .. } = &entries[i] {
            proof {
                lemma_ceil_quarter_le(message_chars(message@));
            }
            let t = estimate_tokens(message);
            tokens = tokens + t;
        }
        i = i + 1;
    }
    tokens
}

/// Whether compaction should trigger: enabled, a known window, and more
/// tokens than the window minus the reserve.
pub fn should_compact(tokens: usize, window: usize, config: &CompactionConfig) -> (b: bool)
    ensures
        b == should_compact_spec(tokens, window, *config),
{
    config.enabled && window > 0 && tokens > window.saturating_sub(config.reserve_tokens)
}

// ============================================================================
// Cut point detection
// ============================================================================

/// The entry is a user or assistant message (a place where a cut may fall;
/// tool results never start the kept part).
pub open spec fn is_cut_entry(e: EntryView) -> bool {
    e matches EntryView::Message { message, .. } && (message is User || message is Assistant)
}

/// The entry is a user message.
pub open spec fn is_user_entry(e: EntryView) -> bool {
    e matches EntryView::Message { message, .. } && message is User
}

/// Indices in `[start, end)` of the entries where a cut may fall, increasing.
pub open spec fn cut_points_spec(s: Seq<EntryView>, start: int, end: int) -> Seq<int>
    decreases end - start,
{
    if end <= start {
        Seq::empty()
    } else {
        let p = cut_points_spec(s, start, end - 1);
        if is_cut_entry(s[end - 1]) {
            p.push(end - 1)
        } else {
            p
        }
    }
}

/// Walking back from `i - 1` to `start`, the first message entry from which
/// the kept messages (up to `end`) reach `keep` estimated tokens.
pub open spec fn reach_spec(s: Seq<EntryView>, start: int, i: int, end: int, keep: nat) -> Option<
    int,
>
    decreases i - start,
{
    if i <= start {
        None
    } else if s[i - 1] is Message && range_tokens(s, i - 1, end) >= keep {
        Some(i - 1)
    } else {
        reach_spec(s, start, i - 1, end, keep)
    }
}

/// The first element of `cps` that is at least `i`.
pub open spec fn first_at_or_after(cps: Seq<int>, i: int) -> Option<int>
    decreases cps.len(),
{
    if cps.len() == 0 {
        None
    } else if cps[0] >= i {
        Some(cps[0])
    } else {
        first_at_or_after(cps.drop_first(), i)
    }
}

/// The last user message in `[start, idx]`.
pub open spec fn turn_start_spec(s: Seq<EntryView>, idx: int, start: int) -> Option<int>
    decreases idx - start + 1,
{
    if idx < start {
        None
    } else if is_user_entry(s[idx]) {
        Some(idx)
    } else {
        turn_start_spec(s, idx - 1, start)
    }
}

/// Where to cut `s[start..end)` so that about `keep` tokens are kept.
#[derive(Debug)]
pub struct CutPoint {
    pub first_kept_entry_index: usize,
    pub turn_start_index: Option<usize>,
    pub is_split_turn: bool,
}

/// Abstract cut point: first kept index, start of the split turn, split.
pub open spec fn cut_point_spec(s: Seq<EntryView>, start: int, end: int, keep: nat) -> (
    int,
    Option<int>,
    bool,
) {
    let cps = cut_points_spec(s, start, end);
    if cps.len() == 0 {
        (start, None, false)
    } else {
        let cut = match reach_spec(s, start, end, end, keep) {
            None => cps[0],
            Some(j) => match first_at_or_after(cps, j) {
                Some(c) => c,
                None => cps[0],
            },
        };
        let is_user = is_user_entry(s[cut]);
        let ts = if is_user {
            None
        } else {
            turn_start_spec(s, cut, start)
        };
        (cut, ts, !is_user && ts is Some)
    }
}

impl CutPoint {
    pub open spec fn view_triple(self) -> (int, Option<int>, bool) {
        (
            self.first_kept_entry_index as int,
            match self.turn_start_index {
                Some(t) => Some(t as int),
                None => None,
            },
            self.is_split_turn,
        )
    }
}

/// Cut points lie in `[start, end)`, increase, and are cut entries.
pub proof fn lemma_cut_points_props(s: Seq<EntryView>, start: int, end: int)
    ensures
        forall|m: int|
            0 <= m < cut_points_spec(s, start, end).len() ==> start <= #[trigger] cut_points_spec(
                s,
                start,
                end,
            )[m] < end && is_cut_entry(s[cut_points_spec(s, start, end)[m]]),
    decreases end - start,
{
    if end > start {
        lemma_cut_points_props(s, start, end - 1);
        let p = cut_points_spec(s, start, end - 1);
        let c = cut_points_spec(s, start, end);
        assert forall|m: int| 0 <= m < c.len() implies start <= #[trigger] c[m] < end && is_cut_entry(s[c[m]]) by {
            if m < p.len() {
                assert(c[m] == p[m]);
            }
        }
    }
}

/// The first cut point at or after `i` is one of the cut points.
pub proof fn lemma_first_at_or_after(cps: Seq<int>, i: int)
    ensures
        first_at_or_after(cps, i) matches Some(c) ==> cps.contains(c) && c >= i,
    decreases cps.len(),
{
    if cps.len() > 0 && cps[0] < i {
        lemma_first_at_or_after(cps.drop_first(), i);
        if let Some(c) = first_at_or_after(cps, i) {
            let k = choose|k: int| 0 <= k < cps.drop_first().len() && cps.drop_first()[k] == c;
            assert(cps[k + 1] == c);
        }
    } else if cps.len() > 0 {
        assert(cps[0] == cps[0]);
    }
}

/// The turn start is a user entry within `[start, idx]`.
pub proof fn lemma_turn_start(s: Seq<EntryView>, idx: int, start: int)
    ensures
        turn_start_spec(s, idx, start) matches Some(t) ==> start <= t <= idx && is_user_entry(s[t]),
    decreases idx - start + 1,
{
    if idx >= start && !is_user_entry(s[idx]) {
        lemma_turn_start(s, idx - 1, start);
    }
}

/// Law: a cut never falls on a tool result: where the range holds a user or
/// assistant message, the first kept entry is one, and the start of a split
/// turn is a user message.
pub proof fn law_cut_at_message(s: Seq<EntryView>, start: int, end: int, keep: nat)
    requires
        0 <= start <= end <= s.len(),
        cut_points_spec(s, start, end).len() > 0,
    ensures
        is_cut_entry(s[cut_point_spec(s, start, end, keep).0]),
        cut_point_spec(s, start, end, keep).1 matches Some(t) ==> is_user_entry(s[t]),
{
    let cps = cut_points_spec(s, start, end);
    lemma_cut_points_props(s, start, end);
    let cut = cut_point_spec(s, start, end, keep).0;
    if let Some(j) = reach_spec(s, start, end, end, keep) {
        lemma_first_at_or_after(cps, j);
        if let Some(c) = first_at_or_after(cps, j) {
            let k = choose|k: int| 0 <= k < cps.len() && cps[k] == c;
            assert(is_cut_entry(s[cps[k]]));
        } else {
            assert(is_cut_entry(s[cps[0]]));
        }
    } else {
        assert(is_cut_entry(s[cps[0]]));
    }
    lemma_turn_start(s, cut, start);
}

/// Indices of the entries in `[start, end)` where a cut may fall.
fn find_valid_cut_points(entries: &[SessionEntry], start: usize, end: usize) -> (r: Vec<usize>)
    requires
        start <= end <= entries@.len(),
    ensures
        r@.map_values(|i: usize| i as int) == cut_points_spec(entries_view(entries@), start as int, end as int),
{
    let ghost s = entries_view(entries@);
    let mut points: Vec<usize> = Vec::new();
    let mut i = start;
    proof {
        assert(points@.map_values(|i: usize| i as int) =~= cut_points_spec(s, start as int, start as int));
    }
    while i < end
        invariant
            start <= i <= end <= entries@.len(),
            s == entries_view(entries@),
            points@.map_values(|i: usize| i as int) == cut_points_spec(s, start as int, i as int),
        decreases end - i,
    {
        proof {
            assert(s[i as int] == entries@[i as int]@);
        }
        let keep = match &entries[i] {
            SessionEntry::Message { message, .. } => message.is_user() || message.is_assistant(),
            _ => false,
        };
        if keep {
            points.push(i);
        }
        proof {
            assert(points@.map_values(|i: usize| i as int) =~= cut_points_spec(s, start as int, i + 1));
        }
        i = i + 1;
    }
    points
}

/// The last user message in `[start, entry_index]`.
fn find_turn_start_index(entries: &[SessionEntry], entry_index: usize, start: usize) -> (r: Option<
    usize,
>)
    requires
        start <= entry_index < entries@.len(),
    ensures
        r matches Some(t) ==> turn_start_spec(entries_view(entries@), entry_index as int, start as int)
            == Some(t as int),
        r is None ==> turn_start_spec(entries_view(entries@), entry_index as int, start as int) is None,
{
    let ghost s = entries_view(entries@);
    let _n = entries.len();
    let mut i = entry_index + 1;
    while i > start
        invariant
            start <= i <= entry_index + 1,
            entry_index < entries@.len(),
            s == entries_view(entries@),
            turn_start_spec(s, entry_index as int, start as int) == turn_start_spec(
                s,
                i - 1,
                start as int,
            ),
        decreases i,
    {
        proof {
            assert(s[i - 1] == entries@[i - 1]@);
        }
        if let SessionEntry::Message { message: AgentMessage::User(_), .. } = &entries[i - 1] {
            return Some(i - 1);
        }
        i = i - 1;
    }
    None
}

/// Where to cut `entries[start..end)` so that about `keep_recent_tokens`
/// estimated tokens are kept: walking back from the newest entry, the first
/// message entry where the kept tokens reach the budget, moved forward to the
/// next user or assistant message; a cut inside a turn is marked as split.
pub fn find_cut_point(
    entries: &[SessionEntry],
    start_index: usize,
    end_index: usize,
    keep_recent_tokens: usize,
) -> (r: CutPoint)
    requires
        start_index <= end_index <= entries@.len(),
        history_fits(entries_view(entries@)),
    ensures
        r.view_triple() == cut_point_spec(
            entries_view(entries@),
            start_index as int,
            end_index as int,
            keep_recent_tokens as nat,
        ),
{
    let ghost s = entries_view(entries@);
    let cut_points = find_valid_cut_points(entries, start_index, end_index);
    let ghost cps = cut_points_spec(s, start_index as int, end_index as int);
    proof {
        lemma_cut_points_props(s, start_index as int, end_index as int);
    }
    if cut_points.len() == 0 {
        return CutPoint {
            first_kept_entry_index: start_index,
            turn_start_index: None,
            is_split_turn: false,
        };
    }
    assert(cut_points@[0] as int == cps[0]);
    let mut accumulated: usize = 0;
    let mut cut_index = cut_points[0];
    let mut i = end_index;
    proof {
        lemma_history_weight_prefix(s, end_index as int);
        lemma_history_weight_prefix(s, end_index as int);
        assert(range_tokens(s, end_index as int, end_index as int) == 0);
    }
    while i > start_index
        invariant_except_break
            accumulated == range_tokens(s, i as int, end_index as int),
            reach_spec(s, start_index as int, end_index as int, end_index as int, keep_recent_tokens as nat)
                == reach_spec(s, start_index as int, i as int, end_index as int, keep_recent_tokens as nat),
            cut_index as int == cps[0],
        invariant
            start_index <= i <= end_index <= entries@.len(),
            s == entries_view(entries@),
            history_fits(s),
            history_weight(s.take(end_index as int)) <= history_weight(s),
            cut_points@.map_values(|i: usize| i as int) == cps,
            cps.len() > 0,
        ensures
            reach_spec(s, start_index as int, end_index as int, end_index as int, keep_recent_tokens as nat)
                matches Some(j) ==> (match first_at_or_after(cps, j) {
                Some(c) => cut_index as int == c,
                None => cut_index as int == cps[0],
            }),
            reach_spec(s, start_index as int, end_index as int, end_index as int, keep_recent_tokens as nat)
                is None ==> cut_index as int == cps[0],
        decreases i,
    {
        let j = i - 1;
        proof {
            assert(s[j as int] == entries@[j as int]@);
            lemma_range_weight(s, j as int, end_index as int);
            lemma_history_weight_prefix(s, j as int);
            lemma_range_tokens_split(s, j as int, i as int, end_index as int);
            assert(range_tokens(s, i as int, i as int) == 0);
            assert(range_tokens(s, j as int, i as int) == entry_tokens(s[j as int]));
        }
        if let SessionEntry::Message { message, .. } = &entries[j] {
            proof {
                lemma_history_weight_prefix(s, j + 1);
                assert(s.take(j + 1).drop_last() =~= s.take(j as int));
                assert(s.take(j + 1).last() == s[j as int]);
                lemma_history_weight_prefix(s, j + 1);
            }
            let t = estimate_tokens(message);
            accumulated = accumulated + t;
            if accumulated >= keep_recent_tokens {
                let mut k: usize = 0;
                let mut found = false;
                proof {
                    assert(cps.skip(0) =~= cps);
                }
                while k < cut_points.len()
                    invariant_except_break
                        !found,
                        cut_index as int == cps[0],
                    invariant
                        k <= cut_points@.len(),
                        cut_points@.map_values(|i: usize| i as int) == cps,
                        first_at_or_after(cps, j as int) == first_at_or_after(cps.skip(k as int), j as int),
                        cps.len() > 0,
                    ensures
                        found ==> first_at_or_after(cps, j as int) == Some(cut_index as int),
                        !found ==> first_at_or_after(cps, j as int) is None && cut_index as int == cps[0],
                    decreases cut_points@.len() - k,
                {
                    proof {
                        assert(cps.skip(k as int).drop_first() =~= cps.skip(k + 1));
                        assert(cps.skip(k as int)[0] == cut_points@[k as int] as int);
                    }
                    if cut_points[k] >= j {
                        cut_index = cut_points[k];
                        found = true;
                        break;
                    }
                    k = k + 1;
                }
                proof {
                    assert(reach_spec(s, start_index as int, i as int, end_index as int, keep_recent_tokens as nat)
                        == Some(j as int));
                }
                break;
            }
        }
        i = j;
    }
    proof {
        lemma_cut_points_props(s, start_index as int, end_index as int);
        if let Some(j) = reach_spec(s, start_index as int, end_index as int, end_index as int, keep_recent_tokens as nat) {
            lemma_first_at_or_after(cps, j);
        }
        assert(cps.contains(cut_index as int));
    }
    let is_user_msg = match &entries[cut_index] {
        SessionEntry::Message { message: AgentMessage::User(_), .. } => true,
        _ => false,
    };
    assert(is_user_msg == is_user_entry(s[cut_index as int]));
    let turn_start_index = if is_user_msg {
        None
    } else {
        find_turn_start_index(entries, cut_index, start_index)
    };
    CutPoint {
        first_kept_entry_index: cut_index,
        turn_start_index,
        is_split_turn: !is_user_msg && turn_start_index.is_some(),
    }
}

// ============================================================================
// Weighing a history
// ============================================================================

/// Characters of a content block, or `None` when they exceed a `usize`.
fn block_chars_checked(c: &Content, assistant: bool) -> (r: Option<usize>)
    ensures
        r matches Some(n) ==> n == block_chars(c@, assistant),
        r is None ==> block_chars(c@, assistant) > usize::MAX,
{
    match c {
        Content::Text { text } => crate::text::utf8_len_checked(text.as_str()),
        Content::Image { .. } => Some(4800),
        Content::Thinking { thinking } => if assistant {
            crate::text::utf8_len_checked(thinking.as_str())
        } else {
            Some(0)
        },
        Content::ToolCall(tc) => if assistant {
            match crate::text::utf8_len_checked(tc.name.as_str()) {
                Some(a) => a.checked_add(compact_json_len(tc.arguments.as_str())),
                None => None,
            }
        } else {
            Some(0)
        },
    }
}

/// Characters of a message, or `None` when they exceed a `usize`.
fn message_chars_checked(message: &AgentMessage) -> (r: Option<usize>)
    ensures
        r matches Some(c) ==> c == message_chars(message@),
        r is None ==> message_chars(message@) > usize::MAX,
{
    let (content, assistant) = match message {
        AgentMessage::User(u) => (&u.content, false),
        AgentMessage::Assistant(a) => (&a.content, true),
        AgentMessage::ToolResult(t) => (&t.content, false),
    };
    let ghost cv = crate::types::contents_view(content@);
    assert(message_chars(message@) == blocks_chars(cv, assistant));
    let mut chars: usize = 0;
    let n = content.len();
    for i in 0..n
        invariant
            n == content@.len(),
            cv == crate::types::contents_view(content@),
            chars == blocks_chars(cv.take(i as int), assistant),
            message_chars(message@) == blocks_chars(cv, assistant),
    {
        proof {
            assert(cv.take(i + 1).drop_last() =~= cv.take(i as int));
            assert(cv.take(i + 1).last() == content@[i as int]@);
            lemma_blocks_chars_prefix(cv, assistant, i + 1);
        }
        let add = block_chars_checked(&content[i], assistant);
        match add {
            Some(a) => match chars.checked_add(a) {
                Some(c) => {
                    chars = c;
                },
                None => {
                    return None;
                },
            },
            None => {
                return None;
            },
        }
    }
    proof {
        assert(cv.take(n as int) =~= cv);
    }
    Some(chars)
}

/// The weight of a history, or `None` when it exceeds a `usize` (the
/// estimates of a history can be computed exactly when it fits).
pub fn weigh_history(entries: &[SessionEntry]) -> (r: Option<usize>)
    ensures
        r matches Some(w) ==> w == history_weight(entries_view(entries@)),
        r is None ==> !history_fits(entries_view(entries@)),
{
    let ghost s = entries_view(entries@);
    let mut total: usize = 0;
    let n = entries.len();
    for i in 0..n
        invariant
            n == entries@.len(),
            s == entries_view(entries@),
            total == history_weight(s.take(i as int)),
    {
        proof {
            assert(s.take(i + 1).drop_last() =~= s.take(i as int));
            assert(s.take(i + 1).last() == entries@[i as int]@);
            lemma_history_weight_prefix(s, i + 1);
        }
        if let SessionEntry::Message { message, .. } = &entries[i] {
            let usage: usize = match message {
                AgentMessage::Assistant(a) => a.usage.total_tokens as usize,
                _ => 0,
            };
            match message_chars_checked(message) {
                Some(c) => match total.checked_add(c) {
                    Some(t) => match t.checked_add(usage) {
                        Some(t2) => {
                            total = t2;
                        },
                        None => {
                            return None;
                        },
                    },
                    None => {
                        return None;
                    },
                },
                None => {
                    return None;
                },
            }
        }
    }
    proof {
        assert(s.take(n as int) =~= s);
    }
    Some(total)
}

/// Estimated context size of a history, or `None` when its estimates do not
/// fit in a `usize`.
pub fn try_estimate_context_tokens(entries: &[SessionEntry]) -> (r: Option<usize>)
    ensures
        r matches Some(t) ==> t == context_tokens_spec(entries_view(entries@)),
        r is None <==> !history_fits(entries_view(entries@)),
{
    match weigh_history(entries) {
        Some(_) => Some(estimate_context_tokens(entries)),
        None => None,
    }
}

// ============================================================================
// Preparation
// ============================================================================

/// The messages held by a list of entries, in order.
pub open spec fn message_entries(s: Seq<EntryView>) -> Seq<MessageView>
    decreases s.len(),
{
    if s.len() == 0 {
        Seq::empty()
    } else {
        match s.last() {
            EntryView::Message { message, .. } => message_entries(s.drop_last()).push(message),
            _ => message_entries(s.drop_last()),
        }
    }
}

/// Index of the first message entry with the given id.
pub open spec fn message_index_of(s: Seq<EntryView>, id: u128) -> Option<int>
    decreases s.len(),
{
    if s.len() == 0 {
        None
    } else {
        match s[0] {
            EntryView::Message { id: i, .. } if i == id => Some(0),
            _ => match message_index_of(s.drop_first(), id) {
                Some(k) => Some(k + 1),
                None => None,
            },
        }
    }
}

/// Where the part to summarize starts: at the entry the last compaction
/// kept first (if it is still there), else after that compaction, else at 0.
pub open spec fn boundary_start_spec(s: Seq<EntryView>) -> int {
    match last_compaction_index(s) {
        Some(idx) => match s[idx] {
            EntryView::Compaction { first_kept_entry_id, .. } => match message_index_of(
                s,
                first_kept_entry_id,
            ) {
                Some(p) => p,
                None => idx + 1,
            },
            _ => 0,
        },
        None => 0,
    }
}

/// The summary of the last compaction, if any.
pub open spec fn previous_summary_spec(s: Seq<EntryView>) -> Option<Seq<char>> {
    match last_compaction_index(s) {
        Some(idx) => match s[idx] {
            EntryView::Compaction { summary, .. } => Some(summary),
            _ => None,
        },
        None => None,
    }
}

/// Where the summarized history ends: at the start of a split turn, else at
/// the cut.
pub open spec fn history_end_spec(cut: (int, Option<int>, bool)) -> int {
    if cut.2 {
        match cut.1 {
            Some(t) => t,
            None => cut.0,
        }
    } else {
        cut.0
    }
}

/// Nothing can be compacted: the history is empty or ends with a compaction.
pub open spec fn already_compacted(s: Seq<EntryView>) -> bool {
    s.len() == 0 || s.last().is_compaction()
}

/// Runs compaction preparation over session histories.
#[derive(Debug)]
pub struct CompactionActor {
    pub config: CompactionConfig,
    pub file_op_extractor: DefaultFileOperationExtractor,
}

impl CompactionActor {
    pub fn new(config: CompactionConfig, file_op_extractor: DefaultFileOperationExtractor) -> (r: Self)
        ensures
            r.config == config,
            r.file_op_extractor == file_op_extractor,
    {
        CompactionActor { config, file_op_extractor }
    }

    /// What a preparation holds for a history: the entry kept first, the
    /// messages to summarize (from the boundary to the end of history), the
    /// prefix of a split turn, the size estimate and the previous summary.
    pub open spec fn prepared(self, s: Seq<EntryView>, p: CompactionPreparation) -> bool {
        let start = boundary_start_spec(s);
        let cut = cut_point_spec(s, start, s.len() as int, self.config.keep_recent_tokens as nat);
        let hend = history_end_spec(cut);
        let summarized = message_entries(s.subrange(start, hend));
        let calls = assistant_calls(summarized);
        &&& p.first_kept_entry_id == s[cut.0].id()
        &&& messages_view(p.messages_to_summarize@) == summarized
        &&& messages_view(p.turn_prefix_messages@) == (if cut.2 {
            message_entries(s.subrange(cut.1.unwrap(), cut.0))
        } else {
            Seq::empty()
        })
        &&& p.is_split_turn == cut.2
        &&& p.tokens_before == context_tokens_spec(s)
        &&& opt_str_view(p.previous_summary) == previous_summary_spec(s)
        &&& strictly_sorted(strings_view(p.file_ops.read@))
        &&& strictly_sorted(strings_view(p.file_ops.written@))
        &&& strictly_sorted(strings_view(p.file_ops.edited@))
        &&& strings_view(p.file_ops.read@).to_set() == self.file_op_extractor.paths(calls, 0)
        &&& strings_view(p.file_ops.written@).to_set() == self.file_op_extractor.paths(calls, 1)
        &&& strings_view(p.file_ops.edited@).to_set() == self.file_op_extractor.paths(calls, 2)
    }

    /// Prepare a compaction of `entries`: find the previous boundary, the cut
    /// point keeping about `keep_recent_tokens`, and collect what to summarize.
    pub fn prepare(&self, entries: &[SessionEntry]) -> (r: Result<
        CompactionPreparation,
        CompactionError,
    >)
        requires
            history_fits(entries_view(entries@)),
        ensures
            already_compacted(entries_view(entries@)) <==> r is Err,
            r matches Err(e) ==> e is AlreadyCompacted,
            r matches Ok(p) ==> self.prepared(entries_view(entries@), p),
    {
        let ghost s = entries_view(entries@);
        if entries.len() == 0 {
            return Err(CompactionError::AlreadyCompacted);
        }
        if let SessionEntry::Compaction { .. } = &entries[entries.len() - 1] {
            assert(s.last() == entries@[entries@.len() - 1]@);
            return Err(CompactionError::AlreadyCompacted);
        }
        assert(s.last() == entries@[entries@.len() - 1]@);
        proof {
            lemma_last_compaction_index(s);
        }
        let prev = last_compaction_position(entries);
        let mut previous_summary: Option<String> = None;
        let mut boundary_start: usize = 0;
        if let Some(idx) = prev {
            if let SessionEntry::Compaction { summary, first_kept_entry_id, .. } = &entries[idx] {
                previous_summary = Some(summary.clone());
                boundary_start = match message_position(entries, *first_kept_entry_id) {
                    Some(p) => p,
                    None => idx + 1,
                };
            }
        }
        assert(boundary_start as int == boundary_start_spec(s));
        assert(boundary_start < entries@.len());
        let boundary_end = entries.len();
        let tokens_before = estimate_context_tokens(entries);
        let cut = find_cut_point(entries, boundary_start, boundary_end, self.config.keep_recent_tokens);
        let ghost cs = cut_point_spec(s, boundary_start as int, boundary_end as int, self.config.keep_recent_tokens as nat);
        proof {
            lemma_cut_point_bounds(s, boundary_start as int, boundary_end as int, self.config.keep_recent_tokens as nat);
        }
        let history_end = if cut.is_split_turn {
            match cut.turn_start_index {
                Some(t) => t,
                None => cut.first_kept_entry_index,
            }
        } else {
            cut.first_kept_entry_index
        };
        let messages_to_summarize = collect_messages(entries, boundary_start, history_end);
        let turn_prefix_messages = if cut.is_split_turn {
            match cut.turn_start_index {
                Some(t) => collect_messages(entries, t, cut.first_kept_entry_index),
                None => Vec::new(),
            }
        } else {
            Vec::new()
        };
        proof {
            if !cut.is_split_turn {
                assert(messages_view(turn_prefix_messages@) =~= Seq::<MessageView>::empty());
            }
        }
        let file_ops = self.file_op_extractor.extract(messages_to_summarize.as_slice());
        let first_kept_entry_id = entries[cut.first_kept_entry_index].id();
        Ok(
            CompactionPreparation {
                first_kept_entry_id,
                messages_to_summarize,
                turn_prefix_messages,
                is_split_turn: cut.is_split_turn,
                tokens_before,
                previous_summary,
                file_ops,
            },
        )
    }

    /// `prepare`, or `None` when the history's estimates do not fit in a
    /// `usize`.
    pub fn try_prepare(&self, entries: &[SessionEntry]) -> (r: Option<
        Result<CompactionPreparation, CompactionError>,
    >)
        ensures
            r is None <==> !history_fits(entries_view(entries@)),
            r matches Some(Err(e)) ==> e is AlreadyCompacted && already_compacted(entries_view(entries@)),
            r matches Some(Ok(p)) ==> !already_compacted(entries_view(entries@)) && self.prepared(
                entries_view(entries@),
                p,
            ),
    {
        match weigh_history(entries) {
            Some(_) => Some(self.prepare(entries)),
            None => None,
        }
    }
}

/// The cut point lies within `[start, end)` when the range is not empty, and
/// a split turn starts between `start` and the cut.
pub proof fn lemma_cut_point_bounds(s: Seq<EntryView>, start: int, end: int, keep: nat)
    requires
        start < end,
    ensures
        start <= cut_point_spec(s, start, end, keep).0 < end,
        cut_point_spec(s, start, end, keep).2 ==> cut_point_spec(s, start, end, keep).1 is Some,
        cut_point_spec(s, start, end, keep).1 matches Some(t) ==> start <= t <= cut_point_spec(s, start, end, keep).0,
{
    let cps = cut_points_spec(s, start, end);
    lemma_cut_points_props(s, start, end);
    if cps.len() > 0 {
        if let Some(j) = reach_spec(s, start, end, end, keep) {
            lemma_first_at_or_after(cps, j);
        }
        let c = cut_point_spec(s, start, end, keep).0;
        assert(cps.contains(c));
        lemma_turn_start(s, c, start);
    }
}

/// Position of the first message entry with the given id.
fn message_position(entries: &[SessionEntry], id: u128) -> (r: Option<usize>)
    ensures
        r matches Some(p) ==> message_index_of(entries_view(entries@), id) == Some(p as int) && p < entries@.len(),
        r is None ==> message_index_of(entries_view(entries@), id) is None,
{
    let ghost s = entries_view(entries@);
    let n = entries.len();
    proof {
        assert(s.skip(0) =~= s);
    }
    for i in 0..n
        invariant
            n == entries@.len(),
            s == entries_view(entries@),
            message_index_of(s, id) == match message_index_of(s.skip(i as int), id) {
                Some(k) => Some(k + i),
                None => None,
            },
    {
        proof {
            assert(s.skip(i as int)[0] == entries@[i as int]@);
            assert(s.skip(i as int).drop_first() =~= s.skip(i + 1));
        }
        if let SessionEntry::Message { id: eid, .. } = &entries[i] {
            if *eid == id {
                return Some(i);
            }
        }
    }
    None
}

/// The messages of `entries[from..to)`, in order.
pub(crate) fn collect_messages(entries: &[SessionEntry], from: usize, to: usize) -> (r: Vec<AgentMessage>)
    requires
        from <= to <= entries@.len(),
    ensures
        messages_view(r@) == message_entries(entries_view(entries@).subrange(from as int, to as int)),
{
    let ghost s = entries_view(entries@);
    let mut r: Vec<AgentMessage> = Vec::new();
    let mut i = from;
    proof {
        assert(s.subrange(from as int, from as int) =~= Seq::<EntryView>::empty());
        assert(messages_view(r@) =~= Seq::<MessageView>::empty());
    }
    while i < to
        invariant
            from <= i <= to <= entries@.len(),
            s == entries_view(entries@),
            messages_view(r@) == message_entries(s.subrange(from as int, i as int)),
        decreases to - i,
    {
        proof {
            assert(s.subrange(from as int, i + 1).drop_last() =~= s.subrange(from as int, i as int));
            assert(s.subrange(from as int, i + 1).last() == entries@[i as int]@);
        }
        if let SessionEntry::Message { message, .. } = &entries[i] {
            let ghost before = messages_view(r@);
            r.push(message.clone());
            proof {
                assert(messages_view(r@) =~= before.push(message@));
            }
        }
        i = i + 1;
    }
    r
}

// ============================================================================
// Summary generation
// ============================================================================

/// System prompt of the summarizing model.
pub open spec fn summarization_system_prompt() -> Seq<char> {
    "You are a conversation summarizer. ..."@
}

/// Instructions for a first summary.
pub open spec fn summarization_prompt() -> Seq<char> {
    "Summarize the conversation above into a structured format:\n- Overview\n- Progress (Done / In Progress)\n- Key Decisions\n- Current State\n- Next Steps\n- Important files and functions mentioned\n\nBe concise but preserve exact file paths, function names, and error messages."@
}

/// Instructions for updating an earlier summary.
pub open spec fn update_summarization_prompt() -> Seq<char> {
    "The messages above are NEW conversation messages to incorporate into the existing summary provided in <previous-summary> tags.\n\nUpdate the existing structured summary with new information. RULES:\n- PRESERVE all existing information from the previous summary\n- ADD new progress, decisions, and context from the new messages\n- UPDATE the Progress section: move items from \"In Progress\" to \"Done\" when completed\n- UPDATE \"Next Steps\" based on what was accomplished\n- PRESERVE exact file paths, function names, and error messages\n- If something is no longer relevant, you may remove it"@
}

/// Instructions for summarizing the prefix of a split turn.
pub open spec fn turn_prefix_summarization_prompt() -> Seq<char> {
    "This is the PREFIX of a turn that was too large to keep. The SUFFIX (recent work) is retained.\n\nSummarize the prefix to provide context for the retained suffix. Be concise. Focus on what's needed to understand the kept suffix."@
}

/// The system prompt of the summarizing model.
pub fn summarization_system_prompt_text() -> (r: String)
    ensures
        r@ == summarization_system_prompt(),
{
    "You are a conversation summarizer. ...".to_owned()
}

/// The role label of a message in a serialized conversation.
pub open spec fn role_label(m: MessageView) -> Seq<char> {
    match m {
        MessageView::User { .. } => "User"@,
        MessageView::Assistant { .. } => "Assistant"@,
        MessageView::ToolResult { .. } => "Tool"@,
    }
}

/// A conversation as plain text: `[Role]: text` per message (its text
/// blocks joined by spaces), blank lines between.
pub open spec fn serialized_spec(m: Seq<MessageView>) -> Seq<char>
    decreases m.len(),
{
    if m.len() == 0 {
        Seq::empty()
    } else {
        serialized_spec(m.drop_last()) + "["@ + role_label(m.last()) + "]: "@ + join(
            text_blocks(m.last().content()),
            " "@,
        ) + "\n\n"@
    }
}

pub(crate) fn joined_text(content: &Vec<Content>, sep: &str) -> (r: String)
    ensures
        r@ == join(text_blocks(crate::types::contents_view(content@)), sep@),
{
    let mut r = String::new();
    let mut first = true;
    let ghost cv = crate::types::contents_view(content@);
    for i in 0..content.len()
        invariant
            cv == crate::types::contents_view(content@),
            first == (text_blocks(cv.take(i as int)).len() == 0),
            r@ == join(text_blocks(cv.take(i as int)), sep@),
    {
        proof {
            assert(cv.take(i + 1).drop_last() =~= cv.take(i as int));
        }
        match &content[i] {
            Content::Text { text } => {
                if !first {
                    r.append(sep);
                }
                r.append(text.as_str());
                proof {
                    let tb = text_blocks(cv.take(i as int));
                    if first {
                        assert(tb.push(text@).len() == 1);
                        assert(r@ =~= tb.push(text@)[0]);
                    } else {
                        assert(tb.push(text@).drop_last() =~= tb);
                    }
                }
                first = false;
            },
            _ => {},
        }
    }
    proof {
        assert(cv.take(content@.len() as int) =~= cv);
    }
    r
}

/// A conversation as plain text for the summarizing model.
pub fn serialize_messages(messages: &Vec<AgentMessage>) -> (r: String)
    ensures
        r@ == serialized_spec(messages_view(messages@)),
{
    let mut out = String::new();
    for i in 0..messages.len()
        invariant
            out@ == serialized_spec(messages_view(messages@).take(i as int)),
    {
        proof {
            assert(messages_view(messages@).take(i + 1).drop_last() =~= messages_view(
                messages@,
            ).take(i as int));
        }
        let (role, text) = match &messages[i] {
            AgentMessage::User(u) => ("User", joined_text(&u.content, " ")),
            AgentMessage::Assistant(a) => ("Assistant", joined_text(&a.content, " ")),
            AgentMessage::ToolResult(t) => ("Tool", joined_text(&t.content, " ")),
        };
        out.append("[");
        out.append(role);
        out.append("]: ");
        out.append(text.as_str());
        out.append("\n\n");
    }
    proof {
        assert(messages_view(messages@).take(messages@.len() as int) =~= messages_view(messages@));
    }
    out
}

/// The request for a summary of `m`: the conversation, the earlier summary
/// where there is one, and the instructions that fit.
pub open spec fn history_prompt_spec(m: Seq<MessageView>, previous: Option<Seq<char>>) -> Seq<char> {
    "<conversation>\n"@ + serialized_spec(m) + "\n</conversation>\n\n"@ + match previous {
        Some(p) => "<previous-summary>\n"@ + p + "\n</previous-summary>\n\n"@
            + update_summarization_prompt(),
        None => summarization_prompt(),
    }
}

/// The request for a summary of the messages to summarize.
pub fn history_summary_prompt(messages: &Vec<AgentMessage>, previous_summary: &Option<String>) -> (r:
    String)
    ensures
        r@ == history_prompt_spec(messages_view(messages@), opt_str_view(*previous_summary)),
{
    let conversation = serialize_messages(messages);
    let mut p = "<conversation>\n".to_owned();
    p.append(conversation.as_str());
    p.append("\n</conversation>\n\n");
    match previous_summary {
        Some(prev) => {
            p.append("<previous-summary>\n");
            p.append(prev.as_str());
            p.append("\n</previous-summary>\n\n");
            p.append("The messages above are NEW conversation messages to incorporate into the existing summary provided in <previous-summary> tags.\n\nUpdate the existing structured summary with new information. RULES:\n- PRESERVE all existing information from the previous summary\n- ADD new progress, decisions, and context from the new messages\n- UPDATE the Progress section: move items from \"In Progress\" to \"Done\" when completed\n- UPDATE \"Next Steps\" based on what was accomplished\n- PRESERVE exact file paths, function names, and error messages\n- If something is no longer relevant, you may remove it");
        },
        None => {
            p.append("Summarize the conversation above into a structured format:\n- Overview\n- Progress (Done / In Progress)\n- Key Decisions\n- Current State\n- Next Steps\n- Important files and functions mentioned\n\nBe concise but preserve exact file paths, function names, and error messages.");
        },
    }
    p
}

/// The request for a summary of a split turn's prefix.
pub open spec fn prefix_prompt_spec(m: Seq<MessageView>) -> Seq<char> {
    "<conversation>\n"@ + serialized_spec(m) + "\n</conversation>\n\n"@
        + turn_prefix_summarization_prompt()
}

/// The request for a summary of a split turn's prefix.
pub fn turn_prefix_prompt(messages: &Vec<AgentMessage>) -> (r: String)
    ensures
        r@ == prefix_prompt_spec(messages_view(messages@)),
{
    let conversation = serialize_messages(messages);
    let mut p = "<conversation>\n".to_owned();
    p.append(conversation.as_str());
    p.append("\n</conversation>\n\n");
    p.append("This is the PREFIX of a turn that was too large to keep. The SUFFIX (recent work) is retained.\n\nSummarize the prefix to provide context for the retained suffix. Be concise. Focus on what's needed to understand the kept suffix.");
    p
}

/// The output budgets of the summary requests: four fifths of the reserved
/// tokens for the history, half for a split turn's prefix.
pub open spec fn history_budget(reserve: usize) -> int {
    reserve as int * 4 / 5
}

/// The output budgets of the summary requests.
pub open spec fn prefix_budget(reserve: usize) -> int {
    reserve as int / 2
}

/// Four fifths of the reserved tokens, rounded down.
pub fn history_summary_budget(reserve_tokens: usize) -> (r: usize)
    ensures
        r == history_budget(reserve_tokens),
{
    let q = reserve_tokens / 5;
    let m = reserve_tokens % 5;
    proof {
        assert(reserve_tokens as int * 4 / 5 == q * 4 + m * 4 / 5) by (nonlinear_arith)
            requires
                q == reserve_tokens as int / 5,
                m == reserve_tokens as int % 5,
        ;
        assert(q * 4 + m * 4 / 5 <= reserve_tokens) by (nonlinear_arith)
            requires
                q == reserve_tokens as int / 5,
                m == reserve_tokens as int % 5,
                0 <= m < 5,
        ;
    }
    q * 4 + m * 4 / 5
}

/// Half the reserved tokens, rounded down.
pub fn prefix_summary_budget(reserve_tokens: usize) -> (r: usize)
    ensures
        r == prefix_budget(reserve_tokens),
{
    reserve_tokens / 2
}

/// Whether a compaction summarizes a split turn's prefix as well.
pub open spec fn summarizes_prefix(p: CompactionPreparation) -> bool {
    p.is_split_turn && p.turn_prefix_messages@.len() > 0
}

/// Whether a compaction summarizes a split turn's prefix as well.
pub fn needs_prefix_summary(p: &CompactionPreparation) -> (b: bool)
    ensures
        b == summarizes_prefix(*p),
{
    p.is_split_turn && p.turn_prefix_messages.len() > 0
}

/// The summary of a compaction: the history summary, followed by the turn
/// prefix summary where the turn was split.
pub open spec fn combined_summary_spec(history: Seq<char>, prefix: Option<Seq<char>>) -> Seq<char> {
    match prefix {
        Some(p) => history + "\n\n---\n\n**Turn Context (split turn):**\n\n"@ + p,
        None => history,
    }
}

/// The summary of a compaction from its parts.
pub fn combined_summary(history: String, prefix: Option<String>) -> (r: String)
    ensures
        r@ == combined_summary_spec(history@, opt_str_view(prefix)),
{
    match prefix {
        Some(p) => history.concat("\n\n---\n\n**Turn Context (split turn):**\n\n").concat(p.as_str()),
        None => history,
    }
}

/// The result of a compaction: the summary, where the kept part starts, the
/// size before, and the files read and written in the summarized part.
pub fn compaction_result(preparation: CompactionPreparation, summary: String) -> (r: CompactionResult)
    ensures
        r.summary@ == summary@,
        r.first_kept_entry_id == preparation.first_kept_entry_id,
        r.tokens_before == preparation.tokens_before,
        r.details matches Some(d) && d@ == (DetailsView {
            read_files: strings_view(preparation.file_ops.read@),
            modified_files: strings_view(preparation.file_ops.written@),
        }),
{
    let CompactionPreparation { first_kept_entry_id, tokens_before, file_ops, .. } = preparation;
    let FileOperations { read, written, .. } = file_ops;
    CompactionResult {
        summary,
        first_kept_entry_id,
        tokens_before,
        details: Some(CompactionDetails { read_files: read, modified_files: written }),
    }
}

/// The state of a summary being streamed: its text so far.
#[derive(Debug)]
pub enum SummaryStep {
    /// Read on.
    Continue,
    /// The summary is complete.
    Done,
    /// The model failed.
    Failed(CompactionError),
}

/// The summary text after one more event: deltas are appended; a completion
/// replaces it with the completed message's text blocks, one per line, and
/// ends it; an error ends the summary with the model's message.
pub open spec fn summary_event_spec(text: Seq<char>, e: crate::harness::agent_loop::StreamEventView) -> (
    Seq<char>,
    Option<Option<Seq<char>>>,
) {
    match e {
        crate::harness::agent_loop::StreamEventView::TextDelta { delta, .. } => (text + delta, None),
        crate::harness::agent_loop::StreamEventView::Done { content, .. } => (
            join(text_blocks(content), "\n"@),
            Some(None),
        ),
        crate::harness::agent_loop::StreamEventView::Error { error_message, .. } => (
            text,
            Some(
                Some(
                    match error_message {
                        Some(m) => m,
                        None => "LLM error"@,
                    },
                ),
            ),
        ),
        _ => (text, None),
    }
}

/// Takes in one event of a summary stream. Returns `Continue` to read on,
/// `Done` when the summary is complete, `Failed` with the model's message.
pub fn summary_event(text: &mut String, event: StreamEvent) -> (r: SummaryStep)
    ensures
        ({
            let (t, end) = summary_event_spec(old(text)@, event@);
            &&& final(text)@ == t
            &&& end is None ==> r is Continue
            &&& end == Some(None::<Seq<char>>) ==> r is Done
            &&& end matches Some(Some(m)) ==> (r matches SummaryStep::Failed(CompactionError::LlmError(x)) && x@ == m)
        }),
{
    match event {
        StreamEvent::TextDelta { delta, .. } => {
            text.append(delta.as_str());
            SummaryStep::Continue
        },
        StreamEvent::Done { content, .. } => {
            *text = joined_text(&content, "\n");
            SummaryStep::Done
        },
        StreamEvent::Error { error_message, .. } => {
            let m = match error_message {
                Some(m) => m,
                None => "LLM error".to_owned(),
            };
            SummaryStep::Failed(CompactionError::LlmError(m))
        },
        _ => SummaryStep::Continue,
    }
}

/// A finished summary, or the error an empty one is (`empty_message` names it).
pub fn finish_summary(text: String, empty_message: &str) -> (r: Result<String, CompactionError>)
    ensures
        text@.len() == 0 ==> (r matches Err(CompactionError::LlmError(m)) && m@ == empty_message@),
        text@.len() > 0 ==> (r matches Ok(t) && t@ == text@),
{
    if text.as_str().is_empty() {
        Err(CompactionError::LlmError(empty_message.to_owned()))
    } else {
        Ok(text)
    }
}

/// Law: the estimated context of a history holding one assistant message
/// that reports no usage is a quarter of the message's byte count, rounded
/// up; an assistant message with no blocks counts nothing, and each block
/// added to it raises the count by what it holds: a text or thinking block
/// its UTF-8 length, a tool call the length of its name and of its compact
/// JSON arguments, an image 4800.
pub proof fn law_assistant_estimate(
    id: u128,
    c: Seq<ContentView>,
    b: ContentView,
    usage: Usage,
    stop_reason: StopReason,
    error_message: Option<Seq<char>>,
    timestamp: u64,
)
    requires
        usage.total_tokens == 0,
    ensures
        ({
            let m = MessageView::Assistant { content: c, usage, stop_reason, error_message, timestamp };
            let m1 = MessageView::Assistant {
                content: c.push(b),
                usage,
                stop_reason,
                error_message,
                timestamp,
            };
            let m0 = MessageView::Assistant {
                content: Seq::empty(),
                usage,
                stop_reason,
                error_message,
                timestamp,
            };
            &&& context_tokens_spec(seq![EntryView::Message { id, message: m }]) == ceil_quarter(
                message_chars(m),
            )
            &&& message_chars(m0) == 0
            &&& message_chars(m1) == message_chars(m) + match b {
                ContentView::Text { text } => utf8_len(text),
                ContentView::Thinking { thinking } => utf8_len(thinking),
                ContentView::ToolCall(tc) => utf8_len(tc.name) + json_compact_len(tc.arguments),
                ContentView::Image { .. } => 4800nat,
            }
        }),
{
    let m = MessageView::Assistant { content: c, usage, stop_reason, error_message, timestamp };
    let e = EntryView::Message { id, message: m };
    let hs = seq![e];
    assert(hs.drop_last() =~= Seq::<EntryView>::empty());
    assert(usage_baseline(e) is None);
    assert(hs.last() == e);
    assert(last_usage_index(Seq::<EntryView>::empty()) is None);
    assert(last_usage_index(hs) is None);
    assert(range_tokens(hs, 1, 1) == 0);
    assert(range_tokens(hs, 0, 1) == entry_tokens(e));
    assert(c.push(b).drop_last() =~= c);
}

/// Law: serializing a conversation with one more message appends that
/// message's line: its role label (`User`, `Assistant`, or `Tool` for a tool
/// result), then its text blocks joined by spaces, then a blank line.
pub proof fn law_serialized_message(s: Seq<MessageView>, m: MessageView)
    ensures
        serialized_spec(s.push(m)) == serialized_spec(s) + "["@ + (match m {
            MessageView::User { .. } => "User"@,
            MessageView::Assistant { .. } => "Assistant"@,
            MessageView::ToolResult { .. } => "Tool"@,
        }) + "]: "@ + join(text_blocks(m.content()), " "@) + "\n\n"@,
        serialized_spec(Seq::<MessageView>::empty()) == Seq::<char>::empty(),
{
    assert(s.push(m).drop_last() =~= s);
}

/// The turn start found from `idx` is the last user entry at or before it:
/// none lies after it up to `idx`; and where none is found, none lies in
/// `[start, idx]`.
proof fn lemma_turn_start_is_last(s: Seq<EntryView>, idx: int, start: int)
    ensures
        turn_start_spec(s, idx, start) matches Some(t) ==> start <= t <= idx && is_user_entry(s[t])
            && forall|k: int| t < k <= idx ==> !is_user_entry(#[trigger] s[k]),
        turn_start_spec(s, idx, start) is None ==> forall|k: int|
            start <= k <= idx ==> !is_user_entry(#[trigger] s[k]),
    decreases idx - start + 1,
{
    if idx >= start && !is_user_entry(s[idx]) {
        lemma_turn_start_is_last(s, idx - 1, start);
        assert forall|k: int| start <= k <= idx implies (turn_start_spec(s, idx, start) is None ==> !is_user_entry(#[trigger] s[k])) by {
            if k == idx {
            }
        }
    }
}

/// Law: a split turn starts at the last user message at or before the cut:
/// the start is a user entry in the range, no user entry lies after it up to
/// the cut, and a cut that is not a user message is split exactly when some
/// user message precedes it in the range.
pub proof fn law_split_turn_start(s: Seq<EntryView>, start: int, end: int, keep: nat)
    requires
        0 <= start <= end <= s.len(),
        cut_points_spec(s, start, end).len() > 0,
    ensures
        ({
            let (cut, ts, split) = cut_point_spec(s, start, end, keep);
            &&& ts matches Some(t) ==> start <= t < cut && is_user_entry(s[t]) && forall|k: int|
                t < k <= cut ==> !is_user_entry(#[trigger] s[k])
            &&& split <==> (!is_user_entry(s[cut]) && exists|k: int| start <= k < cut && is_user_entry(
                #[trigger] s[k],
            ))
        }),
{
    law_cut_at_message(s, start, end, keep);
    let cps = cut_points_spec(s, start, end);
    lemma_cut_points_props(s, start, end);
    let cut = cut_point_spec(s, start, end, keep).0;
    assert(start <= cut < end) by {
        if let Some(j) = reach_spec(s, start, end, end, keep) {
            lemma_first_at_or_after(cps, j);
            if let Some(c) = first_at_or_after(cps, j) {
                let k = choose|k: int| 0 <= k < cps.len() && cps[k] == c;
                assert(start <= cps[k] < end);
            } else {
                assert(start <= cps[0] < end);
            }
        } else {
            assert(start <= cps[0] < end);
        }
    }
    lemma_turn_start_is_last(s, cut, start);
    if !is_user_entry(s[cut]) {
        match turn_start_spec(s, cut, start) {
            Some(t) => {
                assert(t != cut);
                assert(start <= t < cut && is_user_entry(s[t]));
            },
            None => {
                assert forall|k: int| start <= k < cut implies !is_user_entry(#[trigger] s[k]) by {
                    assert(start <= k <= cut);
                }
            },
        }
    }
}

} // verus!
