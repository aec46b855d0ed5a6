//! Compaction over a plain list of messages: settings, file-operation
//! tracking, token estimates and the cut point.
use vstd::prelude::*;
use vstd::utf8::*;

use crate::file_ops::strings_view;
use crate::harness::session::{join, text_blocks};
use crate::json::{compact_json, compact_json_len, json_compact, json_compact_len, json_str_field, str_field};
use crate::harness::compaction::{collect_messages, message_entries};
use crate::persistence::entry::{entries_view, last_compaction_index, last_compaction_position, lemma_last_compaction_index, EntryView, SessionEntry};
use crate::harness::compaction::first_at_or_after;
use crate::text::{byte_prefix, ceil_quarter, cut_to_bytes, decimal, decimal_spec, insert_sorted_unique, str_eq, strictly_sorted, utf8_len};
use crate::types::{contents_view, messages_view, opt_str_view, AgentMessage, Content, ContentView, MessageView, StopReason};

verus! {

// ============================================================================
// Settings
// ============================================================================

/// Configuration for automatic context compaction.
#[derive(Debug, Clone, Copy, PartialEq, Eq, Structural)]
pub struct CompactionSettings {
    pub enabled: bool,
    pub reserve_tokens: u64,
    pub keep_recent_tokens: u64,
}

impl Default for CompactionSettings {
    fn default() -> (r: Self)
        ensures
            r == (CompactionSettings {
                enabled: true,
                reserve_tokens: 16_384,
                keep_recent_tokens: 20_000,
            }),
    {
        CompactionSettings { enabled: true, reserve_tokens: 16_384, keep_recent_tokens: 20_000 }
    }
}

// ============================================================================
// File operation tracking
// ============================================================================

/// File operations observed across the messages being compacted; each list
/// is kept sorted and free of duplicates.
#[derive(Debug)]
pub struct FileOperations {
    pub read: Vec<String>,
    pub written: Vec<String>,
    pub edited: Vec<String>,
}

impl FileOperations {
    /// Each list is strictly sorted (hence holds every path once).
    pub open spec fn wf(&self) -> bool {
        &&& strictly_sorted(strings_view(self.read@))
        &&& strictly_sorted(strings_view(self.written@))
        &&& strictly_sorted(strings_view(self.edited@))
    }

    /// Set of paths read.
    pub open spec fn read_set(&self) -> Set<Seq<char>> {
        strings_view(self.read@).to_set()
    }

    /// Set of paths written.
    pub open spec fn written_set(&self) -> Set<Seq<char>> {
        strings_view(self.written@).to_set()
    }

    /// Set of paths edited.
    pub open spec fn edited_set(&self) -> Set<Seq<char>> {
        strings_view(self.edited@).to_set()
    }
}

impl Default for FileOperations {
    fn default() -> (r: Self)
        ensures
            r.wf(),
            r.read@.len() == 0,
            r.written@.len() == 0,
            r.edited@.len() == 0,
    {
        let r = FileOperations { read: Vec::new(), written: Vec::new(), edited: Vec::new() };
        proof {
            assert(strings_view(r.read@) =~= Seq::<Seq<char>>::empty());
            assert(strings_view(r.written@) =~= Seq::<Seq<char>>::empty());
            assert(strings_view(r.edited@) =~= Seq::<Seq<char>>::empty());
        }
        r
    }
}

/// Adds every path of `from` to the sorted list `into`.
fn add_all(into: &mut Vec<String>, from: &Vec<String>)
    requires
        strictly_sorted(strings_view(old(into)@)),
    ensures
        strictly_sorted(strings_view(final(into)@)),
        strings_view(final(into)@).to_set() == strings_view(old(into)@).to_set().union(
            strings_view(from@).to_set(),
        ),
{
    for i in 0..from.len()
        invariant
            strictly_sorted(strings_view(into@)),
            strings_view(into@).to_set() == strings_view(old(into)@).to_set().union(
                strings_view(from@).take(i as int).to_set(),
            ),
    {
        let ghost before = strings_view(into@).to_set();
        insert_sorted_unique(into, from[i].clone());
        proof {
            assert(strings_view(into@) =~= into@.map_values(|s: String| s@));
            assert(strings_view(from@).take(i + 1) =~= strings_view(from@).take(i as int).push(
                from@[i as int]@,
            ));
            strings_view(from@).take(i as int).lemma_push_to_set_commute(from@[i as int]@);
            assert(strings_view(into@).to_set() =~= strings_view(old(into)@).to_set().union(
                strings_view(from@).take(i + 1).to_set(),
            ));
        }
    }
    proof {
        assert(strings_view(from@).take(from@.len() as int) =~= strings_view(from@));
    }
}

impl FileOperations {
    /// Merges another record into this one.
    pub fn merge(&mut self, other: &FileOperations)
        requires
            old(self).wf(),
        ensures
            final(self).wf(),
            final(self).read_set() == old(self).read_set().union(other.read_set()),
            final(self).written_set() == old(self).written_set().union(other.written_set()),
            final(self).edited_set() == old(self).edited_set().union(other.edited_set()),
    {
        add_all(&mut self.read, &other.read);
        add_all(&mut self.written, &other.written);
        add_all(&mut self.edited, &other.edited);
    }
}

/// Whether `x` is among `v`.
fn contains_string(v: &Vec<String>, x: &str) -> (b: bool)
    ensures
        b == strings_view(v@).contains(x@),
{
    for i in 0..v.len()
        invariant
            forall|m: int| 0 <= m < i ==> v@[m]@ != x@,
    {
        if str_eq(v[i].as_str(), x) {
            proof {
                assert(strings_view(v@)[i as int] == x@);
            }
            return true;
        }
    }
    proof {
        if strings_view(v@).contains(x@) {
            let j = choose|j: int| 0 <= j < v@.len() && strings_view(v@)[j] == x@;
            assert(v@[j]@ == x@);
        }
    }
    false
}

/// The final file lists: the paths only read, and the modified (written or
/// edited) paths, sorted.
pub fn compute_file_lists(ops: &FileOperations) -> (r: (Vec<String>, Vec<String>))
    ensures
        strictly_sorted(strings_view(r.1@)),
        strings_view(r.1@).to_set() == ops.edited_set().union(ops.written_set()),
        strings_view(r.0@).to_set() == ops.read_set().difference(
            ops.edited_set().union(ops.written_set()),
        ),
        ops.wf() ==> strictly_sorted(strings_view(r.0@)),
{
    let mut modified: Vec<String> = Vec::new();
    proof {
        assert(strings_view(modified@) =~= Seq::<Seq<char>>::empty());
        assert(strings_view(modified@).to_set() =~= Set::<Seq<char>>::empty());
    }
    add_all(&mut modified, &ops.edited);
    add_all(&mut modified, &ops.written);
    proof {
        assert(strings_view(modified@).to_set() =~= ops.edited_set().union(ops.written_set()));
    }
    let mut read_only: Vec<String> = Vec::new();
    proof {
        assert(strings_view(read_only@) =~= Seq::<Seq<char>>::empty());
    }
    for i in 0..ops.read.len()
        invariant
            strings_view(modified@).to_set() == ops.edited_set().union(ops.written_set()),
            strings_view(read_only@).to_set() == strings_view(ops.read@).take(i as int).to_set().difference(
                strings_view(modified@).to_set(),
            ),
            ops.wf() ==> strictly_sorted(strings_view(read_only@)),
            ops.wf() ==> forall|a: int, k: int|
                0 <= a < read_only@.len() && i <= k < ops.read@.len() ==> crate::text::lex_lt(
                    #[trigger] strings_view(read_only@)[a],
                    #[trigger] strings_view(ops.read@)[k],
                ),
    {
        let ghost before = strings_view(read_only@);
        if !contains_string(&modified, ops.read[i].as_str()) {
            read_only.push(ops.read[i].clone());
            proof {
                assert(strings_view(read_only@) =~= before.push(ops.read@[i as int]@));
                if ops.wf() {
                    let rv = strings_view(read_only@);
                    let rd = strings_view(ops.read@);
                    assert forall|a: int, b: int| 0 <= a < b < rv.len() implies crate::text::lex_lt(
                        #[trigger] rv[a],
                        #[trigger] rv[b],
                    ) by {
                        if b < before.len() {
                            assert(rv[a] == before[a] && rv[b] == before[b]);
                        } else {
                            assert(rv[a] == before[a]);
                            assert(rd[i as int] == rv[b]);
                        }
                    }
                    assert forall|a: int, k: int| 0 <= a < rv.len() && i + 1 <= k < rd.len() implies crate::text::lex_lt(
                        #[trigger] rv[a],
                        #[trigger] rd[k],
                    ) by {
                        if a < before.len() {
                            assert(rv[a] == before[a]);
                        } else {
                            assert(rv[a] == rd[i as int]);
                        }
                    }
                }
            }
        } else {
            proof {
                assert(strings_view(read_only@) == before);
            }
        }
        proof {
            assert(strings_view(ops.read@).take(i + 1) =~= strings_view(ops.read@).take(
                i as int,
            ).push(ops.read@[i as int]@));
            strings_view(ops.read@).take(i as int).lemma_push_to_set_commute(ops.read@[i as int]@);
            before.lemma_push_to_set_commute(ops.read@[i as int]@);
            assert(strings_view(read_only@).to_set() =~= strings_view(ops.read@).take(
                i + 1,
            ).to_set().difference(strings_view(modified@).to_set()));
        }
    }
    proof {
        assert(strings_view(ops.read@).take(ops.read@.len() as int) =~= strings_view(ops.read@));
    }
    (read_only, modified)
}

/// The file lists as tagged blocks appended to a summary (a list is left
/// out when empty).
pub open spec fn file_block(tag: Seq<char>, files: Seq<Seq<char>>) -> Seq<char> {
    if files.len() == 0 {
        Seq::empty()
    } else {
        "\n\n<"@ + tag + ">\n"@ + lines_of_files(files) + "</"@ + tag + ">"@
    }
}

/// One path per line.
pub open spec fn lines_of_files(files: Seq<Seq<char>>) -> Seq<char>
    decreases files.len(),
{
    if files.len() == 0 {
        Seq::empty()
    } else {
        lines_of_files(files.drop_last()) + files.last() + "\n"@
    }
}

fn push_file_block(out: &mut String, tag: &str, files: &Vec<String>)
    ensures
        final(out)@ == old(out)@ + file_block(tag@, strings_view(files@)),
{
    if files.len() == 0 {
        proof {
            assert(out@ =~= out@ + Seq::<char>::empty());
        }
        return;
    }
    out.append("\n\n<");
    out.append(tag);
    out.append(">\n");
    let ghost head = out@;
    let ghost fv = strings_view(files@);
    for i in 0..files.len()
        invariant
            fv == strings_view(files@),
            out@ == head + lines_of_files(fv.take(i as int)),
    {
        proof {
            assert(fv.take(i + 1).drop_last() =~= fv.take(i as int));
        }
        out.append(files[i].as_str());
        out.append("\n");
        proof {
            assert(out@ =~= head + lines_of_files(fv.take(i + 1)));
        }
    }
    proof {
        assert(fv.take(files@.len() as int) =~= fv);
    }
    out.append("</");
    out.append(tag);
    out.append(">");
}

/// Formats read / modified file lists as tagged blocks appended to a summary.
pub fn format_file_operations(read_files: &Vec<String>, modified_files: &Vec<String>) -> (r: String)
    ensures
        r@ == file_block("read-files"@, strings_view(read_files@)) + file_block(
            "modified-files"@,
            strings_view(modified_files@),
        ),
{
    let mut out = String::new();
    proof {
        assert(out@ =~= Seq::<char>::empty());
    }
    push_file_block(&mut out, "read-files", read_files);
    push_file_block(&mut out, "modified-files", modified_files);
    proof {
        assert(Seq::<char>::empty() + file_block("read-files"@, strings_view(read_files@)) =~= file_block(
            "read-files"@,
            strings_view(read_files@),
        ));
    }
    out
}

/// Records the path of each `read`, `write` and `edit` tool call of an
/// assistant message (the `path` argument) in the matching list.
pub fn extract_file_ops_from_message(msg: &AgentMessage, ops: &mut FileOperations)
    requires
        old(ops).wf(),
    ensures
        final(ops).wf(),
        final(ops).read_set() == old(ops).read_set().union(calls_paths(msg@, "read"@)),
        final(ops).written_set() == old(ops).written_set().union(calls_paths(msg@, "write"@)),
        final(ops).edited_set() == old(ops).edited_set().union(calls_paths(msg@, "edit"@)),
{
    if let AgentMessage::Assistant(a) = msg {
        let ghost cv = crate::types::contents_view(a.content@);
        for i in 0..a.content.len()
            invariant
                cv == crate::types::contents_view(a.content@),
                msg@ == (MessageView::Assistant {
                    content: cv,
                    usage: a.usage,
                    stop_reason: a.stop_reason,
                    error_message: crate::types::opt_str_view(a.error_message),
                    timestamp: a.timestamp,
                }),
                ops.wf(),
                ops.read_set() == old(ops).read_set().union(block_paths(cv.take(i as int), "read"@)),
                ops.written_set() == old(ops).written_set().union(block_paths(cv.take(i as int), "write"@)),
                ops.edited_set() == old(ops).edited_set().union(block_paths(cv.take(i as int), "edit"@)),
        {
            proof {
                assert(cv.take(i + 1).drop_last() =~= cv.take(i as int));
                assert(cv.take(i + 1).last() == a.content@[i as int]@);
            }
            if let Content::ToolCall(tc) = &a.content[i] {
                let path = str_field(tc.arguments.as_str(), "path");
                if let Some(p) = path {
                    let ghost pv = p@;
                    if str_eq(tc.name.as_str(), "read") {
                        insert_sorted_unique(&mut ops.read, p);
                    } else if str_eq(tc.name.as_str(), "write") {
                        insert_sorted_unique(&mut ops.written, p);
                    } else if str_eq(tc.name.as_str(), "edit") {
                        insert_sorted_unique(&mut ops.edited, p);
                    }
                    proof {
                        reveal_strlit("read");
                        reveal_strlit("write");
                        reveal_strlit("edit");
                        assert("read"@ != "write"@ && "read"@ != "edit"@ && "write"@ != "edit"@) by {
                            assert("read"@.len() != "write"@.len());
                            assert("read"@[0] != "edit"@[0]);
                            assert("write"@.len() != "edit"@.len());
                        }
                        assert(ops.read_set() =~= old(ops).read_set().union(block_paths(cv.take(i + 1), "read"@)));
                        assert(ops.written_set() =~= old(ops).written_set().union(block_paths(cv.take(i + 1), "write"@)));
                        assert(ops.edited_set() =~= old(ops).edited_set().union(block_paths(cv.take(i + 1), "edit"@)));
                    }
                } else {
                    proof {
                        assert(block_paths(cv.take(i + 1), "read"@) == block_paths(cv.take(i as int), "read"@));
                        assert(block_paths(cv.take(i + 1), "write"@) == block_paths(cv.take(i as int), "write"@));
                        assert(block_paths(cv.take(i + 1), "edit"@) == block_paths(cv.take(i as int), "edit"@));
                    }
                }
            }
        }
        proof {
            assert(cv.take(a.content@.len() as int) =~= cv);
        }
    } else {
        proof {
            assert(ops.read_set() =~= old(ops).read_set().union(Set::empty()));
            assert(ops.written_set() =~= old(ops).written_set().union(Set::empty()));
            assert(ops.edited_set() =~= old(ops).edited_set().union(Set::empty()));
        }
    }
}

/// The `path` arguments of the tool calls named `name` among content blocks.
pub open spec fn block_paths(c: Seq<ContentView>, name: Seq<char>) -> Set<Seq<char>>
    decreases c.len(),
{
    if c.len() == 0 {
        Set::empty()
    } else {
        let prev = block_paths(c.drop_last(), name);
        match c.last() {
            ContentView::ToolCall(tc) => if tc.name == name {
                match json_str_field(tc.arguments, "path"@) {
                    Some(p) => prev.insert(p),
                    None => prev,
                }
            } else {
                prev
            },
            _ => prev,
        }
    }
}

/// The `path` arguments of the tool calls named `name` in an assistant message.
pub open spec fn calls_paths(m: MessageView, name: Seq<char>) -> Set<Seq<char>> {
    match m {
        MessageView::Assistant { content, .. } => block_paths(content, name),
        _ => Set::empty(),
    }
}

// ============================================================================
// Token estimation
// ============================================================================

/// Characters (UTF-8 bytes) a content block counts for: images count 4800;
/// in tool results thinking and tool calls count nothing.
pub open spec fn legacy_block_chars(c: ContentView, tool_result: bool) -> nat {
    match c {
        ContentView::Text { text } => utf8_len(text),
        ContentView::Image { .. } => 4800,
        ContentView::Thinking { thinking } => if tool_result {
            0
        } else {
            utf8_len(thinking)
        },
        ContentView::ToolCall(tc) => if tool_result {
            0
        } else {
            utf8_len(tc.name) + json_compact_len(tc.arguments)
        },
    }
}

/// Characters a list of content blocks counts for.
pub open spec fn legacy_blocks_chars(c: Seq<ContentView>, tool_result: bool) -> nat
    decreases c.len(),
{
    if c.len() == 0 {
        0
    } else {
        legacy_blocks_chars(c.drop_last(), tool_result) + legacy_block_chars(c.last(), tool_result)
    }
}

/// Characters a message counts for.
pub open spec fn legacy_chars(m: MessageView) -> nat {
    legacy_blocks_chars(m.content(), m is ToolResult)
}

/// Estimated tokens of a message: a quarter of its characters, rounded up.
pub open spec fn legacy_tokens(m: MessageView) -> nat {
    (legacy_chars(m) + 3) / 4
}

proof fn lemma_legacy_prefix(c: Seq<ContentView>, tr: bool, i: int)
    requires
        0 <= i <= c.len(),
    ensures
        legacy_blocks_chars(c.take(i), tr) <= legacy_blocks_chars(c, tr),
    decreases c.len() - i,
{
    if i < c.len() {
        lemma_legacy_prefix(c, tr, i + 1);
        assert(c.take(i + 1).drop_last() =~= c.take(i));
    } else {
        assert(c.take(i) =~= c);
    }
}

/// Estimated tokens of a message (chars / 4, rounded up).
pub fn estimate_tokens(msg: &AgentMessage) -> (r: u64)
    requires
        legacy_chars(msg@) + 3 <= usize::MAX,
    ensures
        r == legacy_tokens(msg@),
{
    let (content, tr) = match msg {
        AgentMessage::User(u) => (&u.content, false),
        AgentMessage::Assistant(a) => (&a.content, false),
        AgentMessage::ToolResult(t) => (&t.content, true),
    };
    let ghost cv = crate::types::contents_view(content@);
    assert(legacy_chars(msg@) == legacy_blocks_chars(cv, tr));
    let mut chars: usize = 0;
    for i in 0..content.len()
        invariant
            cv == crate::types::contents_view(content@),
            legacy_blocks_chars(cv, tr) + 3 <= usize::MAX,
            chars == legacy_blocks_chars(cv.take(i as int), tr),
    {
        proof {
            assert(cv.take(i + 1).drop_last() =~= cv.take(i as int));
            assert(cv.take(i + 1).last() == content@[i as int]@);
            lemma_legacy_prefix(cv, tr, i + 1);
        }
        let add: usize = match &content[i] {
            Content::Text { text } => text.as_str().len(),
            Content::Image { .. } => 4800,
            Content::Thinking { thinking } => if tr {
                0
            } else {
                thinking.as_str().len()
            },
            Content::ToolCall(tc) => if tr {
                0
            } else {
                let a = tc.name.as_str().len();
                let b = compact_json_len(tc.arguments.as_str());
                a + b
            },
        };
        chars = chars + add;
    }
    proof {
        assert(cv.take(content@.len() as int) =~= cv);
    }
    ((chars + 3) / 4) as u64
}

/// Estimated tokens of the messages `m[i..]`.
pub open spec fn suffix_tokens(m: Seq<MessageView>, i: int) -> nat
    decreases m.len() - i,
{
    if i >= m.len() || i < 0 {
        0
    } else {
        legacy_tokens(m[i]) + suffix_tokens(m, i + 1)
    }
}

/// Every message's estimate can be computed and the estimates of all of them
/// add up within 64 bits.
pub open spec fn legacy_fits(m: Seq<MessageView>) -> bool {
    &&& forall|i: int| 0 <= i < m.len() ==> legacy_chars(#[trigger] m[i]) + 3 <= usize::MAX
    &&& suffix_tokens(m, 0) <= u64::MAX
}

proof fn lemma_suffix_mono(m: Seq<MessageView>, i: int, j: int)
    requires
        0 <= i <= j,
    ensures
        suffix_tokens(m, j) <= suffix_tokens(m, i),
    decreases j - i,
{
    if i < j {
        lemma_suffix_mono(m, i + 1, j);
    }
}

/// Context token estimate using the last assistant usage as baseline.
#[derive(Debug, Clone, Copy, PartialEq, Eq, Structural)]
pub struct ContextUsageEstimate {
    pub tokens: u64,
    pub usage_tokens: u64,
    pub trailing_tokens: u64,
    pub last_usage_index: Option<usize>,
}

/// The usage an assistant message reports, when it serves as a baseline
/// (neither failed nor aborted, and some tokens reported).
pub open spec fn legacy_baseline(m: MessageView) -> Option<u64> {
    match m {
        MessageView::Assistant { stop_reason, usage, .. } => if stop_reason != StopReason::Error
            && stop_reason != StopReason::Aborted && usage.total_tokens > 0 {
            Some(usage.total_tokens)
        } else {
            None
        },
        _ => None,
    }
}

/// Index of the last message with a baseline.
pub open spec fn last_baseline(m: Seq<MessageView>, n: int) -> Option<int>
    decreases n,
{
    if n <= 0 {
        None
    } else if legacy_baseline(m[n - 1]) is Some {
        Some(n - 1)
    } else {
        last_baseline(m, n - 1)
    }
}

/// The estimate: the last baseline plus the estimates of the messages after
/// it, or the estimates of all messages when none has a baseline.
pub open spec fn usage_estimate_spec(m: Seq<MessageView>) -> ContextUsageEstimate {
    match last_baseline(m, m.len() as int) {
        Some(k) => {
            let u = legacy_baseline(m[k]).unwrap();
            let t = suffix_tokens(m, k + 1);
            ContextUsageEstimate {
                tokens: (u + t) as u64,
                usage_tokens: u,
                trailing_tokens: t as u64,
                last_usage_index: Some(k as usize),
            }
        },
        None => ContextUsageEstimate {
            tokens: suffix_tokens(m, 0) as u64,
            usage_tokens: 0,
            trailing_tokens: suffix_tokens(m, 0) as u64,
            last_usage_index: None,
        },
    }
}

proof fn lemma_last_baseline(m: Seq<MessageView>, n: int)
    requires
        0 <= n <= m.len(),
    ensures
        last_baseline(m, n) matches Some(k) ==> 0 <= k < n && legacy_baseline(m[k]) is Some,
    decreases n,
{
    if n > 0 && legacy_baseline(m[n - 1]) is None {
        lemma_last_baseline(m, n - 1);
    }
}

/// Sum of the estimates of `messages[from..]`.
fn sum_tokens(messages: &Vec<AgentMessage>, from: usize) -> (r: u64)
    requires
        from <= messages@.len(),
        legacy_fits(messages_view(messages@)),
    ensures
        r == suffix_tokens(messages_view(messages@), from as int),
{
    let ghost m = messages_view(messages@);
    let mut i = messages.len();
    let mut total: u64 = 0;
    proof {
        lemma_suffix_mono(m, 0, from as int);
    }
    while i > from
        invariant
            from <= i <= messages@.len(),
            m == messages_view(messages@),
            legacy_fits(m),
            suffix_tokens(m, from as int) <= u64::MAX,
            total == suffix_tokens(m, i as int),
        decreases i,
    {
        proof {
            assert(legacy_chars(m[i - 1]) + 3 <= usize::MAX);
            assert(suffix_tokens(m, i - 1) == legacy_tokens(m[i - 1]) + suffix_tokens(m, i as int));
            lemma_suffix_mono(m, from as int, i - 1);
        }
        let t = estimate_tokens(&messages[i - 1]);
        total = total + t;
        i = i - 1;
    }
    total
}

/// Estimates the context size of a list of messages from the last usage
/// the provider reported, plus estimates for the messages after it.
pub fn estimate_context_tokens(messages: &Vec<AgentMessage>) -> (r: ContextUsageEstimate)
    requires
        legacy_fits(messages_view(messages@)),
        last_baseline(messages_view(messages@), messages@.len() as int) matches Some(k)
            ==> legacy_baseline(messages_view(messages@)[k]).unwrap() + suffix_tokens(
            messages_view(messages@),
            k + 1,
        ) <= u64::MAX,
    ensures
        r == usage_estimate_spec(messages_view(messages@)),
{
    let ghost m = messages_view(messages@);
    let mut i = messages.len();
    while i > 0
        invariant
            i <= messages@.len(),
            m == messages_view(messages@),
            legacy_fits(m),
            last_baseline(m, m.len() as int) matches Some(k) ==> legacy_baseline(m[k]).unwrap()
                + suffix_tokens(m, k + 1) <= u64::MAX,
            last_baseline(m, m.len() as int) == last_baseline(m, i as int),
        decreases i,
    {
        if let AgentMessage::Assistant(a) = &messages[i - 1] {
            if a.stop_reason != StopReason::Error && a.stop_reason != StopReason::Aborted
                && a.usage.total_tokens > 0 {
                proof {
                    assert(m[i - 1] == messages@[i - 1]@);
                    assert(last_baseline(m, i as int) == Some(i - 1));
                }
                let usage_tokens = a.usage.total_tokens;
                let trailing = sum_tokens(messages, i);
                return ContextUsageEstimate {
                    tokens: usage_tokens + trailing,
                    usage_tokens,
                    trailing_tokens: trailing,
                    last_usage_index: Some(i - 1),
                };
            }
        }
        i = i - 1;
    }
    let estimated = sum_tokens(messages, 0);
    ContextUsageEstimate {
        tokens: estimated,
        usage_tokens: 0,
        trailing_tokens: estimated,
        last_usage_index: None,
    }
}

/// Whether compaction should trigger: enabled, and the context beyond the
/// window less the reserve.
pub fn should_compact(context_tokens: u64, context_window: u64, settings: &CompactionSettings) -> (b:
    bool)
    ensures
        b == (settings.enabled && context_tokens > (if context_window >= settings.reserve_tokens {
            context_window - settings.reserve_tokens
        } else {
            0
        })),
{
    if !settings.enabled {
        return false;
    }
    context_tokens > context_window.saturating_sub(settings.reserve_tokens)
}

// ============================================================================
// Cut point detection
// ============================================================================

/// Result of finding a cut point.
#[derive(Debug, Clone, Copy, PartialEq, Eq, Structural)]
pub struct CutPointResult {
    /// Index of the first message to keep.
    pub first_kept_index: usize,
    /// If splitting a turn, index of the turn start.
    pub turn_start_index: Option<usize>,
    /// Whether this cut splits a turn.
    pub is_split_turn: bool,
}

/// Indices among the first `n` messages where a cut may fall (user and
/// assistant messages, never tool results), increasing.
pub open spec fn legacy_cut_points(m: Seq<MessageView>, n: int) -> Seq<int>
    decreases n,
{
    if n <= 0 {
        Seq::empty()
    } else {
        let p = legacy_cut_points(m, n - 1);
        if m[n - 1] is ToolResult {
            p
        } else {
            p.push(n - 1)
        }
    }
}

/// Walking back from `i - 1`, the first message from which the kept
/// messages reach `keep` estimated tokens.
pub open spec fn legacy_reach(m: Seq<MessageView>, i: int, keep: u64) -> Option<int>
    decreases i,
{
    if i <= 0 {
        None
    } else if suffix_tokens(m, i - 1) >= keep {
        Some(i - 1)
    } else {
        legacy_reach(m, i - 1, keep)
    }
}

/// The last user message at or before `idx`.
pub open spec fn legacy_turn_start(m: Seq<MessageView>, idx: int) -> Option<int>
    decreases idx + 1,
{
    if idx < 0 {
        None
    } else if m[idx] is User {
        Some(idx)
    } else {
        legacy_turn_start(m, idx - 1)
    }
}

/// The cut that keeps about `keep` tokens: the first cut point at or after
/// where the budget is reached (the first message if none is), marked split
/// when it falls inside a turn.
pub open spec fn legacy_cut_spec(m: Seq<MessageView>, keep: u64) -> CutPointResult {
    let cps = legacy_cut_points(m, m.len() as int);
    if cps.len() == 0 {
        CutPointResult { first_kept_index: 0, turn_start_index: None, is_split_turn: false }
    } else {
        let cut = match legacy_reach(m, m.len() as int, keep) {
            Some(j) => match first_at_or_after(cps, j) {
                Some(c) => c,
                None => 0,
            },
            None => 0,
        };
        let is_user = m[cut] is User;
        let ts = if is_user {
            None
        } else {
            legacy_turn_start(m, cut)
        };
        CutPointResult {
            first_kept_index: cut as usize,
            turn_start_index: match ts {
                Some(t) => Some(t as usize),
                None => None,
            },
            is_split_turn: !is_user && ts is Some,
        }
    }
}

proof fn lemma_legacy_cut_points(m: Seq<MessageView>, n: int)
    requires
        0 <= n <= m.len(),
    ensures
        forall|k: int|
            0 <= k < legacy_cut_points(m, n).len() ==> 0 <= #[trigger] legacy_cut_points(m, n)[k] < n,
    decreases n,
{
    if n > 0 {
        lemma_legacy_cut_points(m, n - 1);
        let p = legacy_cut_points(m, n - 1);
        let c = legacy_cut_points(m, n);
        assert forall|k: int| 0 <= k < c.len() implies 0 <= #[trigger] c[k] < n by {
            if k < p.len() {
                assert(c[k] == p[k]);
            }
        }
    }
}

proof fn lemma_legacy_first(cps: Seq<int>, i: int)
    ensures
        first_at_or_after(cps, i) matches Some(c) ==> cps.contains(c),
    decreases cps.len(),
{
    if cps.len() > 0 && cps[0] < i {
        lemma_legacy_first(cps.drop_first(), i);
        if let Some(c) = first_at_or_after(cps, i) {
            let k = choose|k: int| 0 <= k < cps.drop_first().len() && cps.drop_first()[k] == c;
            assert(cps[k + 1] == c);
        }
    } else if cps.len() > 0 {
        assert(cps[0] == cps[0]);
    }
}

proof fn lemma_legacy_turn_start(m: Seq<MessageView>, idx: int)
    requires
        idx < m.len(),
    ensures
        legacy_turn_start(m, idx) matches Some(t) ==> 0 <= t <= idx,
    decreases idx + 1,
{
    if idx >= 0 && !(m[idx] is User) {
        lemma_legacy_turn_start(m, idx - 1);
    }
}

/// The cut lies among the messages (or is 0 for none), and a turn start
/// precedes it.
proof fn lemma_legacy_cut_bounds(m: Seq<MessageView>, keep: u64)
    requires
        m.len() <= usize::MAX,
    ensures
        m.len() > 0 ==> (legacy_cut_spec(m, keep).first_kept_index as int) < m.len(),
        m.len() == 0 ==> legacy_cut_spec(m, keep).first_kept_index == 0,
        legacy_cut_spec(m, keep).turn_start_index matches Some(t) ==> t <= legacy_cut_spec(m, keep).first_kept_index,
{
    let cps = legacy_cut_points(m, m.len() as int);
    lemma_legacy_cut_points(m, m.len() as int);
    if cps.len() > 0 {
        let cut = match legacy_reach(m, m.len() as int, keep) {
            Some(j) => match first_at_or_after(cps, j) {
                Some(c) => c,
                None => 0,
            },
            None => 0,
        };
        if let Some(j) = legacy_reach(m, m.len() as int, keep) {
            lemma_legacy_first(cps, j);
            if let Some(c) = first_at_or_after(cps, j) {
                let k = choose|k: int| 0 <= k < cps.len() && cps[k] == c;
                assert(0 <= cps[k] < m.len());
            }
        }
        assert(0 <= cut < m.len());
        lemma_legacy_turn_start(m, cut);
    }
}

fn legacy_turn_start_exec(messages: &Vec<AgentMessage>, idx: usize) -> (r: Option<usize>)
    requires
        idx < messages@.len(),
    ensures
        r matches Some(t) ==> legacy_turn_start(messages_view(messages@), idx as int) == Some(t as int),
        r is None ==> legacy_turn_start(messages_view(messages@), idx as int) is None,
{
    let ghost m = messages_view(messages@);
    let n = messages.len();
    let mut t = idx + 1;
    while t > 0
        invariant
            t <= idx + 1,
            idx < messages@.len(),
            m == messages_view(messages@),
            legacy_turn_start(m, idx as int) == legacy_turn_start(m, t - 1),
        decreases t,
    {
        if let AgentMessage::User(_) = &messages[t - 1] {
            return Some(t - 1);
        }
        t = t - 1;
    }
    None
}

/// Finds the cut point that keeps approximately `keep_recent_tokens`.
pub fn find_cut_point(messages: &Vec<AgentMessage>, keep_recent_tokens: u64) -> (r: CutPointResult)
    requires
        legacy_fits(messages_view(messages@)),
    ensures
        r == legacy_cut_spec(messages_view(messages@), keep_recent_tokens),
{
    let ghost m = messages_view(messages@);
    let mut cut_points: Vec<usize> = Vec::new();
    for k in 0..messages.len()
        invariant
            m == messages_view(messages@),
            cut_points@.map_values(|x: usize| x as int) == legacy_cut_points(m, k as int),
    {
        match &messages[k] {
            AgentMessage::ToolResult(_) => {},
            _ => {
                let ghost before = cut_points@.map_values(|x: usize| x as int);
                cut_points.push(k);
                proof {
                    assert(cut_points@.map_values(|x: usize| x as int) =~= before.push(k as int));
                }
            },
        }
    }
    let ghost cps = legacy_cut_points(m, m.len() as int);
    proof {
        lemma_legacy_cut_points(m, m.len() as int);
    }
    if cut_points.len() == 0 {
        return CutPointResult { first_kept_index: 0, turn_start_index: None, is_split_turn: false };
    }
    let mut accumulated: u64 = 0;
    let mut cut_index: usize = 0;
    let mut i = messages.len();
    while i > 0
        invariant_except_break
            accumulated == suffix_tokens(m, i as int),
            legacy_reach(m, m.len() as int, keep_recent_tokens) == legacy_reach(m, i as int, keep_recent_tokens),
            cut_index == 0,
        invariant
            i <= messages@.len(),
            m == messages_view(messages@),
            legacy_fits(m),
            cut_points@.map_values(|x: usize| x as int) == cps,
            cps.len() > 0,
        ensures
            legacy_reach(m, m.len() as int, keep_recent_tokens) matches Some(j) ==> (match first_at_or_after(cps, j) {
                Some(c) => cut_index as int == c,
                None => cut_index == 0,
            }),
            legacy_reach(m, m.len() as int, keep_recent_tokens) is None ==> cut_index == 0,
        decreases i,
    {
        let j = i - 1;
        proof {
            assert(legacy_chars(m[j as int]) + 3 <= usize::MAX);
            lemma_suffix_mono(m, 0, j as int);
        }
        let t = estimate_tokens(&messages[j]);
        accumulated = accumulated + t;
        if accumulated >= keep_recent_tokens {
            let mut k: usize = 0;
            proof {
                assert(cps.skip(0) =~= cps);
            }
            while k < cut_points.len()
                invariant_except_break
                    cut_index == 0,
                invariant
                    k <= cut_points@.len(),
                    cut_points@.map_values(|x: usize| x as int) == cps,
                    first_at_or_after(cps, j as int) == first_at_or_after(cps.skip(k as int), j as int),
                ensures
                    first_at_or_after(cps, j as int) matches Some(c) ==> cut_index as int == c,
                    first_at_or_after(cps, j as int) is None ==> cut_index == 0,
                decreases cut_points@.len() - k,
            {
                proof {
                    assert(cps.skip(k as int).drop_first() =~= cps.skip(k + 1));
                    assert(cps.skip(k as int)[0] == cut_points@[k as int] as int);
                }
                if cut_points[k] >= j {
                    cut_index = cut_points[k];
                    break;
                }
                k = k + 1;
            }
            proof {
                if k >= cut_points.len() {
                    assert(cps.skip(k as int) =~= Seq::<int>::empty());
                }
            }
            break;
        }
        i = j;
    }
    proof {
        if let Some(j) = legacy_reach(m, m.len() as int, keep_recent_tokens) {
            lemma_legacy_first(cps, j);
        }
        assert(cut_index < messages@.len()) by {
            if cut_index != 0 {
                let c = cut_index as int;
                assert(cps.contains(c));
            }
        }
    }
    let is_user = match &messages[cut_index] {
        AgentMessage::User(_) => true,
        _ => false,
    };
    let turn_start_index = if is_user {
        None
    } else {
        legacy_turn_start_exec(messages, cut_index)
    };
    proof {
        lemma_legacy_turn_start(m, cut_index as int);
    }
    CutPointResult {
        first_kept_index: cut_index,
        turn_start_index,
        is_split_turn: !is_user && turn_start_index.is_some(),
    }
}

/// The message an entry holds, if it holds one.
pub fn message_from_entry(entry: &SessionEntry) -> (r: Option<AgentMessage>)
    ensures
        r matches Some(msg) ==> (entry@ matches crate::persistence::entry::EntryView::Message { message, .. } && msg@ == message),
        r is None <==> entry@ is Compaction,
{
    match entry {
        SessionEntry::Message { message, .. } => Some(message.clone()),
        SessionEntry::Compaction { .. } => None,
    }
}


// ============================================================================
// Message serialization
// ============================================================================

/// The text blocks of a message run together.
pub open spec fn plain_text(c: Seq<ContentView>) -> Seq<char> {
    join(text_blocks(c), Seq::empty())
}

/// Bytes of a tool result kept in a serialized conversation.
pub open spec fn kept_result_bytes() -> nat {
    2000
}

/// A tool result as serialized: whole up to the byte limit, else its
/// longest prefix in whole characters within the limit and a note of how
/// many bytes lay beyond the limit.
pub open spec fn result_display(t: Seq<char>) -> Seq<char> {
    if utf8_len(t) > kept_result_bytes() {
        byte_prefix(t, kept_result_bytes()) + "\n[... "@ + decimal_spec(
            (utf8_len(t) - kept_result_bytes()) as nat,
        ) + " more characters truncated]"@
    } else {
        t
    }
}

/// A tool result can be serialized: its length fits a `usize`.
pub open spec fn result_serializable(t: Seq<char>) -> bool {
    utf8_len(t) <= usize::MAX
}

/// One line per block of an assistant message (images give none).
pub open spec fn assistant_block_lines(c: Seq<ContentView>) -> Seq<char>
    decreases c.len(),
{
    if c.len() == 0 {
        Seq::empty()
    } else {
        assistant_block_lines(c.drop_last()) + match c.last() {
            ContentView::Text { text } => "[Assistant]: "@ + text + "\n"@,
            ContentView::Thinking { thinking } => "[Assistant thinking]: "@ + thinking + "\n"@,
            ContentView::ToolCall(tc) => "[Assistant tool calls]: "@ + tc.name + "("@ + json_compact(
                tc.arguments,
            ) + ")\n"@,
            ContentView::Image { .. } => Seq::empty(),
        }
    }
}

/// A conversation as plain text for summarization.
pub open spec fn conversation_spec(m: Seq<MessageView>) -> Seq<char>
    decreases m.len(),
{
    if m.len() == 0 {
        Seq::empty()
    } else {
        conversation_spec(m.drop_last()) + match m.last() {
            MessageView::User { content, .. } => "[User]: "@ + plain_text(content) + "\n"@,
            MessageView::Assistant { content, .. } => assistant_block_lines(content),
            MessageView::ToolResult { content, .. } => "[Tool result]: "@ + result_display(
                plain_text(content),
            ) + "\n"@,
        }
    }
}

/// Every tool result of the conversation can be serialized.
pub open spec fn conversation_serializable(m: Seq<MessageView>) -> bool {
    forall|i: int|
        0 <= i < m.len() ==> ((#[trigger] m[i]) is ToolResult ==> result_serializable(
            plain_text(m[i].content()),
        ))
}

fn assistant_lines(content: &Vec<Content>) -> (r: String)
    ensures
        r@ == assistant_block_lines(contents_view(content@)),
{
    let ghost cv = contents_view(content@);
    let mut out = String::new();
    for i in 0..content.len()
        invariant
            cv == contents_view(content@),
            out@ == assistant_block_lines(cv.take(i as int)),
    {
        proof {
            assert(cv.take(i + 1).drop_last() =~= cv.take(i as int));
            assert(cv.take(i + 1).last() == content@[i as int]@);
        }
        match &content[i] {
            Content::Text { text } => {
                out.append("[Assistant]: ");
                out.append(text.as_str());
                out.append("\n");
            },
            Content::Thinking { thinking } => {
                out.append("[Assistant thinking]: ");
                out.append(thinking.as_str());
                out.append("\n");
            },
            Content::ToolCall(tc) => {
                let args = compact_json(tc.arguments.as_str());
                out.append("[Assistant tool calls]: ");
                out.append(tc.name.as_str());
                out.append("(");
                out.append(args.as_str());
                out.append(")\n");
            },
            Content::Image { .. } => {
                proof {
                    assert(out@ =~= out@ + Seq::<char>::empty());
                }
            },
        }
    }
    proof {
        assert(cv.take(content@.len() as int) =~= cv);
    }
    out
}

fn display_result(text: String) -> (r: String)
    requires
        result_serializable(text@),
    ensures
        r@ == result_display(text@),
{
    let n = text.as_str().len();
    if n > 2000 {
        let head = cut_to_bytes(text.as_str(), 2000);
        let more = decimal((n - 2000) as u64);
        head.concat("\n[... ").concat(more.as_str()).concat(" more characters truncated]")
    } else {
        text
    }
}

/// Serializes a conversation to plain text for summarization: `[User]:`
/// lines, one line per assistant block, `[Tool result]:` lines with long
/// results cut.
pub fn serialize_conversation(messages: &Vec<AgentMessage>) -> (r: String)
    requires
        conversation_serializable(messages_view(messages@)),
    ensures
        r@ == conversation_spec(messages_view(messages@)),
{
    let ghost m = messages_view(messages@);
    let mut out = String::new();
    for i in 0..messages.len()
        invariant
            m == messages_view(messages@),
            conversation_serializable(m),
            out@ == conversation_spec(m.take(i as int)),
    {
        proof {
            assert(m.take(i + 1).drop_last() =~= m.take(i as int));
            assert(m.take(i + 1).last() == m[i as int]);
            assert(m[i as int] is ToolResult ==> result_serializable(plain_text(m[i as int].content())));
            assert(m[i as int] == messages@[i as int]@);
            reveal_strlit("");
            assert(""@ =~= Seq::<char>::empty());
        }
        match &messages[i] {
            AgentMessage::User(u) => {
                let t = crate::harness::compaction::joined_text(&u.content, "");
                out.append("[User]: ");
                out.append(t.as_str());
                out.append("\n");
            },
            AgentMessage::Assistant(a) => {
                let lines = assistant_lines(&a.content);
                out.append(lines.as_str());
            },
            AgentMessage::ToolResult(tr) => {
                let t = crate::harness::compaction::joined_text(&tr.content, "");
                proof {
                    assert(m[i as int].content() == contents_view(tr.content@));
                }
                let d = display_result(t);
                out.append("[Tool result]: ");
                out.append(d.as_str());
                out.append("\n");
            },
        }
    }
    proof {
        assert(m.take(messages@.len() as int) =~= m);
    }
    out
}


// ============================================================================
// Compaction preparation
// ============================================================================

/// What a compaction summarizes and keeps.
#[derive(Debug)]
pub struct CompactionPreparation {
    pub first_kept_entry_id: u128,
    pub messages_to_summarize: Vec<AgentMessage>,
    pub turn_prefix_messages: Vec<AgentMessage>,
    pub is_split_turn: bool,
    pub tokens_before: u64,
    pub previous_summary: Option<String>,
    pub file_ops: FileOperations,
}

/// Index of the first entry (of any kind) with the given id.
pub open spec fn entry_index_of(s: Seq<EntryView>, id: u128) -> Option<int>
    decreases s.len(),
{
    if s.len() == 0 {
        None
    } else {
        match entry_index_of(s.drop_last(), id) {
            Some(i) => Some(i),
            None => if s.last().id() == id {
                Some(s.len() - 1)
            } else {
                None
            },
        }
    }
}

/// The paths the tool calls of messages touch with the named tool.
pub open spec fn messages_paths(m: Seq<MessageView>, tool: Seq<char>) -> Set<Seq<char>>
    decreases m.len(),
{
    if m.len() == 0 {
        Set::empty()
    } else {
        messages_paths(m.drop_last(), tool).union(calls_paths(m.last(), tool))
    }
}

/// Where the summarized part starts: at the entry the last compaction kept
/// first (or just after that compaction when the entry is gone), else at
/// the start.
pub open spec fn legacy_boundary(s: Seq<EntryView>) -> int {
    match last_compaction_index(s) {
        Some(idx) => match s[idx] {
            EntryView::Compaction { first_kept_entry_id, .. } => match entry_index_of(s, first_kept_entry_id) {
                Some(p) => p,
                None => idx + 1,
            },
            _ => 0,
        },
        None => 0,
    }
}

/// The summary of the last compaction, if any.
pub open spec fn legacy_previous_summary(s: Seq<EntryView>) -> Option<Seq<char>> {
    match last_compaction_index(s) {
        Some(idx) => match s[idx] {
            EntryView::Compaction { summary, .. } => Some(summary),
            _ => None,
        },
        None => None,
    }
}

/// The message estimates of the entries can be computed.
pub open spec fn legacy_entries_fit(s: Seq<EntryView>) -> bool {
    let m = message_entries(s);
    &&& legacy_fits(m)
    &&& last_baseline(m, m.len() as int) matches Some(k) ==> legacy_baseline(m[k]).unwrap() + suffix_tokens(m, k + 1) <= u64::MAX
}

/// What the preparation of a non-empty history holds. The cut point is
/// found among the messages and its index then names an entry; the
/// summarized part runs from the boundary to the end of the history
/// (the start of a split turn, or the cut), the prefix of a split turn from
/// its start to the cut.
pub open spec fn legacy_prepared(s: Seq<EntryView>, keep: u64, p: CompactionPreparation) -> bool {
    let m = message_entries(s);
    let cut = legacy_cut_spec(m, keep);
    let first = cut.first_kept_index as int;
    let hend = if cut.is_split_turn {
        match cut.turn_start_index {
            Some(t) => t as int,
            None => first,
        }
    } else {
        first
    };
    let bs = legacy_boundary(s);
    let summarized = message_entries(s.subrange(bs, if hend < bs { bs } else { hend }));
    let pstart = match cut.turn_start_index {
        Some(t) => t as int,
        None => 0,
    };
    let prefix = if cut.is_split_turn {
        message_entries(s.subrange(pstart, if first < pstart { pstart } else { first }))
    } else {
        Seq::empty()
    };
    &&& p.first_kept_entry_id == s[first].id()
    &&& messages_view(p.messages_to_summarize@) == summarized
    &&& messages_view(p.turn_prefix_messages@) == prefix
    &&& p.is_split_turn == cut.is_split_turn
    &&& p.tokens_before == usage_estimate_spec(m).tokens
    &&& opt_str_view(p.previous_summary) == legacy_previous_summary(s)
    &&& p.file_ops.wf()
    &&& p.file_ops.read_set() == messages_paths(summarized + prefix, "read"@)
    &&& p.file_ops.written_set() == messages_paths(summarized + prefix, "write"@)
    &&& p.file_ops.edited_set() == messages_paths(summarized + prefix, "edit"@)
}

fn entry_position(entries: &[SessionEntry], id: u128) -> (r: Option<usize>)
    ensures
        r matches Some(p) ==> entry_index_of(entries_view(entries@), id) == Some(p as int) && p < entries@.len(),
        r is None ==> entry_index_of(entries_view(entries@), id) is None,
{
    let ghost s = entries_view(entries@);
    let n = entries.len();
    for i in 0..n
        invariant
            n == entries@.len(),
            s == entries_view(entries@),
            entry_index_of(s.take(i as int), id) is None,
    {
        proof {
            assert(s.take(i + 1).drop_last() =~= s.take(i as int));
            assert(s.take(i + 1).last() == entries@[i as int]@);
        }
        if entries[i].id() == id {
            proof {
                lemma_entry_index_prefix(s, i + 1, id);
            }
            return Some(i);
        }
    }
    proof {
        assert(s.take(n as int) =~= s);
    }
    None
}

/// The first index in a prefix is the first index in the whole.
proof fn lemma_entry_index_prefix(s: Seq<EntryView>, k: int, id: u128)
    requires
        0 <= k <= s.len(),
        entry_index_of(s.take(k), id) is Some,
    ensures
        entry_index_of(s, id) == entry_index_of(s.take(k), id),
    decreases s.len() - k,
{
    if k < s.len() {
        assert(s.take(k + 1).drop_last() =~= s.take(k));
        lemma_entry_index_prefix(s, k + 1, id);
    } else {
        assert(s.take(k) =~= s);
    }
}

proof fn lemma_entry_index_bound(s: Seq<EntryView>, id: u128)
    ensures
        entry_index_of(s, id) matches Some(i) ==> 0 <= i < s.len(),
    decreases s.len(),
{
    if s.len() > 0 {
        lemma_entry_index_bound(s.drop_last(), id);
    }
}

proof fn lemma_messages_paths_append(a: Seq<MessageView>, b: Seq<MessageView>, tool: Seq<char>)
    ensures
        messages_paths(a + b, tool) == messages_paths(a, tool).union(messages_paths(b, tool)),
    decreases b.len(),
{
    if b.len() == 0 {
        assert(a + b =~= a);
        assert(messages_paths(a, tool).union(Set::empty()) =~= messages_paths(a, tool));
    } else {
        assert((a + b).drop_last() =~= a + b.drop_last());
        assert((a + b).last() == b.last());
        lemma_messages_paths_append(a, b.drop_last(), tool);
        assert(messages_paths(a + b, tool) =~= messages_paths(a, tool).union(messages_paths(b, tool)));
    }
}

/// The number of messages among entries is at most the number of entries.
proof fn lemma_message_entries_len(s: Seq<EntryView>)
    ensures
        message_entries(s).len() <= s.len(),
    decreases s.len(),
{
    if s.len() > 0 {
        lemma_message_entries_len(s.drop_last());
    }
}

fn extract_all(messages: &Vec<AgentMessage>, ops: &mut FileOperations)
    requires
        old(ops).wf(),
    ensures
        final(ops).wf(),
        final(ops).read_set() == old(ops).read_set().union(messages_paths(messages_view(messages@), "read"@)),
        final(ops).written_set() == old(ops).written_set().union(messages_paths(messages_view(messages@), "write"@)),
        final(ops).edited_set() == old(ops).edited_set().union(messages_paths(messages_view(messages@), "edit"@)),
{
    let ghost m = messages_view(messages@);
    for i in 0..messages.len()
        invariant
            m == messages_view(messages@),
            ops.wf(),
            ops.read_set() == old(ops).read_set().union(messages_paths(m.take(i as int), "read"@)),
            ops.written_set() == old(ops).written_set().union(messages_paths(m.take(i as int), "write"@)),
            ops.edited_set() == old(ops).edited_set().union(messages_paths(m.take(i as int), "edit"@)),
    {
        proof {
            assert(m.take(i + 1).drop_last() =~= m.take(i as int));
            assert(m.take(i + 1).last() == messages@[i as int]@);
        }
        extract_file_ops_from_message(&messages[i], ops);
        proof {
            assert(ops.read_set() =~= old(ops).read_set().union(messages_paths(m.take(i + 1), "read"@)));
            assert(ops.written_set() =~= old(ops).written_set().union(messages_paths(m.take(i + 1), "write"@)));
            assert(ops.edited_set() =~= old(ops).edited_set().union(messages_paths(m.take(i + 1), "edit"@)));
        }
    }
    proof {
        assert(m.take(messages@.len() as int) =~= m);
    }
}

/// Prepares a compaction of a history: `None` for an empty history;
/// otherwise the boundary of the last compaction, the cut point keeping
/// about `keep_recent_tokens`, the messages to summarize and the file
/// operations among them.
pub fn prepare_compaction(entries: &[SessionEntry], settings: &CompactionSettings) -> (r: Option<CompactionPreparation>)
    requires
        legacy_entries_fit(entries_view(entries@)),
    ensures
        r is None <==> entries@.len() == 0,
        r matches Some(p) ==> legacy_prepared(entries_view(entries@), settings.keep_recent_tokens, p),
{
    let ghost s = entries_view(entries@);
    if entries.len() == 0 {
        return None;
    }
    proof {
        lemma_last_compaction_index(s);
    }
    let prev = last_compaction_position(entries);
    let mut previous_summary: Option<String> = None;
    let mut boundary_start: usize = 0;
    if let Some(idx) = prev {
        if let SessionEntry::Compaction { summary, first_kept_entry_id, .. } = &entries[idx] {
            previous_summary = Some(summary.clone());
            boundary_start = match entry_position(entries, *first_kept_entry_id) {
                Some(p) => p,
                None => idx + 1,
            };
        }
    }
    proof {
        assert(opt_str_view(previous_summary) == legacy_previous_summary(s));
        assert(boundary_start == legacy_boundary(s));
        assert(boundary_start <= entries@.len());
    }
    let messages = collect_messages(entries, 0, entries.len());
    proof {
        assert(s.subrange(0, entries@.len() as int) =~= s);
        lemma_message_entries_len(s);
    }
    let estimate = estimate_context_tokens(&messages);
    let tokens_before = estimate.tokens;
    let cut = find_cut_point(&messages, settings.keep_recent_tokens);
    proof {
        lemma_legacy_cut_bounds(messages_view(messages@), settings.keep_recent_tokens);
    }
    let first_kept_entry_id = entries[cut.first_kept_index].id();
    let history_end = if cut.is_split_turn {
        match cut.turn_start_index {
            Some(t) => t,
            None => cut.first_kept_index,
        }
    } else {
        cut.first_kept_index
    };
    let summarize_end = if history_end < boundary_start { boundary_start } else { history_end };
    let messages_to_summarize = collect_messages(entries, boundary_start, summarize_end);
    let turn_prefix_messages = if cut.is_split_turn {
        let start = match cut.turn_start_index {
            Some(t) => t,
            None => 0,
        };
        let end = if cut.first_kept_index < start { start } else { cut.first_kept_index };
        collect_messages(entries, start, end)
    } else {
        Vec::new()
    };
    let mut file_ops = FileOperations::default();
    proof {
        assert(file_ops.read_set() =~= Set::<Seq<char>>::empty());
        assert(file_ops.written_set() =~= Set::<Seq<char>>::empty());
        assert(file_ops.edited_set() =~= Set::<Seq<char>>::empty());
        assert(strings_view(file_ops.read@) =~= Seq::<Seq<char>>::empty());
        assert(strings_view(file_ops.written@) =~= Seq::<Seq<char>>::empty());
        assert(strings_view(file_ops.edited@) =~= Seq::<Seq<char>>::empty());
    }
    extract_all(&messages_to_summarize, &mut file_ops);
    if cut.is_split_turn {
        extract_all(&turn_prefix_messages, &mut file_ops);
    }
    proof {
        let a = messages_view(messages_to_summarize@);
        let b = messages_view(turn_prefix_messages@);
        lemma_messages_paths_append(a, b, "read"@);
        lemma_messages_paths_append(a, b, "write"@);
        lemma_messages_paths_append(a, b, "edit"@);
        if !cut.is_split_turn {
            assert(b =~= Seq::<MessageView>::empty());
        }
        assert(file_ops.read_set() =~= messages_paths(a + b, "read"@));
        assert(file_ops.written_set() =~= messages_paths(a + b, "write"@));
        assert(file_ops.edited_set() =~= messages_paths(a + b, "edit"@));
    }
    Some(
        CompactionPreparation {
            first_kept_entry_id,
            messages_to_summarize,
            turn_prefix_messages,
            is_split_turn: cut.is_split_turn,
            tokens_before,
            previous_summary,
            file_ops,
        },
    )
}

} // verus!
