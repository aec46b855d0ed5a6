//! Turn transcripts for an external memory system: a Markdown rendering of
//! a turn's messages and a summary of its tool calls.
use vstd::prelude::*;
use vstd::string::*;
use vstd::utf8::*;

use crate::file_ops::calls_of;
use crate::harness::session::{join, text_blocks};
use crate::text::{byte_prefix, cut_to_bytes, decimal, decimal_spec, utf8_len};
use crate::types::{contents_view, messages_view, AgentMessage, Content, ContentView, MessageView};

verus! {

/// Summary of a tool call for metadata purposes (name and outcome).
#[derive(Debug, Clone, PartialEq, Eq)]
pub struct TurnToolCallSummary {
    pub name: String,
    pub is_error: bool,
    /// Bytes of the result's text.
    pub result_len: usize,
}

/// The text blocks of a message, one per line.
pub open spec fn message_text(c: Seq<ContentView>) -> Seq<char> {
    join(text_blocks(c), "\n"@)
}

/// Bytes of a tool result shown in a transcript.
pub open spec fn shown_bytes() -> nat {
    500
}

/// A result text as shown: whole up to the byte limit, else its longest
/// prefix in whole characters within the limit and a note of its full
/// length.
pub open spec fn shown_text(t: Seq<char>) -> Seq<char> {
    if utf8_len(t) <= shown_bytes() {
        t
    } else {
        byte_prefix(t, shown_bytes()) + "...(截断, 共 "@ + decimal_spec(utf8_len(t)) + " 字符)"@
    }
}

/// A result text can be shown: its byte length fits a `usize`.
pub open spec fn showable(t: Seq<char>) -> bool {
    utf8_len(t) <= usize::MAX
}

/// One line per tool call.
pub open spec fn tool_call_lines(calls: Seq<crate::types::ToolCallView>) -> Seq<char>
    decreases calls.len(),
{
    if calls.len() == 0 {
        Seq::empty()
    } else {
        tool_call_lines(calls.drop_last()) + "**ToolCall["@ + calls.last().name
            + "]**: (see ToolResult below)\n\n"@
    }
}

/// The transcript lines of one message.
pub open spec fn message_block(m: MessageView) -> Seq<char> {
    match m {
        MessageView::User { content, .. } => {
            let t = message_text(content);
            if t.len() > 0 {
                "**User**: "@ + t + "\n\n"@
            } else {
                Seq::empty()
            }
        },
        MessageView::Assistant { content, .. } => {
            let t = message_text(content);
            tool_call_lines(calls_of(content)) + if t.len() > 0 {
                "**Assistant**: "@ + t + "\n\n"@
            } else {
                Seq::empty()
            }
        },
        MessageView::ToolResult { tool_name, content, is_error, .. } => {
            let t = message_text(content);
            "**ToolResult["@ + tool_name + "]**: ("@ + (if is_error {
                "失败"@
            } else {
                "成功"@
            }) + ", "@ + decimal_spec(utf8_len(t)) + " 字符)\n"@ + shown_text(t) + "\n\n"@
        },
    }
}

/// The transcript of the messages `m`, in order.
pub open spec fn blocks_spec(m: Seq<MessageView>) -> Seq<char>
    decreases m.len(),
{
    if m.len() == 0 {
        Seq::empty()
    } else {
        blocks_spec(m.drop_last()) + message_block(m.last())
    }
}

/// The transcript of a turn: a heading, then the lines of each message.
pub open spec fn turn_content_spec(turn_index: u64, m: Seq<MessageView>) -> Seq<char> {
    "## Turn "@ + decimal_spec(turn_index as nat) + "\n\n"@ + blocks_spec(m)
}

/// Every tool result of the turn can be shown.
pub open spec fn turn_showable(m: Seq<MessageView>) -> bool {
    forall|i: int|
        0 <= i < m.len() ==> ((#[trigger] m[i]) is ToolResult ==> showable(message_text(m[i].content())))
}

fn collect_text(content: &Vec<Content>) -> (r: String)
    ensures
        r@ == message_text(contents_view(content@)),
{
    let ghost cv = contents_view(content@);
    let mut r = String::new();
    let mut first = true;
    for i in 0..content.len()
        invariant
            cv == contents_view(content@),
            first == (text_blocks(cv.take(i as int)).len() == 0),
            r@ == join(text_blocks(cv.take(i as int)), "\n"@),
    {
        proof {
            assert(cv.take(i + 1).drop_last() =~= cv.take(i as int));
        }
        if let Content::Text { text } = &content[i] {
            if !first {
                r.append("\n");
            }
            r.append(text.as_str());
            proof {
                let tb = text_blocks(cv.take(i as int));
                if first {
                    assert(r@ =~= tb.push(text@)[0]);
                } else {
                    assert(tb.push(text@).drop_last() =~= tb);
                }
            }
            first = false;
        }
    }
    proof {
        assert(cv.take(content@.len() as int) =~= cv);
    }
    r
}

fn byte_len(s: &String) -> (n: usize)
    requires
        utf8_len(s@) <= usize::MAX,
    ensures
        n == utf8_len(s@),
{
    s.as_str().len()
}

/// A result text as shown in a transcript.
fn truncate_text(text: &String) -> (r: String)
    requires
        showable(text@),
    ensures
        r@ == shown_text(text@),
{
    let n = byte_len(text);
    if n <= 500 {
        text.clone()
    } else {
        let head = cut_to_bytes(text.as_str(), 500);
        let count = decimal(n as u64);
        head.concat("...(截断, 共 ").concat(count.as_str()).concat(" 字符)")
    }
}

fn message_lines(m: &AgentMessage) -> (r: String)
    requires
        m@ is ToolResult ==> showable(message_text(m@.content())),
    ensures
        r@ == message_block(m@),
{
    match m {
        AgentMessage::User(u) => {
            let t = collect_text(&u.content);
            if t.as_str().is_empty() {
                String::new()
            } else {
                "**User**: ".to_owned().concat(t.as_str()).concat("\n\n")
            }
        },
        AgentMessage::Assistant(a) => {
            let ghost cv = contents_view(a.content@);
            let mut out = String::new();
            for i in 0..a.content.len()
                invariant
                    cv == contents_view(a.content@),
                    out@ == tool_call_lines(calls_of(cv.take(i as int))),
            {
                proof {
                    assert(cv.take(i + 1).drop_last() =~= cv.take(i as int));
                }
                if let Content::ToolCall(tc) = &a.content[i] {
                    out.append("**ToolCall[");
                    out.append(tc.name.as_str());
                    out.append("]**: (see ToolResult below)\n\n");
                    proof {
                        assert(calls_of(cv.take(i + 1)) == calls_of(cv.take(i as int)).push(tc@));
                        assert(calls_of(cv.take(i + 1)).drop_last() =~= calls_of(cv.take(i as int)));
                    }
                } else {
                    proof {
                        assert(calls_of(cv.take(i + 1)) == calls_of(cv.take(i as int)));
                    }
                }
            }
            proof {
                assert(cv.take(a.content@.len() as int) =~= cv);
            }
            let t = collect_text(&a.content);
            if t.as_str().is_empty() {
                proof {
                    assert(out@ =~= out@ + Seq::<char>::empty());
                }
                out
            } else {
                out.concat("**Assistant**: ").concat(t.as_str()).concat("\n\n")
            }
        },
        AgentMessage::ToolResult(tr) => {
            let t = collect_text(&tr.content);
            let status = if tr.is_error {
                "失败"
            } else {
                "成功"
            };
            let shown = truncate_text(&t);
            let n = byte_len(&t);
            let count = decimal(n as u64);
            "**ToolResult[".to_owned().concat(tr.tool_name.as_str()).concat("]**: (").concat(
                status,
            ).concat(", ").concat(count.as_str()).concat(" 字符)\n").concat(shown.as_str()).concat(
                "\n\n",
            )
        },
    }
}

/// Formats a turn's messages as Markdown for an external memory system.
pub fn format_turn_content(turn_index: u64, messages: &Vec<AgentMessage>) -> (r: String)
    requires
        turn_showable(messages_view(messages@)),
    ensures
        r@ == turn_content_spec(turn_index, messages_view(messages@)),
{
    let ghost m = messages_view(messages@);
    let n = decimal(turn_index);
    let mut out = "## Turn ".to_owned().concat(n.as_str()).concat("\n\n");
    let ghost head = out@;
    for i in 0..messages.len()
        invariant
            m == messages_view(messages@),
            turn_showable(m),
            out@ == head + blocks_spec(m.take(i as int)),
    {
        proof {
            assert(m.take(i + 1).drop_last() =~= m.take(i as int));
            assert(m[i as int] is ToolResult ==> showable(message_text(m[i as int].content())));
        }
        let lines = message_lines(&messages[i]);
        out.append(lines.as_str());
    }
    proof {
        assert(m.take(messages@.len() as int) =~= m);
    }
    out
}

/// The summary of the tool results of the messages `m`, the calls' names
/// taken in order from `queue` (then from the assistant messages met), a
/// result's own tool name when no call is pending.
pub open spec fn summaries_spec(m: Seq<MessageView>, queue: Seq<Seq<char>>) -> Seq<(Seq<char>, bool, nat)>
    decreases m.len(),
{
    if m.len() == 0 {
        Seq::empty()
    } else {
        match m[0] {
            MessageView::Assistant { content, .. } => summaries_spec(
                m.drop_first(),
                queue + calls_of(content).map_values(|c: crate::types::ToolCallView| c.name),
            ),
            MessageView::ToolResult { tool_name, content, is_error, .. } => {
                let name = if queue.len() > 0 {
                    queue[0]
                } else {
                    tool_name
                };
                let rest = if queue.len() > 0 {
                    queue.drop_first()
                } else {
                    queue
                };
                seq![(name, is_error, utf8_len(message_text(content)))] + summaries_spec(
                    m.drop_first(),
                    rest,
                )
            },
            _ => summaries_spec(m.drop_first(), queue),
        }
    }
}

/// Abstract value of a list of summaries.
pub open spec fn summaries_view(v: Seq<TurnToolCallSummary>) -> Seq<(Seq<char>, bool, nat)> {
    v.map_values(|s: TurnToolCallSummary| (s.name@, s.is_error, s.result_len as nat))
}

/// Every tool result's text has a byte length that fits a `usize`.
pub open spec fn texts_fit(m: Seq<MessageView>) -> bool {
    forall|i: int|
        0 <= i < m.len() ==> ((#[trigger] m[i]) is ToolResult ==> utf8_len(message_text(m[i].content()))
            <= usize::MAX)
}

/// Extracts the tool call summaries of a turn: one per tool result, named
/// after the pending tool calls in order.
pub fn extract_tool_summaries(messages: &Vec<AgentMessage>) -> (r: Vec<TurnToolCallSummary>)
    requires
        texts_fit(messages_view(messages@)),
    ensures
        summaries_view(r@) == summaries_spec(messages_view(messages@), Seq::empty()),
{
    let ghost m = messages_view(messages@);
    let mut summaries: Vec<TurnToolCallSummary> = Vec::new();
    let mut names: Vec<String> = Vec::new();
    proof {
        assert(m.skip(0) =~= m);
        assert(summaries_view(summaries@) =~= Seq::<(Seq<char>, bool, nat)>::empty());
        assert(crate::file_ops::strings_view(names@) =~= Seq::<Seq<char>>::empty());
        assert(Seq::<(Seq<char>, bool, nat)>::empty() + summaries_spec(m, Seq::empty()) =~= summaries_spec(m, Seq::empty()));
    }
    for i in 0..messages.len()
        invariant
            m == messages_view(messages@),
            texts_fit(m),
            summaries_view(summaries@) + summaries_spec(m.skip(i as int), crate::file_ops::strings_view(names@))
                == summaries_spec(m, Seq::empty()),
    {
        let ghost before_s = summaries_view(summaries@);
        let ghost before_q = crate::file_ops::strings_view(names@);
        proof {
            assert(m.skip(i as int)[0] == m[i as int]);
            assert(m.skip(i as int).drop_first() =~= m.skip(i + 1));
        }
        match &messages[i] {
            AgentMessage::Assistant(a) => {
                let ghost cv = contents_view(a.content@);
                for k in 0..a.content.len()
                    invariant
                        cv == contents_view(a.content@),
                        crate::file_ops::strings_view(names@) == before_q + calls_of(cv.take(k as int)).map_values(
                            |c: crate::types::ToolCallView| c.name,
                        ),
                {
                    proof {
                        assert(cv.take(k + 1).drop_last() =~= cv.take(k as int));
                    }
                    if let Content::ToolCall(tc) = &a.content[k] {
                        let ghost q = crate::file_ops::strings_view(names@);
                        names.push(tc.name.clone());
                        proof {
                            assert(crate::file_ops::strings_view(names@) =~= q.push(tc.name@));
                            assert(calls_of(cv.take(k + 1)) == calls_of(cv.take(k as int)).push(tc@));
                            assert(calls_of(cv.take(k + 1)).map_values(|c: crate::types::ToolCallView| c.name)
                                =~= calls_of(cv.take(k as int)).map_values(|c: crate::types::ToolCallView| c.name).push(tc.name@));
                        }
                    } else {
                        proof {
                            assert(calls_of(cv.take(k + 1)) == calls_of(cv.take(k as int)));
                        }
                    }
                }
                proof {
                    assert(cv.take(a.content@.len() as int) =~= cv);
                }
            },
            AgentMessage::ToolResult(tr) => {
                let name = if names.len() > 0 {
                    names.remove(0)
                } else {
                    tr.tool_name.clone()
                };
                proof {
                    if before_q.len() > 0 {
                        assert(crate::file_ops::strings_view(names@) =~= before_q.drop_first());
                    }
                    assert(m[i as int] is ToolResult);
                }
                let t = collect_text(&tr.content);
                let len = byte_len(&t);
                summaries.push(TurnToolCallSummary { name, is_error: tr.is_error, result_len: len });
                proof {
                    assert(summaries_view(summaries@) =~= before_s.push(
                        summaries_view(summaries@).last(),
                    ));
                    assert(summaries_view(summaries@) + summaries_spec(
                        m.skip(i + 1),
                        crate::file_ops::strings_view(names@),
                    ) =~= before_s + summaries_spec(m.skip(i as int), before_q));
                }
            },
            AgentMessage::User(_) => {},
        }
    }
    proof {
        assert(m.skip(messages@.len() as int) =~= Seq::<MessageView>::empty());
        assert(summaries_view(summaries@) + Seq::empty() =~= summaries_view(summaries@));
    }
    summaries
}

} // verus!
