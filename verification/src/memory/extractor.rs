//! The retrieval query of a turn: the text of the most recent user messages.
use vstd::prelude::*;

use crate::harness::session::{join, text_blocks};
use crate::types::{messages_view, AgentMessage, Content, MessageView};

verus! {

/// The text of a user message: its text blocks joined by spaces.
pub open spec fn user_text(content: Seq<crate::types::ContentView>) -> Seq<char> {
    join(text_blocks(content), " "@)
}

/// Walking back from message `i - 1`, the texts of the next `want` user
/// messages, newest first (other messages are passed over).
pub open spec fn query_parts(m: Seq<MessageView>, i: int, want: nat) -> Seq<Seq<char>>
    decreases i,
{
    if i <= 0 || want == 0 || m.len() < i {
        Seq::empty()
    } else {
        match m[i - 1] {
            MessageView::User { content, .. } => seq![user_text(content)] + query_parts(
                m,
                i - 1,
                (want - 1) as nat,
            ),
            _ => query_parts(m, i - 1, want),
        }
    }
}

/// The retrieval query: the texts of the (up to) three most recent user
/// messages, newest first, one per line.
pub open spec fn query_spec(m: Seq<MessageView>) -> Seq<char> {
    join(query_parts(m, m.len() as int, 3), "\n"@)
}

fn join_texts(content: &Vec<Content>) -> (r: String)
    ensures
        r@ == join(text_blocks(crate::types::contents_view(content@)), " "@),
{
    let ghost cv = crate::types::contents_view(content@);
    let mut r = String::new();
    let mut first = true;
    for i in 0..content.len()
        invariant
            cv == crate::types::contents_view(content@),
            first == (text_blocks(cv.take(i as int)).len() == 0),
            r@ == join(text_blocks(cv.take(i as int)), " "@),
    {
        proof {
            assert(cv.take(i + 1).drop_last() =~= cv.take(i as int));
        }
        if let Content::Text { text } = &content[i] {
            if !first {
                r.append(" ");
            }
            r.append(text.as_str());
            proof {
                let tb = text_blocks(cv.take(i as int));
                if first {
                    assert(r@ =~= tb.push(text@)[0]);
                } else {
                    assert(tb.push(text@).drop_last() =~= tb);
                }
            }
            first = false;
        }
    }
    proof {
        assert(cv.take(content@.len() as int) =~= cv);
    }
    r
}

/// Builds a retrieval query from the (up to) three most recent user
/// messages, newest first.
pub fn build_query_string(messages: &Vec<AgentMessage>) -> (r: String)
    ensures
        r@ == query_spec(messages_view(messages@)),
{
    let ghost m = messages_view(messages@);
    let ghost full = query_parts(m, m.len() as int, 3);
    let ghost mut acc: Seq<Seq<char>> = Seq::empty();
    let n = messages.len();
    let mut i: usize = n;
    let mut found: usize = 0;
    let mut r = String::new();
    while i > 0 && found < 3
        invariant
            m == messages_view(messages@),
            n == m.len(),
            full == query_parts(m, m.len() as int, 3),
            i <= n,
            found <= 3,
            acc.len() == found,
            acc + query_parts(m, i as int, (3 - found) as nat) == full,
            r@ == join(acc, "\n"@),
        decreases i,
    {
        if let AgentMessage::User(u) = &messages[i - 1] {
            let t = join_texts(&u.content);
            if found > 0 {
                r.append("\n");
            }
            r.append(t.as_str());
            proof {
                let rest = query_parts(m, i - 1, (3 - found - 1) as nat);
                assert(query_parts(m, i as int, (3 - found) as nat) == seq![t@] + rest);
                assert(acc.push(t@) + rest =~= acc + (seq![t@] + rest));
                if found == 0 {
                    assert(r@ =~= acc.push(t@)[0]);
                } else {
                    assert(acc.push(t@).drop_last() =~= acc);
                }
                acc = acc.push(t@);
            }
            found = found + 1;
        }
        i = i - 1;
    }
    proof {
        assert(query_parts(m, i as int, (3 - found) as nat) == Seq::<Seq<char>>::empty());
        assert(acc + Seq::<Seq<char>>::empty() =~= acc);
    }
    r
}

} // verus!
