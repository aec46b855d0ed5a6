//! File operations observed in a conversation segment.
use vstd::prelude::*;

use crate::json::{json_str_field, str_field};
use crate::text::{insert_sorted_unique, str_eq, strictly_sorted};
use crate::types::{messages_view, AgentMessage, Content, ContentView, MessageView, ToolCallView};

verus! {

/// Tracks file operations observed in a conversation segment.
#[derive(Debug)]
pub struct FileOperations {
    pub read: Vec<String>,
    pub written: Vec<String>,
    pub edited: Vec<String>,
}

/// Abstract value of a list of texts.
pub open spec fn strings_view(v: Seq<String>) -> Seq<Seq<char>> {
    v.map_values(|s: String| s@)
}

impl Default for FileOperations {
    fn default() -> (r: Self)
        ensures
            r.read@.len() == 0,
            r.written@.len() == 0,
            r.edited@.len() == 0,
    {
        FileOperations { read: Vec::new(), written: Vec::new(), edited: Vec::new() }
    }
}

/// Extracts file operations from assistant tool calls.
pub trait FileOperationExtractor {
    fn extract(&self, messages: &[AgentMessage]) -> FileOperations;
}

/// Default implementation based on tool name matching.
#[derive(Debug)]
pub struct DefaultFileOperationExtractor {
    pub read_tool_names: Vec<String>,
    pub write_tool_names: Vec<String>,
    pub edit_tool_names: Vec<String>,
    pub path_arg_name: String,
}

impl Default for DefaultFileOperationExtractor {
    fn default() -> (r: Self)
        ensures
            strings_view(r.read_tool_names@) == seq!["read"@],
            strings_view(r.write_tool_names@) == seq!["write"@],
            strings_view(r.edit_tool_names@) == seq!["edit"@],
            r.path_arg_name@ == "path"@,
    {
        let mut read_tool_names = Vec::new();
        read_tool_names.push(String::from_str("read"));
        let mut write_tool_names = Vec::new();
        write_tool_names.push(String::from_str("write"));
        let mut edit_tool_names = Vec::new();
        edit_tool_names.push(String::from_str("edit"));
        let r = DefaultFileOperationExtractor {
            read_tool_names,
            write_tool_names,
            edit_tool_names,
            path_arg_name: String::from_str("path"),
        };
        proof {
            assert(strings_view(r.read_tool_names@) =~= seq!["read"@]);
            assert(strings_view(r.write_tool_names@) =~= seq!["write"@]);
            assert(strings_view(r.edit_tool_names@) =~= seq!["edit"@]);
        }
        r
    }
}

/// The tool calls of a list of content blocks, in order.
pub open spec fn calls_of(c: Seq<ContentView>) -> Seq<ToolCallView>
    decreases c.len(),
{
    if c.len() == 0 {
        Seq::empty()
    } else {
        match c.last() {
            ContentView::ToolCall(tc) => calls_of(c.drop_last()).push(tc),
            _ => calls_of(c.drop_last()),
        }
    }
}

/// The tool calls requested by the assistant messages, in order.
pub open spec fn assistant_calls(m: Seq<MessageView>) -> Seq<ToolCallView>
    decreases m.len(),
{
    if m.len() == 0 {
        Seq::empty()
    } else {
        match m.last() {
            MessageView::Assistant { content, .. } => assistant_calls(m.drop_last()) + calls_of(
                content,
            ),
            _ => assistant_calls(m.drop_last()),
        }
    }
}

/// Which list a tool name files its path under: 0 read, 1 written, 2 edited,
/// 3 none (the read names are tried first, then the write names).
pub open spec fn tool_class(
    name: Seq<char>,
    read: Seq<Seq<char>>,
    write: Seq<Seq<char>>,
    edit: Seq<Seq<char>>,
) -> nat {
    if read.contains(name) {
        0
    } else if write.contains(name) {
        1
    } else if edit.contains(name) {
        2
    } else {
        3
    }
}

impl DefaultFileOperationExtractor {
    /// The paths that tool calls of class `class` name under the path argument.
    pub open spec fn paths(self, calls: Seq<ToolCallView>, class: nat) -> Set<Seq<char>>
        decreases calls.len(),
    {
        if calls.len() == 0 {
            Set::empty()
        } else {
            let tc = calls.last();
            let prev = self.paths(calls.drop_last(), class);
            match json_str_field(tc.arguments, self.path_arg_name@) {
                Some(p) => if tool_class(
                    tc.name,
                    strings_view(self.read_tool_names@),
                    strings_view(self.write_tool_names@),
                    strings_view(self.edit_tool_names@),
                ) == class {
                    prev.insert(p)
                } else {
                    prev
                },
                None => prev,
            }
        }
    }

    /// Whether `name` is one of `names`.
    fn name_in(names: &Vec<String>, name: &str) -> (b: bool)
        ensures
            b == strings_view(names@).contains(name@),
    {
        let n = names.len();
        for i in 0..n
            invariant
                n == names@.len(),
                forall|m: int| 0 <= m < i ==> names@[m]@ != name@,
        {
            if str_eq(names[i].as_str(), name) {
                proof {
                    assert(strings_view(names@)[i as int] == name@);
                }
                return true;
            }
        }
        proof {
            if strings_view(names@).contains(name@) {
                let j = choose|j: int| 0 <= j < n && strings_view(names@)[j] == name@;
                assert(names@[j]@ == name@);
            }
        }
        false
    }

    /// Files the path of one tool call.
    fn file_call(&self, tc: &crate::types::ToolCall, ops: &mut FileOperations)
        requires
            strictly_sorted(strings_view(old(ops).read@)),
            strictly_sorted(strings_view(old(ops).written@)),
            strictly_sorted(strings_view(old(ops).edited@)),
        ensures
            strictly_sorted(strings_view(final(ops).read@)),
            strictly_sorted(strings_view(final(ops).written@)),
            strictly_sorted(strings_view(final(ops).edited@)),
            strings_view(final(ops).read@).to_set() == self.paths(
                seq![tc@],
                0,
            ).union(strings_view(old(ops).read@).to_set()),
            strings_view(final(ops).written@).to_set() == self.paths(
                seq![tc@],
                1,
            ).union(strings_view(old(ops).written@).to_set()),
            strings_view(final(ops).edited@).to_set() == self.paths(
                seq![tc@],
                2,
            ).union(strings_view(old(ops).edited@).to_set()),
    {
        proof {
            assert(seq![tc@].drop_last() =~= Seq::<ToolCallView>::empty());
            assert(seq![tc@].last() == tc@);
            assert(self.paths(Seq::<ToolCallView>::empty(), 0) == Set::<Seq<char>>::empty());
            assert(self.paths(Seq::<ToolCallView>::empty(), 1) == Set::<Seq<char>>::empty());
            assert(self.paths(Seq::<ToolCallView>::empty(), 2) == Set::<Seq<char>>::empty());
        }
        let path = str_field(tc.arguments.as_str(), self.path_arg_name.as_str());
        match path {
            Some(p) => {
                let ghost pv = p@;
                if Self::name_in(&self.read_tool_names, tc.name.as_str()) {
                    insert_sorted_unique(&mut ops.read, p);
                    proof {
                        assert(strings_view(ops.read@).to_set() =~= self.paths(seq![tc@], 0).union(
                            strings_view(old(ops).read@).to_set(),
                        ));
                        assert(self.paths(seq![tc@], 1) =~= Set::empty());
                        assert(self.paths(seq![tc@], 2) =~= Set::empty());
                    }
                } else if Self::name_in(&self.write_tool_names, tc.name.as_str()) {
                    insert_sorted_unique(&mut ops.written, p);
                    proof {
                        assert(strings_view(ops.written@).to_set() =~= self.paths(
                            seq![tc@],
                            1,
                        ).union(strings_view(old(ops).written@).to_set()));
                        assert(self.paths(seq![tc@], 0) =~= Set::empty());
                        assert(self.paths(seq![tc@], 2) =~= Set::empty());
                    }
                } else if Self::name_in(&self.edit_tool_names, tc.name.as_str()) {
                    insert_sorted_unique(&mut ops.edited, p);
                    proof {
                        assert(strings_view(ops.edited@).to_set() =~= self.paths(
                            seq![tc@],
                            2,
                        ).union(strings_view(old(ops).edited@).to_set()));
                        assert(self.paths(seq![tc@], 0) =~= Set::empty());
                        assert(self.paths(seq![tc@], 1) =~= Set::empty());
                    }
                } else {
                    proof {
                        assert(self.paths(seq![tc@], 0) =~= Set::empty());
                        assert(self.paths(seq![tc@], 1) =~= Set::empty());
                        assert(self.paths(seq![tc@], 2) =~= Set::empty());
                    }
                }
            },
            None => {
                proof {
                    assert(self.paths(seq![tc@], 0) =~= Set::empty());
                    assert(self.paths(seq![tc@], 1) =~= Set::empty());
                    assert(self.paths(seq![tc@], 2) =~= Set::empty());
                }
            },
        }
        proof {
            assert(self.paths(seq![tc@], 0).union(strings_view(old(ops).read@).to_set())
                =~= strings_view(ops.read@).to_set());
        }
    }
}

/// Paths of a concatenation of call lists.
pub proof fn lemma_paths_concat(
    e: DefaultFileOperationExtractor,
    a: Seq<ToolCallView>,
    b: Seq<ToolCallView>,
    class: nat,
)
    ensures
        e.paths(a + b, class) == e.paths(b, class).union(e.paths(a, class)),
    decreases b.len(),
{
    if b.len() == 0 {
        assert(a + b =~= a);
        assert(e.paths(a, class).union(Set::empty()) =~= e.paths(a, class));
    } else {
        assert((a + b).drop_last() =~= a + b.drop_last());
        assert((a + b).last() == b.last());
        lemma_paths_concat(e, a, b.drop_last(), class);
        assert(e.paths(a + b, class) =~= e.paths(b, class).union(e.paths(a, class)));
    }
}

impl FileOperationExtractor for DefaultFileOperationExtractor {
    /// Paths named by the assistant's tool calls, filed by tool name, each
    /// list sorted and without duplicates.
    fn extract(&self, messages: &[AgentMessage]) -> (r: FileOperations)
        ensures
            strictly_sorted(strings_view(r.read@)),
            strictly_sorted(strings_view(r.written@)),
            strictly_sorted(strings_view(r.edited@)),
            strings_view(r.read@).to_set() == self.paths(assistant_calls(messages_view(messages@)), 0),
            strings_view(r.written@).to_set() == self.paths(
                assistant_calls(messages_view(messages@)),
                1,
            ),
            strings_view(r.edited@).to_set() == self.paths(
                assistant_calls(messages_view(messages@)),
                2,
            ),
    {
        let mut ops = FileOperations::default();
        let ghost msgs = messages_view(messages@);
        proof {
            assert(strings_view(ops.read@).to_set() =~= Set::empty());
            assert(strings_view(ops.written@).to_set() =~= Set::empty());
            assert(strings_view(ops.edited@).to_set() =~= Set::empty());
        }
        let n = messages.len();
        for i in 0..n
            invariant
                n == messages@.len(),
                msgs == messages_view(messages@),
                strictly_sorted(strings_view(ops.read@)),
                strictly_sorted(strings_view(ops.written@)),
                strictly_sorted(strings_view(ops.edited@)),
                strings_view(ops.read@).to_set() == self.paths(assistant_calls(msgs.take(i as int)), 0),
                strings_view(ops.written@).to_set() == self.paths(assistant_calls(msgs.take(i as int)), 1),
                strings_view(ops.edited@).to_set() == self.paths(assistant_calls(msgs.take(i as int)), 2),
        {
            proof {
                assert(msgs.take(i + 1).drop_last() =~= msgs.take(i as int));
                assert(msgs.take(i + 1).last() == messages@[i as int]@);
            }
            if let AgentMessage::Assistant(a) = &messages[i] {
                let ghost base = assistant_calls(msgs.take(i as int));
                let m = a.content.len();
                for j in 0..m
                    invariant
                        m == a.content@.len(),
                        strictly_sorted(strings_view(ops.read@)),
                        strictly_sorted(strings_view(ops.written@)),
                        strictly_sorted(strings_view(ops.edited@)),
                        strings_view(ops.read@).to_set() == self.paths(
                            base + calls_of(crate::types::contents_view(a.content@).take(j as int)),
                            0,
                        ),
                        strings_view(ops.written@).to_set() == self.paths(
                            base + calls_of(crate::types::contents_view(a.content@).take(j as int)),
                            1,
                        ),
                        strings_view(ops.edited@).to_set() == self.paths(
                            base + calls_of(crate::types::contents_view(a.content@).take(j as int)),
                            2,
                        ),
                {
                    let ghost cv = crate::types::contents_view(a.content@);
                    proof {
                        assert(cv.take(j + 1).drop_last() =~= cv.take(j as int));
                        assert(cv.take(j + 1).last() == a.content@[j as int]@);
                    }
                    if let Content::ToolCall(tc) = &a.content[j] {
                        let ghost before = base + calls_of(cv.take(j as int));
                        self.file_call(tc, &mut ops);
                        proof {
                            assert(calls_of(cv.take(j + 1)) == calls_of(cv.take(j as int)).push(tc@));
                            assert(base + calls_of(cv.take(j + 1)) =~= before + seq![tc@]);
                            lemma_paths_concat(*self, before, seq![tc@], 0);
                            lemma_paths_concat(*self, before, seq![tc@], 1);
                            lemma_paths_concat(*self, before, seq![tc@], 2);
                        }
                    } else {
                        proof {
                            assert(calls_of(cv.take(j + 1)) == calls_of(cv.take(j as int)));
                        }
                    }
                }
                proof {
                    let cv = crate::types::contents_view(a.content@);
                    assert(cv.take(m as int) =~= cv);
                    assert(assistant_calls(msgs.take(i + 1)) == base + calls_of(cv));
                }
            } else {
                proof {
                    assert(assistant_calls(msgs.take(i + 1)) == assistant_calls(msgs.take(i as int)));
                }
            }
        }
        proof {
            assert(msgs.take(n as int) =~= msgs);
        }
        ops
    }
}

} // verus!
