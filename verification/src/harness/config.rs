//! The policy of the default hook dispatcher: which tools may run, which
//! argument fields of a tool hold file paths, and the turn budget.
use vstd::prelude::*;

use crate::file_ops::strings_view;
use crate::text::str_eq;

verus! {

/// The fields a tool's paths are read from, for the first entry naming the
/// tool (`None` when no entry names it).
pub open spec fn fields_lookup(s: Seq<(String, Vec<String>)>, tool: Seq<char>) -> Option<Seq<Seq<char>>>
    decreases s.len(),
{
    if s.len() == 0 {
        None
    } else if s[0].0@ == tool {
        Some(strings_view(s[0].1@))
    } else {
        fields_lookup(s.drop_first(), tool)
    }
}

/// Configurable policy fields for the default hook dispatcher.
#[derive(Debug)]
pub struct HookConfig {
    /// Tools that are explicitly denied.
    pub denied_tools: Vec<String>,
    /// If non-empty, only these tools are allowed.
    pub allowed_tools: Vec<String>,
    /// Tool name and the argument fields its paths are read from; a tool
    /// is looked up by its first entry.
    pub path_guard_fields: Vec<(String, Vec<String>)>,
    /// Whether tools without an entry are scanned for path-like strings.
    pub path_guard_scan_unknown: bool,
    /// Maximum turns per session (0 = unlimited).
    pub max_turns_per_session: usize,
}

impl Default for HookConfig {
    fn default() -> (r: Self)
        ensures
            r.denied_tools@.len() == 0,
            r.allowed_tools@.len() == 0,
            r.path_guard_fields@.len() == 0,
            !r.path_guard_scan_unknown,
            r.max_turns_per_session == 0,
    {
        HookConfig {
            denied_tools: Vec::new(),
            allowed_tools: Vec::new(),
            path_guard_fields: Vec::new(),
            path_guard_scan_unknown: false,
            max_turns_per_session: 0,
        }
    }
}

/// The first entry naming `tool` is at `i`.
proof fn lemma_lookup_at(s: Seq<(String, Vec<String>)>, tool: Seq<char>, i: int)
    requires
        0 <= i < s.len(),
        s[i].0@ == tool,
        forall|j: int| 0 <= j < i ==> (#[trigger] s[j]).0@ != tool,
    ensures
        fields_lookup(s, tool) == Some(strings_view(s[i].1@)),
    decreases i,
{
    if i > 0 {
        assert forall|j: int| 0 <= j < i - 1 implies (#[trigger] s.drop_first()[j]).0@ != tool by {
            assert(s.drop_first()[j] == s[j + 1]);
        }
        lemma_lookup_at(s.drop_first(), tool, i - 1);
    }
}

/// No entry names `tool`.
proof fn lemma_lookup_none(s: Seq<(String, Vec<String>)>, tool: Seq<char>)
    requires
        forall|j: int| 0 <= j < s.len() ==> (#[trigger] s[j]).0@ != tool,
    ensures
        fields_lookup(s, tool) is None,
    decreases s.len(),
{
    if s.len() > 0 {
        assert forall|j: int| 0 <= j < s.len() - 1 implies (#[trigger] s.drop_first()[j]).0@ != tool by {
            assert(s.drop_first()[j] == s[j + 1]);
        }
        lemma_lookup_none(s.drop_first(), tool);
    }
}

/// Replacing the entry at `i` changes the lookup of its tool only, where it
/// is the first entry naming that tool.
proof fn lemma_lookup_update(
    s: Seq<(String, Vec<String>)>,
    i: int,
    e: (String, Vec<String>),
    other: Seq<char>,
)
    requires
        0 <= i < s.len(),
        s[i].0@ == e.0@,
        forall|j: int| 0 <= j < i ==> (#[trigger] s[j]).0@ != e.0@,
        other != e.0@,
    ensures
        fields_lookup(s.update(i, e), other) == fields_lookup(s, other),
    decreases s.len(),
{
    if i > 0 {
        assert(s.update(i, e).drop_first() =~= s.drop_first().update(i - 1, e));
        assert forall|j: int| 0 <= j < i - 1 implies (#[trigger] s.drop_first()[j]).0@ != e.0@ by {
            assert(s.drop_first()[j] == s[j + 1]);
        }
        lemma_lookup_update(s.drop_first(), i - 1, e, other);
    } else {
        assert(s.update(i, e).drop_first() =~= s.drop_first());
    }
}

/// Appending an entry changes the lookup of its tool only, where no entry
/// named it.
proof fn lemma_lookup_push(s: Seq<(String, Vec<String>)>, e: (String, Vec<String>), other: Seq<char>)
    requires
        other != e.0@,
    ensures
        fields_lookup(s.push(e), other) == fields_lookup(s, other),
    decreases s.len(),
{
    if s.len() > 0 {
        assert(s.push(e).drop_first() =~= s.drop_first().push(e));
        assert(s.push(e)[0] == s[0]);
        lemma_lookup_push(s.drop_first(), e, other);
        if s[0].0@ != other {
            assert(fields_lookup(s.push(e), other) == fields_lookup(s.push(e).drop_first(), other));
        }
    } else {
        assert(s.push(e).drop_first() =~= Seq::<(String, Vec<String>)>::empty());
        assert(s.push(e)[0] == e);
        assert(fields_lookup(s.push(e).drop_first(), other) is None);
        assert(fields_lookup(s.push(e), other) == fields_lookup(s.push(e).drop_first(), other));
    }
}

impl HookConfig {
    /// Index of the first entry naming `tool`.
    fn position(&self, tool: &str) -> (r: Option<usize>)
        ensures
            r matches Some(i) ==> i < self.path_guard_fields@.len() && self.path_guard_fields@[i as int].0@
                == tool@ && forall|j: int|
                0 <= j < i ==> (#[trigger] self.path_guard_fields@[j]).0@ != tool@,
            r is None ==> forall|j: int|
                0 <= j < self.path_guard_fields@.len() ==> (#[trigger] self.path_guard_fields@[j]).0@
                    != tool@,
    {
        let mut i: usize = 0;
        while i < self.path_guard_fields.len()
            invariant
                i <= self.path_guard_fields@.len(),
                forall|j: int| 0 <= j < i ==> (#[trigger] self.path_guard_fields@[j]).0@ != tool@,
            decreases self.path_guard_fields@.len() - i,
        {
            if str_eq(self.path_guard_fields[i].0.as_str(), tool) {
                return Some(i);
            }
            i = i + 1;
        }
        None
    }

    /// The argument fields the paths of `tool` are read from, if it has an entry.
    pub fn guard_fields(&self, tool: &str) -> (r: Option<&Vec<String>>)
        ensures
            r matches Some(f) ==> fields_lookup(self.path_guard_fields@, tool@) == Some(strings_view(f@)),
            r is None ==> fields_lookup(self.path_guard_fields@, tool@) is None,
    {
        match self.position(tool) {
            Some(i) => {
                proof {
                    lemma_lookup_at(self.path_guard_fields@, tool@, i as int);
                }
                Some(&self.path_guard_fields[i].1)
            },
            None => {
                proof {
                    lemma_lookup_none(self.path_guard_fields@, tool@);
                }
                None
            },
        }
    }

    /// Sets the fields the paths of `tool` are read from, replacing its
    /// entry if it has one.
    pub fn set_guard_fields(&mut self, tool: String, fields: Vec<String>)
        ensures
            fields_lookup(final(self).path_guard_fields@, tool@) == Some(strings_view(fields@)),
            forall|other: Seq<char>|
                other != tool@ ==> fields_lookup(final(self).path_guard_fields@, other) == fields_lookup(
                    old(self).path_guard_fields@,
                    other,
                ),
            final(self).denied_tools == old(self).denied_tools,
            final(self).allowed_tools == old(self).allowed_tools,
            final(self).path_guard_scan_unknown == old(self).path_guard_scan_unknown,
            final(self).max_turns_per_session == old(self).max_turns_per_session,
    {
        let ghost t = tool@;
        let ghost fv = strings_view(fields@);
        let ghost s0 = self.path_guard_fields@;
        match self.position(tool.as_str()) {
            Some(i) => {
                let ghost e = (tool, fields);
                self.path_guard_fields.set(i, (tool, fields));
                proof {
                    assert(self.path_guard_fields@ == s0.update(i as int, e));
                    lemma_lookup_at(self.path_guard_fields@, t, i as int);
                    assert forall|other: Seq<char>| other != t implies fields_lookup(
                        self.path_guard_fields@,
                        other,
                    ) == fields_lookup(s0, other) by {
                        lemma_lookup_update(s0, i as int, e, other);
                    }
                }
            },
            None => {
                let ghost e = (tool, fields);
                self.path_guard_fields.push((tool, fields));
                proof {
                    let s1 = self.path_guard_fields@;
                    assert(s1 == s0.push(e));
                    assert forall|j: int| 0 <= j < s0.len() implies (#[trigger] s1[j]).0@ != t by {
                        assert(s1[j] == s0[j]);
                    }
                    lemma_lookup_at(s1, t, s0.len() as int);
                    assert forall|other: Seq<char>| other != t implies fields_lookup(s1, other)
                        == fields_lookup(s0, other) by {
                        lemma_lookup_push(s0, e, other);
                    }
                }
            },
        }
    }

    /// Adds the path fields of the sandbox tools: `file_read`, `file_write`
    /// and `directory_list` read `path`, `code_execute` reads `work_dir`;
    /// other entries are kept.
    pub fn with_pawbun_defaults(self) -> (r: Self)
        ensures
            fields_lookup(r.path_guard_fields@, "file_read"@) == Some(seq!["path"@]),
            fields_lookup(r.path_guard_fields@, "file_write"@) == Some(seq!["path"@]),
            fields_lookup(r.path_guard_fields@, "directory_list"@) == Some(seq!["path"@]),
            fields_lookup(r.path_guard_fields@, "code_execute"@) == Some(seq!["work_dir"@]),
            forall|other: Seq<char>|
                other != "file_read"@ && other != "file_write"@ && other != "directory_list"@ && other
                    != "code_execute"@ ==> fields_lookup(r.path_guard_fields@, other) == fields_lookup(
                    self.path_guard_fields@,
                    other,
                ),
            r.denied_tools == self.denied_tools,
            r.allowed_tools == self.allowed_tools,
            r.path_guard_scan_unknown == self.path_guard_scan_unknown,
            r.max_turns_per_session == self.max_turns_per_session,
    {
        let mut c = self;
        proof {
            reveal_strlit("file_read");
            reveal_strlit("file_write");
            reveal_strlit("directory_list");
            reveal_strlit("code_execute");
            reveal_strlit("path");
            reveal_strlit("work_dir");
        }
        let ghost fr = "file_read"@;
        let ghost fw = "file_write"@;
        let ghost dl = "directory_list"@;
        let ghost ce = "code_execute"@;
        proof {
            assert(fr.len() == 9 && fw.len() == 10 && dl.len() == 14 && ce.len() == 12);
            assert(fr != fw && fr != dl && fr != ce && fw != dl && fw != ce && dl != ce);
        }
        c.set_guard_fields("file_read".to_owned(), path_field("path"));
        c.set_guard_fields("file_write".to_owned(), path_field("path"));
        proof {
            assert(fields_lookup(c.path_guard_fields@, fr) == Some(seq!["path"@]));
        }
        c.set_guard_fields("directory_list".to_owned(), path_field("path"));
        proof {
            assert(fields_lookup(c.path_guard_fields@, fr) == Some(seq!["path"@]));
            assert(fields_lookup(c.path_guard_fields@, fw) == Some(seq!["path"@]));
        }
        c.set_guard_fields("code_execute".to_owned(), path_field("work_dir"));
        proof {
            assert(fields_lookup(c.path_guard_fields@, fr) == Some(seq!["path"@]));
            assert(fields_lookup(c.path_guard_fields@, fw) == Some(seq!["path"@]));
            assert(fields_lookup(c.path_guard_fields@, dl) == Some(seq!["path"@]));
        }
        c
    }
}

fn path_field(name: &str) -> (r: Vec<String>)
    ensures
        strings_view(r@) == seq![name@],
{
    let mut v: Vec<String> = Vec::new();
    v.push(name.to_owned());
    proof {
        assert(strings_view(v@) =~= seq![name@]);
    }
    v
}

} // verus!
