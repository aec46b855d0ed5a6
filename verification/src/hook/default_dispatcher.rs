//! The guards of the default hook dispatcher: which tools may run, and
//! which file paths a tool may touch or reveal (only those inside the
//! tenant's workspace).
use vstd::prelude::*;

use crate::hook::mutations::{HookDecision, ToolResultMutation};
use crate::harness::config::{fields_lookup, HookConfig};
use crate::hook::context::ToolCallCtx;
use crate::json::{field_value, get_field, json_parse, parse_json, JsonValue};
use crate::text::{chars_of, str_eq};
use crate::types::{contents_view, Content, ContentView};

verus! {

/// The segments of `s` between slashes, as `str::split('/')` yields them.
#[verifier::opaque]
pub open spec fn split_slash(s: Seq<char>) -> Seq<Seq<char>>
    decreases s.len(),
{
    if exists|i: int| 0 <= i < s.len() && s[i] == '/' {
        let i = choose|i: int| 0 <= i < s.len() && s[i] == '/' && forall|j: int| 0 <= j < i ==> s[j] != '/';
        if 0 <= i < s.len() {
            seq![s.take(i)] + split_slash(s.skip(i + 1))
        } else {
            seq![s]
        }
    } else {
        seq![s]
    }
}

/// The directory stack after the segments `parts`: empty and `.` segments
/// are skipped, `..` leaves the last directory (above the root of an
/// absolute path it is refused), any other segment enters a directory.
pub open spec fn resolve_segments(parts: Seq<Seq<char>>, absolute: bool) -> Option<Seq<Seq<char>>>
    decreases parts.len(),
{
    if parts.len() == 0 {
        Some(Seq::empty())
    } else {
        match resolve_segments(parts.drop_last(), absolute) {
            None => None,
            Some(stack) => {
                let p = parts.last();
                if p.len() == 0 || p == "."@ {
                    Some(stack)
                } else if p == ".."@ {
                    if stack.len() > 0 {
                        Some(stack.drop_last())
                    } else if absolute {
                        None
                    } else {
                        Some(stack)
                    }
                } else {
                    Some(stack.push(p))
                }
            },
        }
    }
}

/// The segments joined by slashes.
pub open spec fn join_slash(parts: Seq<Seq<char>>) -> Seq<char>
    decreases parts.len(),
{
    if parts.len() == 0 {
        Seq::empty()
    } else if parts.len() == 1 {
        parts[0]
    } else {
        join_slash(parts.drop_last()) + "/"@ + parts.last()
    }
}

/// The normal form of a path: `.` and empty segments removed, `..`
/// resolved; `None` for an empty path or one that leaves the root.
pub open spec fn normalize_spec(path: Seq<char>) -> Option<Seq<char>> {
    if path.len() == 0 {
        None
    } else {
        let absolute = path[0] == '/';
        match resolve_segments(split_slash(path), absolute) {
            None => None,
            Some(stack) => Some(
                if absolute {
                    "/"@ + join_slash(stack)
                } else {
                    join_slash(stack)
                },
            ),
        }
    }
}

proof fn lemma_split_step(s: Seq<char>, i: int)
    requires
        0 <= i < s.len(),
        s[i] == '/',
        forall|j: int| 0 <= j < i ==> s[j] != '/',
    ensures
        split_slash(s) == seq![s.take(i)] + split_slash(s.skip(i + 1)),
{
    reveal(split_slash);
    let k = choose|k: int| 0 <= k < s.len() && s[k] == '/' && forall|j: int| 0 <= j < k ==> s[j] != '/';
    assert(k == i) by {
        if k < i {
        } else if k > i {
        }
    }
}

proof fn lemma_split_last(s: Seq<char>)
    requires
        forall|j: int| 0 <= j < s.len() ==> s[j] != '/',
    ensures
        split_slash(s) == seq![s],
{
    reveal(split_slash);
}

/// Abstract value of a list of texts.
pub open spec fn texts_view(v: Seq<Vec<char>>) -> Seq<Seq<char>> {
    v.map_values(|x: Vec<char>| x@)
}

fn sub_chars(v: &Vec<char>, from: usize, to: usize) -> (r: Vec<char>)
    requires
        from <= to <= v@.len(),
    ensures
        r@ == v@.subrange(from as int, to as int),
{
    let mut r: Vec<char> = Vec::new();
    let mut i = from;
    while i < to
        invariant
            from <= i <= to <= v@.len(),
            r@ == v@.subrange(from as int, i as int),
        decreases to - i,
    {
        r.push(v[i]);
        proof {
            assert(r@ =~= v@.subrange(from as int, i + 1));
        }
        i = i + 1;
    }
    r
}

/// The segment starting at `start` and the position after its slash (or
/// the end, with `false`).
fn next_segment(s: &Vec<char>, start: usize) -> (r: (Vec<char>, usize, bool))
    requires
        start <= s@.len(),
    ensures
        r.2 ==> start < r.1 <= s@.len() && split_slash(s@.skip(start as int)) == seq![r.0@]
            + split_slash(s@.skip(r.1 as int)),
        !r.2 ==> split_slash(s@.skip(start as int)) == seq![r.0@],
{
    let ghost rest = s@.skip(start as int);
    let mut i = start;
    while i < s.len() && s[i] != '/'
        invariant
            start <= i <= s@.len(),
            forall|j: int| start <= j < i ==> s@[j] != '/',
        decreases s@.len() - i,
    {
        i = i + 1;
    }
    let seg = sub_chars(s, start, i);
    proof {
        assert forall|j: int| 0 <= j < i - start implies rest[j] != '/' by {
            assert(rest[j] == s@[start + j]);
        }
    }
    if i < s.len() {
        proof {
            assert(rest[i - start] == s@[i as int]);
            lemma_split_step(rest, i - start);
            assert(rest.take(i - start) =~= seg@);
            assert(rest.skip(i - start + 1) =~= s@.skip(i + 1));
        }
        (seg, i + 1, true)
    } else {
        proof {
            lemma_split_last(rest);
            assert(rest =~= seg@);
        }
        (seg, i, false)
    }
}

proof fn lemma_texts_push(v: Seq<Vec<char>>, x: Vec<char>)
    ensures
        texts_view(v.push(x)) == texts_view(v).push(x@),
{
    assert(texts_view(v.push(x)) =~= texts_view(v).push(x@));
}

fn split_chars(s: &Vec<char>) -> (r: Vec<Vec<char>>)
    ensures
        texts_view(r@) == split_slash(s@),
{
    let mut r: Vec<Vec<char>> = Vec::new();
    let mut start: usize = 0;
    proof {
        assert(s@.skip(0) =~= s@);
        assert(texts_view(r@) + split_slash(s@) =~= split_slash(s@));
    }
    loop
        invariant
            start <= s@.len(),
            texts_view(r@) + split_slash(s@.skip(start as int)) == split_slash(s@),
        decreases s@.len() - start,
    {
        let ghost old_r = r@;
        let (seg, next, more) = next_segment(s, start);
        let ghost sv = seg@;
        r.push(seg);
        proof {
            lemma_texts_push(old_r, r@.last());
        }
        if more {
            proof {
                let tail = split_slash(s@.skip(next as int));
                assert(texts_view(old_r) + (seq![sv] + tail) =~= texts_view(r@) + tail);
            }
            start = next;
        } else {
            proof {
                assert(texts_view(old_r) + seq![sv] =~= texts_view(r@));
            }
            return r;
        }
    }
}

/// The normal form of a path, or `None` for an empty path or one that leads
/// above the root.
pub fn normalize_path(path: &str) -> (r: Option<String>)
    ensures
        r matches Some(p) ==> normalize_spec(path@) == Some(p@),
        r is None ==> normalize_spec(path@) is None,
{
    let cs = chars_of(path);
    if cs.len() == 0 {
        return None;
    }
    let absolute = cs[0] == '/';
    let parts = split_chars(&cs);
    let ghost pv = texts_view(parts@);
    let mut stack: Vec<Vec<char>> = Vec::new();
    let dot = chars_of(".");
    let dotdot = chars_of("..");
    proof {
        reveal_strlit(".");
        reveal_strlit("..");
        assert(texts_view(stack@) =~= Seq::<Seq<char>>::empty());
    }
    for k in 0..parts.len()
        invariant
            pv == texts_view(parts@),
            pv == split_slash(cs@),
            cs@ == path@,
            cs@.len() > 0,
            absolute == (cs@[0] == '/'),
            dot@ == "."@,
            dotdot@ == ".."@,
            resolve_segments(pv.take(k as int), absolute) == Some(texts_view(stack@)),
    {
        proof {
            assert(pv.take(k + 1).drop_last() =~= pv.take(k as int));
            assert(pv.take(k + 1).last() == parts@[k as int]@);
        }
        let p = &parts[k];
        if p.len() == 0 || crate::text::chars_eq(p, &dot) {
        } else if crate::text::chars_eq(p, &dotdot) {
            if stack.len() > 0 {
                let ghost before = texts_view(stack@);
                stack.pop();
                proof {
                    assert(texts_view(stack@) =~= before.drop_last());
                }
            } else if absolute {
                proof {
                    assert(resolve_segments(pv.take(k + 1), absolute) is None);
                    lemma_resolve_none_stays(pv, k + 1, absolute);
                    assert(pv.take(pv.len() as int) =~= pv);
                }
                return None;
            }
        } else {
            let ghost before = texts_view(stack@);
            stack.push(p.clone());
            proof {
                assert(texts_view(stack@) =~= before.push(p@));
            }
        }
    }
    proof {
        assert(pv.take(parts@.len() as int) =~= pv);
    }
    let mut out = String::new();
    if absolute {
        out.append("/");
    }
    let ghost head = out@;
    let ghost sv = texts_view(stack@);
    for k in 0..stack.len()
        invariant
            sv == texts_view(stack@),
            out@ == head + join_slash(sv.take(k as int)),
    {
        proof {
            assert(sv.take(k + 1).drop_last() =~= sv.take(k as int));
        }
        if k > 0 {
            out.append("/");
        }
        let seg = crate::text::string_of_range(&stack[k], 0, stack[k].len());
        proof {
            assert(stack@[k as int]@.subrange(0, stack@[k as int]@.len() as int) =~= sv[k as int]);
        }
        out.append(seg.as_str());
        proof {
            if k == 0 {
                assert(out@ =~= head + sv.take(1)[0]);
            } else {
                assert(out@ =~= head + (join_slash(sv.take(k as int)) + "/"@ + sv[k as int]));
            }
        }
    }
    proof {
        assert(sv.take(stack@.len() as int) =~= sv);
        if !absolute {
            assert(head =~= Seq::<char>::empty());
            assert(out@ =~= join_slash(sv));
        }
    }
    Some(out)
}

proof fn lemma_resolve_none_stays(parts: Seq<Seq<char>>, k: int, absolute: bool)
    requires
        0 <= k <= parts.len(),
        resolve_segments(parts.take(k), absolute) is None,
    ensures
        resolve_segments(parts.take(parts.len() as int), absolute) is None,
    decreases parts.len() - k,
{
    if k < parts.len() {
        assert(parts.take(k + 1).drop_last() =~= parts.take(k));
        lemma_resolve_none_stays(parts, k + 1, absolute);
    }
}

/// The workspace prefix paths must start with: the workspace with a
/// trailing slash.
pub open spec fn workspace_prefix(workspace: Seq<char>) -> Seq<char> {
    if workspace.len() > 0 && workspace.last() == '/' {
        workspace
    } else {
        workspace + "/"@
    }
}

/// The path a tool means: an absolute path as it stands, a relative one
/// taken from the workspace.
pub open spec fn resolved_path(path: Seq<char>, workspace: Seq<char>) -> Seq<char> {
    if path.len() > 0 && path[0] == '/' {
        path
    } else {
        workspace_prefix(workspace) + path
    }
}

/// A path may be used: resolved against the workspace, it normalizes and
/// lies inside the workspace.
pub open spec fn path_allowed_spec(path: Seq<char>, workspace: Seq<char>) -> bool {
    match normalize_spec(resolved_path(path, workspace)) {
        None => false,
        Some(n) => workspace_prefix(workspace).len() <= n.len() && n.take(
            workspace_prefix(workspace).len() as int,
        ) == workspace_prefix(workspace),
    }
}

/// Whether a path may be used by a tool of the tenant whose workspace is
/// `workspace`: a relative path is taken from the workspace, and the
/// normalized result must lie inside it.
pub fn is_path_allowed(path: &str, workspace: &str) -> (b: bool)
    ensures
        b == path_allowed_spec(path@, workspace@),
{
    let w = chars_of(workspace);
    let prefix = if w.len() > 0 && w[w.len() - 1] == '/' {
        w
    } else {
        let mut p = w;
        p.push('/');
        p
    };
    proof {
        reveal_strlit("/");
        assert(prefix@ == workspace_prefix(workspace@));
    }
    let pc = chars_of(path);
    let full: String = if pc.len() > 0 && pc[0] == '/' {
        path.to_string()
    } else {
        let head = crate::text::string_of_range(&prefix, 0, prefix.len());
        proof {
            assert(prefix@.subrange(0, prefix@.len() as int) =~= prefix@);
        }
        head.concat(path)
    };
    proof {
        assert(full@ == resolved_path(path@, workspace@));
    }
    let normalized = match normalize_path(full.as_str()) {
        Some(p) => p,
        None => return false,
    };
    let n = chars_of(normalized.as_str());
    if prefix.len() > n.len() {
        return false;
    }
    let head = sub_chars(&n, 0, prefix.len());
    proof {
        assert(head@ =~= n@.take(prefix@.len() as int));
    }
    crate::text::chars_eq(&head, &prefix)
}

/// A string that looks like a path: it starts with `/` or `.`, or holds a `/`.
pub open spec fn path_like(s: Seq<char>) -> bool {
    (s.len() > 0 && (s[0] == '/' || s[0] == '.')) || s.contains('/')
}

/// Whether a string looks like a path.
pub fn is_path_like(s: &str) -> (b: bool)
    ensures
        b == path_like(s@),
{
    let cs = chars_of(s);
    if cs.len() > 0 && (cs[0] == '/' || cs[0] == '.') {
        return true;
    }
    for i in 0..cs.len()
        invariant
            cs@ == s@,
            forall|j: int| 0 <= j < i ==> cs@[j] != '/',
    {
        if cs[i] == '/' {
            proof {
                assert(s@[i as int] == '/');
            }
            return true;
        }
    }
    false
}

/// The tool guard: a denied tool, or one outside a non-empty allow list, is
/// blocked with a message naming it.
pub open spec fn tool_guard_spec(name: Seq<char>, denied: Seq<Seq<char>>, allowed: Seq<Seq<char>>) -> Option<
    Seq<char>,
> {
    if denied.contains(name) {
        Some("tool '"@ + name + "' is denied by tool-guard"@)
    } else if allowed.len() > 0 && !allowed.contains(name) {
        Some("tool '"@ + name + "' is not in allowed list"@)
    } else {
        None
    }
}

fn contains_name(v: &Vec<String>, x: &str) -> (b: bool)
    ensures
        b == crate::file_ops::strings_view(v@).contains(x@),
{
    for i in 0..v.len()
        invariant
            forall|m: int| 0 <= m < i ==> v@[m]@ != x@,
    {
        if str_eq(v[i].as_str(), x) {
            proof {
                assert(crate::file_ops::strings_view(v@)[i as int] == x@);
            }
            return true;
        }
    }
    proof {
        if crate::file_ops::strings_view(v@).contains(x@) {
            let j = choose|j: int| 0 <= j < v@.len() && crate::file_ops::strings_view(v@)[j] == x@;
            assert(v@[j]@ == x@);
        }
    }
    false
}

/// The first path among `paths` that may not be used, if any.
pub open spec fn first_illegal(paths: Seq<Seq<char>>, workspace: Seq<char>) -> Option<int> {
    if exists|i: int| 0 <= i < paths.len() && !path_allowed_spec(#[trigger] paths[i], workspace) {
        Some(choose|i: int| 0 <= i < paths.len() && !path_allowed_spec(#[trigger] paths[i], workspace) && forall|j: int| 0 <= j < i ==> path_allowed_spec(#[trigger] paths[j], workspace))
    } else {
        None
    }
}

fn find_illegal(paths: &Vec<String>, workspace: &str) -> (r: Option<usize>)
    ensures
        r matches Some(i) ==> i < paths@.len() && first_illegal(crate::file_ops::strings_view(paths@), workspace@) == Some(i as int),
        r is None ==> first_illegal(crate::file_ops::strings_view(paths@), workspace@) is None,
{
    let ghost pv = crate::file_ops::strings_view(paths@);
    for i in 0..paths.len()
        invariant
            pv == crate::file_ops::strings_view(paths@),
            forall|j: int| 0 <= j < i ==> path_allowed_spec(#[trigger] pv[j], workspace@),
    {
        if !is_path_allowed(paths[i].as_str(), workspace) {
            proof {
                assert(!path_allowed_spec(pv[i as int], workspace@));
                let k = choose|k: int| 0 <= k < pv.len() && !path_allowed_spec(#[trigger] pv[k], workspace@) && forall|j: int| 0 <= j < k ==> path_allowed_spec(#[trigger] pv[j], workspace@);
                assert(k == i) by {
                    if k < i {
                    } else if k > i {
                        assert(path_allowed_spec(pv[i as int], workspace@));
                    }
                }
            }
            return Some(i);
        }
    }
    None
}

/// The decision on a tool call: the tool guard first, then the path guard
/// over the paths found in the call's input (the first path outside the
/// workspace blocks it).
pub open spec fn tool_call_decision_spec(
    name: Seq<char>,
    denied: Seq<Seq<char>>,
    allowed: Seq<Seq<char>>,
    paths: Seq<Seq<char>>,
    workspace: Seq<char>,
) -> Option<Seq<char>> {
    match tool_guard_spec(name, denied, allowed) {
        Some(reason) => Some(reason),
        None => match first_illegal(paths, workspace) {
            Some(i) => Some(
                "path '"@ + paths[i] + "' is outside of allowed workspace ("@ + workspace + ")"@,
            ),
            None => None,
        },
    }
}

/// The decision on a tool call given the paths found in its input and the
/// tenant's workspace.
pub fn guard_decision(
    tool_name: &str,
    denied_tools: &Vec<String>,
    allowed_tools: &Vec<String>,
    paths: &Vec<String>,
    workspace: &str,
) -> (r: HookDecision)
    ensures
        ({
            let d = tool_call_decision_spec(
                tool_name@,
                crate::file_ops::strings_view(denied_tools@),
                crate::file_ops::strings_view(allowed_tools@),
                crate::file_ops::strings_view(paths@),
                workspace@,
            );
            &&& d is None ==> r is Continue
            &&& d matches Some(reason) ==> (r matches HookDecision::Block { reason: x } && x@ == reason)
        }),
{
    if contains_name(denied_tools, tool_name) {
        let reason = "tool '".to_owned().concat(tool_name).concat("' is denied by tool-guard");
        return HookDecision::Block { reason };
    }
    if allowed_tools.len() > 0 && !contains_name(allowed_tools, tool_name) {
        let reason = "tool '".to_owned().concat(tool_name).concat("' is not in allowed list");
        return HookDecision::Block { reason };
    }
    match find_illegal(paths, workspace) {
        Some(i) => {
            let reason = "path '".to_owned().concat(paths[i].as_str()).concat(
                "' is outside of allowed workspace (",
            ).concat(workspace).concat(")");
            HookDecision::Block { reason }
        },
        None => HookDecision::Continue,
    }
}

/// The text that replaces a result revealing a path outside the workspace.
pub open spec fn leak_notice() -> Seq<char> {
    "[PathGuard: illegal path reference removed]"@
}

/// The result rewrite of the default dispatcher, given the paths found in a
/// result's details: a path outside the workspace replaces the content with
/// a notice and marks the result as an error; otherwise nothing changes.
fn leak_guard(paths: &Vec<String>, workspace: &str) -> (r: ToolResultMutation)
    ensures
        first_illegal(crate::file_ops::strings_view(paths@), workspace@) is Some ==> (r.content matches Some(c) && contents_view(c@) == seq![ContentView::Text { text: leak_notice() }] && r.details is None && r.is_error == Some(true) && r.terminate is None),
        first_illegal(crate::file_ops::strings_view(paths@), workspace@) is None ==> r.content is None && r.details is None && r.is_error is None && r.terminate is None,
{
    match find_illegal(paths, workspace) {
        Some(_) => {
            let mut content: Vec<Content> = Vec::new();
            content.push(Content::Text { text: "[PathGuard: illegal path reference removed]".to_owned() });
            proof {
                assert(contents_view(content@) =~= seq![ContentView::Text { text: leak_notice() }]);
            }
            ToolResultMutation { content: Some(content), details: None, is_error: Some(true), terminate: None }
        },
        None => ToolResultMutation { content: None, details: None, is_error: None, terminate: None },
    }
}


/// The path-like strings of a JSON value, in document order (array items in
/// order, object members in order).
pub open spec fn string_paths(v: JsonValue) -> Seq<Seq<char>>
    decreases v, 0int,
{
    match v {
        JsonValue::String(s) => if path_like(s@) {
            seq![s@]
        } else {
            Seq::empty()
        },
        JsonValue::Array(a) => items_paths(a@, 0),
        JsonValue::Object(o) => members_paths(o@, 0),
        _ => Seq::empty(),
    }
}

/// The path-like strings of the items `s[i..]`.
pub open spec fn items_paths(s: Seq<JsonValue>, i: int) -> Seq<Seq<char>>
    decreases s, s.len() - i,
{
    if 0 <= i < s.len() {
        string_paths(s[i]) + items_paths(s, i + 1)
    } else {
        Seq::empty()
    }
}

/// The path-like strings of the member values `s[i..]`.
pub open spec fn members_paths(s: Seq<(String, JsonValue)>, i: int) -> Seq<Seq<char>>
    decreases s, s.len() - i,
{
    if 0 <= i < s.len() {
        string_paths(s[i].1) + members_paths(s, i + 1)
    } else {
        Seq::empty()
    }
}


/// Appends the path-like strings of `value` to `paths`, in document order.
pub fn collect_string_paths(value: &JsonValue, paths: &mut Vec<String>)
    ensures
        crate::file_ops::strings_view(final(paths)@) == crate::file_ops::strings_view(old(paths)@)
            + string_paths(*value),
    decreases *value, 0int,
{
    match value {
        JsonValue::String(s) => {
            if is_path_like(s.as_str()) {
                paths.push(s.clone());
                proof {
                    assert(crate::file_ops::strings_view(paths@) =~= crate::file_ops::strings_view(
                        old(paths)@,
                    ) + seq![s@]);
                }
            } else {
                proof {
                    assert(crate::file_ops::strings_view(paths@) =~= crate::file_ops::strings_view(
                        old(paths)@,
                    ) + Seq::<Seq<char>>::empty());
                }
            }
        },
        JsonValue::Array(a) => collect_items(a, 0, paths),
        JsonValue::Object(o) => collect_members(o, 0, paths),
        _ => {
            proof {
                assert(crate::file_ops::strings_view(paths@) =~= crate::file_ops::strings_view(
                    old(paths)@,
                ) + Seq::<Seq<char>>::empty());
            }
        },
    }
}

fn collect_items(a: &Vec<JsonValue>, i: usize, paths: &mut Vec<String>)
    requires
        i <= a@.len(),
    ensures
        crate::file_ops::strings_view(final(paths)@) == crate::file_ops::strings_view(old(paths)@)
            + items_paths(a@, i as int),
    decreases a@, a@.len() - i,
{
    if i < a.len() {
        collect_string_paths(&a[i], paths);
        collect_items(a, i + 1, paths);
        proof {
            assert(crate::file_ops::strings_view(paths@) =~= crate::file_ops::strings_view(old(paths)@)
                + (string_paths(a@[i as int]) + items_paths(a@, i + 1)));
        }
    } else {
        proof {
            assert(crate::file_ops::strings_view(paths@) =~= crate::file_ops::strings_view(old(paths)@)
                + Seq::<Seq<char>>::empty());
        }
    }
}

fn collect_members(o: &Vec<(String, JsonValue)>, i: usize, paths: &mut Vec<String>)
    requires
        i <= o@.len(),
    ensures
        crate::file_ops::strings_view(final(paths)@) == crate::file_ops::strings_view(old(paths)@)
            + members_paths(o@, i as int),
    decreases o@, o@.len() - i,
{
    if i < o.len() {
        collect_string_paths(&o[i].1, paths);
        collect_members(o, i + 1, paths);
        proof {
            assert(crate::file_ops::strings_view(paths@) =~= crate::file_ops::strings_view(old(paths)@)
                + (string_paths(o@[i as int].1) + members_paths(o@, i + 1)));
        }
    } else {
        proof {
            assert(crate::file_ops::strings_view(paths@) =~= crate::file_ops::strings_view(old(paths)@)
                + Seq::<Seq<char>>::empty());
        }
    }
}


/// The path-like strings of the given fields of a value, field by field.
pub open spec fn fields_paths(v: JsonValue, fields: Seq<Seq<char>>) -> Seq<Seq<char>>
    decreases fields.len(),
{
    if fields.len() == 0 {
        Seq::empty()
    } else {
        fields_paths(v, fields.drop_last()) + match field_value(v, fields.last()) {
            Some(x) => string_paths(x),
            None => Seq::empty(),
        }
    }
}

/// The paths a tool call's input is checked for: those of the fields
/// configured for the tool, or, for a tool without configured fields, all
/// path-like strings when unknown tools are scanned (otherwise none).
pub open spec fn extracted_paths(
    tool_fields: Seq<(String, Vec<String>)>,
    scan_unknown: bool,
    tool: Seq<char>,
    v: JsonValue,
) -> Seq<Seq<char>> {
    match fields_lookup(tool_fields, tool) {
        Some(f) => fields_paths(v, f),
        None => if scan_unknown {
            string_paths(v)
        } else {
            Seq::empty()
        },
    }
}

/// Appends to `paths` the paths a tool call's input is checked for.
pub fn extract_paths(config: &HookConfig, tool_name: &str, value: &JsonValue, paths: &mut Vec<String>)
    ensures
        crate::file_ops::strings_view(final(paths)@) == crate::file_ops::strings_view(old(paths)@)
            + extracted_paths(
            config.path_guard_fields@,
            config.path_guard_scan_unknown,
            tool_name@,
            *value,
        ),
{
    match config.guard_fields(tool_name) {
        Some(fields) => {
            let ghost fv = crate::file_ops::strings_view(fields@);
            let ghost p0 = crate::file_ops::strings_view(paths@);
            for k in 0..fields.len()
                invariant
                    fv == crate::file_ops::strings_view(fields@),
                    crate::file_ops::strings_view(paths@) == p0 + fields_paths(*value, fv.take(k as int)),
            {
                proof {
                    assert(fv.take(k + 1).drop_last() =~= fv.take(k as int));
                    assert(fv.take(k + 1).last() == fields@[k as int]@);
                }
                let ghost before = crate::file_ops::strings_view(paths@);
                match get_field(value, fields[k].as_str()) {
                    Some(x) => {
                        collect_string_paths(x, paths);
                    },
                    None => {},
                }
                proof {
                    assert(crate::file_ops::strings_view(paths@) =~= p0 + fields_paths(*value, fv.take(k + 1)));
                }
            }
            proof {
                assert(fv.take(fields@.len() as int) =~= fv);
            }
        },
        None => {
            if config.path_guard_scan_unknown {
                collect_string_paths(value, paths);
            } else {
                proof {
                    assert(crate::file_ops::strings_view(paths@) =~= crate::file_ops::strings_view(
                        old(paths)@,
                    ) + Seq::<Seq<char>>::empty());
                }
            }
        },
    }
}

/// The decision of the default dispatcher on a tool call: the tool guard of
/// the configuration, then the path guard over the paths found in the
/// call's input (the first path outside the tenant's workspace blocks it).
pub fn tool_call_decision(config: &HookConfig, tool_name: &str, input: &JsonValue, workspace: &str) -> (r:
    HookDecision)
    ensures
        ({
            let d = tool_call_decision_spec(
                tool_name@,
                crate::file_ops::strings_view(config.denied_tools@),
                crate::file_ops::strings_view(config.allowed_tools@),
                extracted_paths(
                    config.path_guard_fields@,
                    config.path_guard_scan_unknown,
                    tool_name@,
                    *input,
                ),
                workspace@,
            );
            &&& d is None ==> r is Continue
            &&& d matches Some(reason) ==> (r matches HookDecision::Block { reason: x } && x@ == reason)
        }),
{
    let mut paths: Vec<String> = Vec::new();
    extract_paths(config, tool_name, input, &mut paths);
    proof {
        assert(crate::file_ops::strings_view(paths@) =~= extracted_paths(
            config.path_guard_fields@,
            config.path_guard_scan_unknown,
            tool_name@,
            *input,
        ));
    }
    guard_decision(tool_name, &config.denied_tools, &config.allowed_tools, &paths, workspace)
}

/// The paths a tool result's details reveal.
pub open spec fn details_paths(details: Option<JsonValue>) -> Seq<Seq<char>> {
    match details {
        Some(d) => string_paths(d),
        None => Seq::empty(),
    }
}

/// The result rewrite of the default dispatcher: when the result's details
/// reveal a path outside the tenant's workspace, the content is replaced by
/// a notice and the result marked as an error; otherwise nothing changes.
pub fn tool_result_guard(details: &Option<JsonValue>, workspace: &str) -> (r: ToolResultMutation)
    ensures
        first_illegal(details_paths(*details), workspace@) is Some ==> (r.content matches Some(c)
            && contents_view(c@) == seq![ContentView::Text { text: leak_notice() }] && r.details is None
            && r.is_error == Some(true) && r.terminate is None),
        first_illegal(details_paths(*details), workspace@) is None ==> r.content is None && r.details is None
            && r.is_error is None && r.terminate is None,
{
    let mut paths: Vec<String> = Vec::new();
    if let Some(d) = details {
        collect_string_paths(d, &mut paths);
    }
    proof {
        assert(crate::file_ops::strings_view(paths@) =~= details_paths(*details));
    }
    leak_guard(&paths, workspace)
}

/// The value a tool call's input text holds: what it parses to, `null`
/// when it is not JSON.
pub open spec fn input_value(text: Seq<char>) -> JsonValue {
    match json_parse(text) {
        Some(v) => v,
        None => JsonValue::Null,
    }
}

/// The decision of the default dispatcher on a tool call whose input is
/// JSON text: the input is parsed (text that is not JSON counts as `null`)
/// and judged by `tool_call_decision`.
pub fn tool_call_guard(config: &HookConfig, ctx: &ToolCallCtx, workspace: &str) -> (r: HookDecision)
    ensures
        ({
            let d = tool_call_decision_spec(
                ctx.tool_name@,
                crate::file_ops::strings_view(config.denied_tools@),
                crate::file_ops::strings_view(config.allowed_tools@),
                extracted_paths(
                    config.path_guard_fields@,
                    config.path_guard_scan_unknown,
                    ctx.tool_name@,
                    input_value(ctx.input@),
                ),
                workspace@,
            );
            &&& d is None ==> r is Continue
            &&& d matches Some(reason) ==> (r matches HookDecision::Block { reason: x } && x@ == reason)
        }),
{
    let input = match parse_json(ctx.input.as_str()) {
        Some(v) => v,
        None => JsonValue::Null,
    };
    tool_call_decision(config, ctx.tool_name.as_str(), &input, workspace)
}

/// The value a tool result's details text holds: what it parses to; none
/// when there are no details or they are not JSON.
pub open spec fn details_value(details: Option<String>) -> Option<JsonValue> {
    match details {
        Some(t) => json_parse(t@),
        None => None,
    }
}

/// The result rewrite of the default dispatcher for details given as JSON
/// text: the details are parsed and judged by `tool_result_guard`.
pub fn tool_result_guard_text(details: &Option<String>, workspace: &str) -> (r: ToolResultMutation)
    ensures
        first_illegal(details_paths(details_value(*details)), workspace@) is Some ==> (r.content matches Some(c)
            && contents_view(c@) == seq![ContentView::Text { text: leak_notice() }] && r.details is None
            && r.is_error == Some(true) && r.terminate is None),
        first_illegal(details_paths(details_value(*details)), workspace@) is None ==> r.content is None
            && r.details is None && r.is_error is None && r.terminate is None,
{
    let parsed = match details {
        Some(t) => parse_json(t.as_str()),
        None => None,
    };
    tool_result_guard(&parsed, workspace)
}

} // verus!
