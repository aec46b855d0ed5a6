//! The requests to and answers from the Emerald memory service: its base
//! URL, the bodies of `remember` and `recall`, and the memories a search
//! answer holds. Sending the requests is the caller's part.
use vstd::prelude::*;

use crate::json::{field_value, get_field, member_value, JsonValue};
use crate::memory::types::MemoryContext;
use crate::text::{chars_of, is_white_space, str_eq, unicode_white_space};

verus! {

/// `s` without its trailing slashes.
pub open spec fn without_trailing_slashes(s: Seq<char>) -> Seq<char>
    decreases s.len(),
{
    if s.len() > 0 && s.last() == '/' {
        without_trailing_slashes(s.drop_last())
    } else {
        s
    }
}

/// The base URL of the service, without trailing slashes.
pub fn trim_base_url(url: &str) -> (r: String)
    ensures
        r@ == without_trailing_slashes(url@),
{
    let cs = chars_of(url);
    let mut n = cs.len();
    proof {
        assert(cs@.take(n as int) =~= cs@);
    }
    while n > 0 && cs[n - 1] == '/'
        invariant
            n <= cs@.len(),
            cs@ == url@,
            without_trailing_slashes(url@) == without_trailing_slashes(cs@.take(n as int)),
        decreases n,
    {
        proof {
            assert(cs@.take(n as int).drop_last() =~= cs@.take(n - 1));
        }
        n = n - 1;
    }
    crate::text::string_of_range(&cs, 0, n)
}

/// The URL of an endpoint of the service.
pub fn endpoint_url(base_url: &str, path: &str) -> (r: String)
    ensures
        r@ == base_url@ + path@,
{
    base_url.to_owned().concat(path)
}

/// A recall with a query of white space only asks nothing of the service.
pub fn recall_skipped(query: &str) -> (b: bool)
    ensures
        b == forall|i: int| 0 <= i < query@.len() ==> unicode_white_space(#[trigger] query@[i]),
{
    let cs = chars_of(query);
    for i in 0..cs.len()
        invariant
            cs@ == query@,
            forall|j: int| 0 <= j < i ==> unicode_white_space(#[trigger] query@[j]),
    {
        if !is_white_space(cs[i]) {
            return false;
        }
    }
    true
}

/// The members after setting `key`: its first member's value replaced, or
/// the member added at the end.
proof fn lemma_member_set_at(o: Seq<(String, JsonValue)>, i: int, e: (String, JsonValue), other: Seq<char>)
    requires
        0 <= i < o.len(),
        o[i].0@ == e.0@,
        forall|j: int| 0 <= j < i ==> (#[trigger] o[j]).0@ != e.0@,
    ensures
        member_value(o.update(i, e), e.0@) == Some(e.1),
        other != e.0@ ==> member_value(o.update(i, e), other) == member_value(o, other),
    decreases i,
{
    let t = o.update(i, e);
    if i > 0 {
        assert(t.drop_first() =~= o.drop_first().update(i - 1, e));
        assert(t[0] == o[0]);
        assert forall|j: int| 0 <= j < i - 1 implies (#[trigger] o.drop_first()[j]).0@ != e.0@ by {
            assert(o.drop_first()[j] == o[j + 1]);
        }
        lemma_member_set_at(o.drop_first(), i - 1, e, other);
    } else {
        assert(t.drop_first() =~= o.drop_first());
        assert(t[0] == e);
    }
}

proof fn lemma_member_push(o: Seq<(String, JsonValue)>, e: (String, JsonValue), other: Seq<char>)
    requires
        forall|j: int| 0 <= j < o.len() ==> (#[trigger] o[j]).0@ != e.0@,
    ensures
        member_value(o.push(e), e.0@) == Some(e.1),
        other != e.0@ ==> member_value(o.push(e), other) == member_value(o, other),
    decreases o.len(),
{
    let t = o.push(e);
    if o.len() > 0 {
        assert(t.drop_first() =~= o.drop_first().push(e));
        assert(t[0] == o[0]);
        assert forall|j: int| 0 <= j < o.drop_first().len() implies (#[trigger] o.drop_first()[j]).0@ != e.0@ by {
            assert(o.drop_first()[j] == o[j + 1]);
        }
        lemma_member_push(o.drop_first(), e, other);
    } else {
        assert(t.drop_first() =~= Seq::<(String, JsonValue)>::empty());
        assert(t[0] == e);
        assert(member_value(Seq::<(String, JsonValue)>::empty(), other) is None);
        assert(member_value(t.drop_first(), other) is None);
    }
}

/// Sets the member `key` of an object to `value`.
fn set_member(o: &mut Vec<(String, JsonValue)>, key: String, value: JsonValue)
    ensures
        member_value(final(o)@, key@) == Some(value),
        forall|other: Seq<char>| other != key@ ==> member_value(final(o)@, other) == member_value(old(o)@, other),
{
    let ghost k = key@;
    let ghost o0 = o@;
    let mut i: usize = 0;
    while i < o.len()
        invariant
            i <= o@.len(),
            o@ == o0,
            o0 == old(o)@,
            k == key@,
            forall|j: int| 0 <= j < i ==> (#[trigger] o@[j]).0@ != k,
        decreases o@.len() - i,
    {
        if str_eq(o[i].0.as_str(), key.as_str()) {
            let ghost e = (key, value);
            o.set(i, (key, value));
            proof {
                assert(o@ == o0.update(i as int, e));
                lemma_member_set_at(o0, i as int, e, k);
                assert forall|other: Seq<char>| other != k implies member_value(o@, other) == member_value(o0, other) by {
                    lemma_member_set_at(o0, i as int, e, other);
                }
            }
            return;
        }
        i = i + 1;
    }
    let ghost e = (key, value);
    o.push((key, value));
    proof {
        assert(o@ == o0.push(e));
        lemma_member_push(o0, e, k);
        assert forall|other: Seq<char>| other != k implies member_value(o@, other) == member_value(o0, other) by {
            lemma_member_push(o0, e, other);
        }
    }
}

/// `sent` is the metadata sent for `metadata`: an object gets the session
/// id and the model set (its other members kept); any other value is sent
/// as it is.
pub open spec fn metadata_sent(session: Seq<char>, model: Seq<char>, metadata: JsonValue, sent: JsonValue) -> bool {
    &&& metadata is Object ==> sent is Object && (field_value(sent, "session_id"@) matches Some(
        JsonValue::String(s),
    ) && s@ == session) && (field_value(sent, "model"@) matches Some(JsonValue::String(m)) && m@
        == model) && forall|k: Seq<char>|
        k != "session_id"@ && k != "model"@ ==> field_value(sent, k) == field_value(metadata, k)
    &&& !(metadata is Object) ==> sent == metadata
}

/// The metadata sent with a memory.
pub fn remember_metadata(ctx: &MemoryContext, metadata: JsonValue) -> (r: JsonValue)
    ensures
        metadata_sent(ctx.session_id@, ctx.model@, metadata, r),
{
    match metadata {
        JsonValue::Object(members) => {
            let ghost m0 = members@;
            let mut members = members;
            proof {
                reveal_strlit("session_id");
                reveal_strlit("model");
                assert("session_id"@ != "model"@) by {
                    assert("session_id"@.len() != "model"@.len());
                }
            }
            set_member(&mut members, "session_id".to_owned(), JsonValue::String(ctx.session_id.clone()));
            let ghost m1 = members@;
            set_member(&mut members, "model".to_owned(), JsonValue::String(ctx.model.clone()));
            proof {
                assert(member_value(members@, "session_id"@) == member_value(m1, "session_id"@));
            }
            JsonValue::Object(members)
        },
        other => other,
    }
}

fn text_member(key: &str, text: &str) -> (r: (String, JsonValue))
    ensures
        r.0@ == key@,
        r.1 matches JsonValue::String(s) && s@ == text@,
{
    (key.to_owned(), JsonValue::String(text.to_owned()))
}

/// The body of a `remember` request: the content, the tenant as the entity,
/// the content type, and the metadata with the session id and the model set.
pub fn remember_body(ctx: &MemoryContext, content: &str, metadata: JsonValue) -> (r: JsonValue)
    ensures
        r matches JsonValue::Object(o) && o@.len() == 4 && o@[0].0@ == "content"@ && (o@[0].1 matches JsonValue::String(
            c,
        ) && c@ == content@) && o@[1].0@ == "entity_id"@ && (o@[1].1 matches JsonValue::String(e)
            && e@ == ctx.tenant_id@) && o@[2].0@ == "content_type"@ && (o@[2].1 matches JsonValue::String(
            t,
        ) && t@ == "conversation"@) && o@[3].0@ == "metadata"@ && metadata_sent(ctx.session_id@, ctx.model@, metadata, o@[3].1),
{
    let meta = remember_metadata(ctx, metadata);
    let mut o: Vec<(String, JsonValue)> = Vec::new();
    o.push(text_member("content", content));
    o.push(text_member("entity_id", ctx.tenant_id.as_str()));
    o.push(text_member("content_type", "conversation"));
    o.push(("metadata".to_owned(), meta));
    JsonValue::Object(o)
}

/// The body of a `recall` request: the query, the tenant as the entity, a
/// hybrid search and at most five results.
pub fn recall_body(ctx: &MemoryContext, query: &str) -> (r: JsonValue)
    ensures
        r matches JsonValue::Object(o) && o@.len() == 4 && o@[0].0@ == "q"@ && (o@[0].1 matches JsonValue::String(
            q,
        ) && q@ == query@) && o@[1].0@ == "entity_id"@ && (o@[1].1 matches JsonValue::String(e)
            && e@ == ctx.tenant_id@) && o@[2].0@ == "search_mode"@ && (o@[2].1 matches JsonValue::String(
            m,
        ) && m@ == "hybrid"@) && o@[3].0@ == "top_k"@ && (o@[3].1 matches JsonValue::Number(n) && n@
            == "5"@),
{
    let mut o: Vec<(String, JsonValue)> = Vec::new();
    o.push(text_member("q", query));
    o.push(text_member("entity_id", ctx.tenant_id.as_str()));
    o.push(text_member("search_mode", "hybrid"));
    o.push(("top_k".to_owned(), JsonValue::Number("5".to_owned())));
    JsonValue::Object(o)
}

/// The text contents of the items of a search answer, in order (items
/// without a text `content` are skipped).
pub open spec fn item_contents(items: Seq<JsonValue>) -> Seq<Seq<char>>
    decreases items.len(),
{
    if items.len() == 0 {
        Seq::empty()
    } else {
        item_contents(items.drop_last()) + match field_value(items.last(), "content"@) {
            Some(JsonValue::String(c)) => seq![c@],
            _ => Seq::empty(),
        }
    }
}

/// The memories of a search answer: the contents of `data.results`, none
/// when the answer has no such array.
pub open spec fn recall_results_spec(answer: JsonValue) -> Seq<Seq<char>> {
    match field_value(answer, "data"@) {
        Some(d) => match field_value(d, "results"@) {
            Some(JsonValue::Array(a)) => item_contents(a@),
            _ => Seq::empty(),
        },
        None => Seq::empty(),
    }
}

/// The memories of a search answer.
pub fn recall_results(answer: &JsonValue) -> (r: Vec<String>)
    ensures
        crate::file_ops::strings_view(r@) == recall_results_spec(*answer),
{
    let mut out: Vec<String> = Vec::new();
    proof {
        reveal_strlit("data");
        reveal_strlit("results");
        reveal_strlit("content");
    }
    let d = match get_field(answer, "data") {
        Some(d) => d,
        None => {
            proof {
                assert(crate::file_ops::strings_view(out@) =~= Seq::<Seq<char>>::empty());
            }
            return out;
        },
    };
    let items = match get_field(d, "results") {
        Some(JsonValue::Array(a)) => a,
        _ => {
            proof {
                assert(crate::file_ops::strings_view(out@) =~= Seq::<Seq<char>>::empty());
            }
            return out;
        },
    };
    for i in 0..items.len()
        invariant
            field_value(*answer, "data"@) == Some(*d),
            field_value(*d, "results"@) == Some(JsonValue::Array(*items)),
            crate::file_ops::strings_view(out@) == item_contents(items@.take(i as int)),
    {
        proof {
            assert(items@.take(i + 1).drop_last() =~= items@.take(i as int));
            assert(items@.take(i + 1).last() == items@[i as int]);
        }
        let ghost before = crate::file_ops::strings_view(out@);
        match get_field(&items[i], "content") {
            Some(JsonValue::String(c)) => {
                out.push(c.clone());
                proof {
                    assert(crate::file_ops::strings_view(out@) =~= before + seq![c@]);
                }
            },
            _ => {
                proof {
                    assert(crate::file_ops::strings_view(out@) =~= before + Seq::<Seq<char>>::empty());
                }
            },
        }
    }
    proof {
        assert(items@.take(items@.len() as int) =~= items@);
    }
    out
}

} // verus!
