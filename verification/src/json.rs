//! Reading JSON text held by messages (tool-call arguments, result details).
use vstd::prelude::*;

use crate::text::str_eq;

verus! {

/// A parsed JSON value, as the guards read it: members of an object keep
/// their order, and a number is kept as its text.
#[derive(Debug)]
pub enum JsonValue {
    Null,
    Bool(bool),
    Number(String),
    String(String),
    Array(Vec<JsonValue>),
    Object(Vec<(String, JsonValue)>),
}

/// A JSON value as `serde_json` represents it.
#[verifier::external_type_specification]
#[verifier::external_body]
pub struct ExSerdeValue(serde_json::Value);

/// The value `text` parses to (`serde_json::from_str`), object members in
/// the order `serde_json` keeps them (by key) and numbers as `serde_json`
/// writes them; `None` when `text` is not JSON.
pub uninterp spec fn json_parse(text: Seq<char>) -> Option<JsonValue>;

/// The value a `serde_json` value holds, variant for variant (object
/// members in the map's order, a number as its text).
#[verifier::external_body]
fn from_serde_value(v: &serde_json::Value) -> JsonValue {
    match v {
        serde_json::Value::Null => JsonValue::Null,
        serde_json::Value::Bool(b) => JsonValue::Bool(*b),
        serde_json::Value::Number(n) => JsonValue::Number(n.to_string()),
        serde_json::Value::String(t) => JsonValue::String(t.clone()),
        serde_json::Value::Array(a) => JsonValue::Array(a.iter().map(from_serde_value).collect()),
        serde_json::Value::Object(o) => JsonValue::Object(o.iter().map(|(k, x)| (k.clone(), from_serde_value(x))).collect()),
    }
}

/// `serde_json::from_str`: the value `text` parses to, `None` when it is not
/// JSON.
#[verifier::external_body]
pub(crate) fn parse_json(text: &str) -> (r: Option<JsonValue>)
    ensures
        r == json_parse(text@),
{
    match serde_json::from_str::<serde_json::Value>(text) {
        Ok(v) => Some(from_serde_value(&v)),
        Err(_) => None,
    }
}

/// The compact serialization (`serde_json::to_string`) of the value that
/// `text` parses to; empty when `text` is not JSON.
pub uninterp spec fn json_compact(text: Seq<char>) -> Seq<char>;

/// Length in bytes of the compact serialization of the value `text` parses to.
pub open spec fn json_compact_len(text: Seq<char>) -> nat {
    crate::text::utf8_len(json_compact(text))
}

/// `serde_json::from_str` then `serde_json::to_string`: the compact text of
/// the value `text` parses to, or an empty string if it does not parse.
#[verifier::external_body]
pub(crate) fn compact_json(text: &str) -> (r: String)
    ensures
        r@ == json_compact(text@),
{
    match serde_json::from_str::<serde_json::Value>(text) {
        Ok(v) => v.to_string(),
        Err(_) => String::new(),
    }
}

/// The string stored under `key` in the JSON object `text` parses to, if any.
pub uninterp spec fn json_str_field(text: Seq<char>, key: Seq<char>) -> Option<Seq<char>>;

/// The boolean stored under `key` in the JSON object `text` parses to, if any.
pub uninterp spec fn json_bool_field(text: Seq<char>, key: Seq<char>) -> Option<bool>;

/// `serde_json::from_str` followed by `serde_json::to_string`: the length of
/// the compact re-serialization of `text`, or 0 if `text` does not parse.
#[verifier::external_body]
pub(crate) fn compact_json_len(text: &str) -> (n: usize)
    ensures
        n == json_compact_len(text@),
{
    match serde_json::from_str::<serde_json::Value>(text) {
        Ok(v) => v.to_string().len(),
        Err(_) => 0,
    }
}

/// `serde_json::from_str` then `Value::get(key)` and `Value::as_str`: the
/// string field `key` of the object `text` holds.
#[verifier::external_body]
pub(crate) fn str_field(text: &str, key: &str) -> (r: Option<String>)
    ensures
        r matches Some(s) ==> json_str_field(text@, key@) == Some(s@),
        r is None ==> json_str_field(text@, key@) is None,
{
    match serde_json::from_str::<serde_json::Value>(text) {
        Ok(v) => v.get(key).and_then(|x| x.as_str()).map(|s| s.to_string()),
        Err(_) => None,
    }
}

/// `serde_json::from_str` then `Value::get(key)` and `Value::as_bool`: the
/// boolean field `key` of the object `text` holds.
#[verifier::external_body]
pub(crate) fn bool_field(text: &str, key: &str) -> (r: Option<bool>)
    ensures
        r == json_bool_field(text@, key@),
{
    match serde_json::from_str::<serde_json::Value>(text) {
        Ok(v) => v.get(key).and_then(|x| x.as_bool()),
        Err(_) => None,
    }
}

/// A lower-case hexadecimal digit.
pub open spec fn hex_digit(n: u32) -> char {
    if n < 10 {
        (('0' as u32) + n) as char
    } else {
        (('a' as u32) + n - 10) as char
    }
}

/// How `serde_json` writes one character inside a string literal: `"` and
/// `\` escaped by a backslash, backspace, tab, line feed, form feed and
/// carriage return as `\b`, `\t`, `\n`, `\f`, `\r`, the other characters
/// below U+0020 as `\u00` and two hexadecimal digits, all others as they are.
pub open spec fn json_escape_char(c: char) -> Seq<char> {
    let v = c as u32;
    if c == '"' {
        seq!['\\', '"']
    } else if c == '\\' {
        seq!['\\', '\\']
    } else if v == 0x08 {
        seq!['\\', 'b']
    } else if v == 0x09 {
        seq!['\\', 't']
    } else if v == 0x0A {
        seq!['\\', 'n']
    } else if v == 0x0C {
        seq!['\\', 'f']
    } else if v == 0x0D {
        seq!['\\', 'r']
    } else if v < 0x20 {
        seq!['\\', 'u', '0', '0', hex_digit(v / 16), hex_digit(v % 16)]
    } else {
        seq![c]
    }
}

/// The characters of `s`, each as `serde_json` writes it in a string literal.
pub open spec fn json_escape(s: Seq<char>) -> Seq<char>
    decreases s.len(),
{
    if s.len() == 0 {
        Seq::empty()
    } else {
        json_escape(s.drop_last()) + json_escape_char(s.last())
    }
}

/// The JSON string literal (quoted and escaped) that `serde_json` writes for `s`.
pub open spec fn json_string(s: Seq<char>) -> Seq<char> {
    seq!['"'] + json_escape(s) + seq!['"']
}

/// The compact JSON text of the value `text` parses to once `key` is set to
/// `true` in it, where it is an object or `null` (which becomes an object);
/// `None` for anything else.
pub uninterp spec fn json_set_true(text: Seq<char>, key: Seq<char>) -> Option<Seq<char>>;

/// `serde_json`'s `Display` of a string value: the quoted literal, escaped
/// as `json_escape_char` states.
#[verifier::external_body]
pub(crate) fn quote_json(s: &str) -> (r: String)
    ensures
        r@ == json_string(s@),
{
    serde_json::Value::String(s.to_owned()).to_string()
}

/// `serde_json::from_str`, then `value[key] = true` (indexing a `null`
/// turns it into an object; a value that is neither an object nor `null`,
/// where indexing would panic, is refused here), then `serde_json::to_string`.
/// The text written holds `true` under `key`.
#[verifier::external_body]
pub(crate) fn set_true_flag(text: &str, key: &str) -> (r: Option<String>)
    ensures
        r matches Some(t) ==> json_set_true(text@, key@) == Some(t@),
        r is None ==> json_set_true(text@, key@) is None,
        r matches Some(t) ==> json_bool_field(t@, key@) == Some(true),
{
    let mut v = match serde_json::from_str::<serde_json::Value>(text) {
        Ok(v) => v,
        Err(_) => return None,
    };
    if !(v.is_object() || v.is_null()) {
        return None;
    }
    v[key] = serde_json::Value::Bool(true);
    Some(v.to_string())
}

/// The value of the first member of an object named `key`.
pub open spec fn member_value(o: Seq<(String, JsonValue)>, key: Seq<char>) -> Option<JsonValue>
    decreases o.len(),
{
    if o.len() == 0 {
        None
    } else if o[0].0@ == key {
        Some(o[0].1)
    } else {
        member_value(o.drop_first(), key)
    }
}

/// The field `key` of a value: a member of an object; nothing for other values.
pub open spec fn field_value(v: JsonValue, key: Seq<char>) -> Option<JsonValue> {
    match v {
        JsonValue::Object(o) => member_value(o@, key),
        _ => None,
    }
}

proof fn lemma_member_at(o: Seq<(String, JsonValue)>, key: Seq<char>, i: int)
    requires
        0 <= i < o.len(),
        o[i].0@ == key,
        forall|j: int| 0 <= j < i ==> (#[trigger] o[j]).0@ != key,
    ensures
        member_value(o, key) == Some(o[i].1),
    decreases i,
{
    if i > 0 {
        assert forall|j: int| 0 <= j < i - 1 implies (#[trigger] o.drop_first()[j]).0@ != key by {
            assert(o.drop_first()[j] == o[j + 1]);
        }
        lemma_member_at(o.drop_first(), key, i - 1);
    }
}

proof fn lemma_member_none(o: Seq<(String, JsonValue)>, key: Seq<char>)
    requires
        forall|j: int| 0 <= j < o.len() ==> (#[trigger] o[j]).0@ != key,
    ensures
        member_value(o, key) is None,
    decreases o.len(),
{
    if o.len() > 0 {
        assert forall|j: int| 0 <= j < o.len() - 1 implies (#[trigger] o.drop_first()[j]).0@ != key by {
            assert(o.drop_first()[j] == o[j + 1]);
        }
        lemma_member_none(o.drop_first(), key);
    }
}

/// The field `key` of a value, as `serde_json::Value::get` with a string key
/// finds it.
pub fn get_field<'a>(v: &'a JsonValue, key: &str) -> (r: Option<&'a JsonValue>)
    ensures
        r matches Some(x) ==> field_value(*v, key@) == Some(*x),
        r is None ==> field_value(*v, key@) is None,
{
    match v {
        JsonValue::Object(o) => {
            let mut i: usize = 0;
            while i < o.len()
                invariant
                    i <= o@.len(),
                    field_value(*v, key@) == member_value(o@, key@),
                    forall|j: int| 0 <= j < i ==> (#[trigger] o@[j]).0@ != key@,
                decreases o@.len() - i,
            {
                if str_eq(o[i].0.as_str(), key) {
                    let m = &o[i];
                    proof {
                        assert(*m == o@[i as int]);
                        lemma_member_at(o@, key@, i as int);
                    }
                    return Some(&m.1);
                }
                i = i + 1;
            }
            proof {
                lemma_member_none(o@, key@);
            }
            None
        },
        _ => None,
    }
}

} // verus!
