//! JSON documents as plain values.
use json::JsonValue;
use vstd::prelude::*;

verus! {

/// json's parsed value, carried as an opaque value.
#[verifier::external_type_specification]
#[verifier::external_body]
pub struct ExJsonValue(JsonValue);

/// A JSON value. A number keeps its value when json's `as_u32` reads one:
/// written as a plain integer, without fraction or exponent, that fits in a
/// `u32` (`5.0` and `1e2` keep none).
pub enum Json {
    Null,
    Bool(bool),
    Number(Option<u32>),
    Str(String),
    Array(Vec<Json>),
    Object(Vec<(String, Json)>),
}

/// The value that a JSON text holds; `None` for text that is not JSON.
pub uninterp spec fn json_document(text: Seq<char>) -> Option<Json>;

/// Relies on json::parse: the value of the text, the same for the same text,
/// and nothing when the text is not JSON.
#[verifier::external_body]
pub fn parse_json(text: &str) -> (r: Option<Json>)
    ensures
        r == json_document(text@),
{
    match json::parse(text) {
        Ok(v) => Some(json_value(&v)),
        Err(_) => None,
    }
}

/// Relies on json's JsonValue variants, JsonValue::as_u32 and Object::iter:
/// the value copied out, keys in the object's order.
#[verifier::external_body]
fn json_value(v: &JsonValue) -> Json {
    match v {
        JsonValue::Null => Json::Null,
        JsonValue::Boolean(b) => Json::Bool(*b),
        JsonValue::Number(_) => Json::Number(v.as_u32()),
        JsonValue::Short(s) => Json::Str(s.as_str().to_string()),
        JsonValue::String(s) => Json::Str(s.clone()),
        JsonValue::Array(a) => Json::Array(a.iter().map(json_value).collect()),
        JsonValue::Object(o) => Json::Object(o.iter().map(|(k, x)| (k.to_string(), json_value(x))).collect()),
    }
}

/// The value under `key` in a list of object entries (the first one).
pub open spec fn entry_value(entries: Seq<(String, Json)>, key: Seq<char>) -> Option<Json>
    decreases entries.len(),
{
    if entries.len() == 0 {
        None
    } else if entries[0].0@ == key {
        Some(entries[0].1)
    } else {
        entry_value(entries.drop_first(), key)
    }
}

/// The value under `key` of an object; `None` for a missing key or a value
/// that is no object.
pub open spec fn get_field(v: Json, key: Seq<char>) -> Option<Json> {
    match v {
        Json::Object(entries) => entry_value(entries@, key),
        _ => None,
    }
}

/// The field `key` of `v`, when `v` is present.
pub open spec fn get_field_of(v: Option<Json>, key: Seq<char>) -> Option<Json> {
    match v {
        Some(x) => get_field(x, key),
        None => None,
    }
}

/// The value under `key` of an object.
pub fn json_get<'b>(v: &'b Json, key: &str) -> (r: Option<&'b Json>)
    ensures
        r matches Some(x) ==> get_field(*v, key@) == Some(*x),
        r is None ==> get_field(*v, key@) is None,
{
    match v {
        Json::Object(entries) => {
            let k = key.to_owned();
            let mut i: usize = 0;
            assert(entries@.subrange(0, entries@.len() as int) == entries@);
            while i < entries.len()
                invariant
                    i <= entries.len(),
                    k@ == key@,
                    get_field(*v, key@) == entry_value(entries@, key@),
                    entry_value(entries@, key@) == entry_value(
                        entries@.subrange(i as int, entries@.len() as int),
                        key@,
                    ),
                decreases entries.len() - i,
            {
                let ghost rest = entries@.subrange(i as int, entries@.len() as int);
                assert(rest.drop_first() == entries@.subrange(i + 1, entries@.len() as int));
                assert(rest[0] == entries@[i as int]);
                if entries[i].0 == k {
                    assert(entry_value(rest, key@) == Some(entries@[i as int].1));
                    return Some(&entries[i].1);
                }
                i = i + 1;
            }
            None
        },
        _ => None,
    }
}

/// The field `key` of `v`, when `v` is present.
pub fn json_get_of<'b>(v: Option<&'b Json>, key: &str) -> (r: Option<&'b Json>)
    ensures
        r matches Some(x) ==> get_field_of(
            match v {
                Some(y) => Some(*y),
                None => None,
            },
            key@,
        ) == Some(*x),
        r is None ==> get_field_of(
            match v {
                Some(y) => Some(*y),
                None => None,
            },
            key@,
        ) is None,
{
    match v {
        Some(x) => json_get(x, key),
        None => None,
    }
}

} // verus!
