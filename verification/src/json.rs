//! A JSON document as the audit reads it, parsed by `serde_json`.
use vstd::prelude::*;
use crate::text::str_eq;

verus! {

/// A JSON value: a number keeps only what `as_u64` gives of it; an object keeps its members
/// in the order `serde_json` holds them, each key once.
#[derive(Debug)]
pub enum JsonValue {
    Null,
    Bool(bool),
    Number(Option<u64>),
    Str(String),
    Array(Vec<JsonValue>),
    Object(Vec<(String, JsonValue)>),
}

#[verifier::external_type_specification]
#[verifier::external_body]
pub struct ExSerdeJsonValue(serde_json::Value);

/// What `serde_json::from_slice` gives for a byte string as a `serde_json::Value`, taken as a
/// `JsonValue`: a function of the bytes alone (`None` when they are not one JSON document).
pub uninterp spec fn json_document(bytes: Seq<u8>) -> Option<JsonValue>;

/// `serde_json::from_slice::<serde_json::Value>`: the JSON document that the bytes hold, or
/// `None` when they hold none (bad syntax, trailing data).
#[verifier::external_body]
pub fn parse_json(bytes: &[u8]) -> (r: Option<JsonValue>)
    ensures
        r == json_document(bytes@),
{
    match serde_json::from_slice::<serde_json::Value>(bytes) {
        Ok(v) => Some(from_serde(v)),
        Err(_) => None,
    }
}

/// Carries a `serde_json::Value` over into a `JsonValue`, variant for variant; `parse_json`
/// uses it for its result.
#[verifier::external_body]
fn from_serde(v: serde_json::Value) -> JsonValue {
    match v {
        serde_json::Value::Null => JsonValue::Null,
        serde_json::Value::Bool(b) => JsonValue::Bool(b),
        serde_json::Value::Number(n) => JsonValue::Number(n.as_u64()),
        serde_json::Value::String(s) => JsonValue::Str(s),
        serde_json::Value::Array(a) => JsonValue::Array(a.into_iter().map(from_serde).collect()),
        serde_json::Value::Object(m) => JsonValue::Object(m.into_iter().map(|(k, x)| (k, from_serde(x))).collect()),
    }
}

/// The member of an object with this key.
pub open spec fn member(obj: Seq<(String, JsonValue)>, key: Seq<char>) -> Option<JsonValue>
    decreases obj.len(),
{
    if obj.len() == 0 {
        None
    } else if obj[0].0@ == key {
        Some(obj[0].1)
    } else {
        member(obj.drop_first(), key)
    }
}

pub fn get_member<'a>(obj: &'a Vec<(String, JsonValue)>, key: &str) -> (r: Option<&'a JsonValue>)
    ensures
        match r {
            Some(v) => member(obj@, key@) == Some(*v),
            None => member(obj@, key@) is None,
        },
{
    let ghost s = obj@;
    let mut k: usize = 0;
    assert(s.skip(0) =~= s);
    while k < obj.len()
        invariant
            k <= s.len(),
            s == obj@,
            member(s, key@) == member(s.skip(k as int), key@),
        decreases s.len() - k,
    {
        assert(s.skip(k as int)[0] == s[k as int]);
        assert(s.skip(k as int).drop_first() =~= s.skip(k + 1));
        if str_eq(obj[k].0.as_str(), key) {
            return Some(&obj[k].1);
        }
        k += 1;
    }
    None
}

/// A borrowed optional value taken as a value.
pub open spec fn opt_value(o: Option<&JsonValue>) -> Option<JsonValue> {
    match o {
        Some(v) => Some(*v),
        None => None,
    }
}

/// The member of `v` with this key, when `v` is an object.
pub open spec fn field(v: JsonValue, key: Seq<char>) -> Option<JsonValue> {
    match v {
        JsonValue::Object(m) => member(m@, key),
        _ => None,
    }
}

/// The text of the member of `v` with this key, when it is a string.
pub open spec fn text_field(v: JsonValue, key: Seq<char>) -> Option<Seq<char>> {
    match field(v, key) {
        Some(JsonValue::Str(s)) => Some(s@),
        _ => None,
    }
}

pub fn get_field<'a>(v: &'a JsonValue, key: &str) -> (r: Option<&'a JsonValue>)
    ensures
        match r {
            Some(x) => field(*v, key@) == Some(*x),
            None => field(*v, key@) is None,
        },
{
    match v {
        JsonValue::Object(m) => get_member(m, key),
        _ => None,
    }
}

pub fn get_text<'a>(v: &'a JsonValue, key: &str) -> (r: Option<&'a str>)
    ensures
        crate::model::opt_str_view(r) == text_field(*v, key@),
{
    match get_field(v, key) {
        Some(JsonValue::Str(s)) => Some(s.as_str()),
        _ => None,
    }
}

} // verus!
