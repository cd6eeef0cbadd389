//! A JSON document as the library reads it, and its exchange with
//! serde_json's text form.

use vstd::prelude::*;

verus! {

#[verifier::external_type_specification]
#[verifier::external_body]
pub struct ExJsonDocument(serde_json::Value);

/// A JSON value. Numbers are kept as their JSON text, so that no precision is
/// lost and no float is needed.
#[derive(Debug)]
pub enum JsonValue {
    Null,
    Bool(bool),
    Number(String),
    Str(String),
    Array(Vec<JsonValue>),
    Object(Vec<(String, JsonValue)>),
}

/// The value that serde_json reads from `b` (`serde_json::from_slice`), in
/// the library's form; `None` where `b` is not one JSON document.
pub uninterp spec fn json_of_bytes(b: Seq<u8>) -> Option<JsonValue>;

/// The compact JSON text that serde_json writes for `j`.
pub uninterp spec fn json_text_of(j: JsonValue) -> Seq<char>;

/// Every number in `j` is written as a canonical `i64`: an optional `-` and
/// digits without leading zeros.
pub open spec fn integer_numbers(j: JsonValue) -> bool
    decreases j,
{
    match j {
        JsonValue::Number(t) => exists|n: int|
            i64::MIN <= n <= i64::MAX && t@ == crate::decimal::int_decimal(n),
        JsonValue::Array(items) => forall|i: int|
            0 <= i < items@.len() ==> integer_numbers(#[trigger] items@[i]),
        JsonValue::Object(fs) => forall|i: int|
            0 <= i < fs@.len() ==> integer_numbers(#[trigger] fs@[i].1),
        _ => true,
    }
}

/// Relies on the variants of `serde_json::Value`, on `serde_json::Number`'s
/// `Display` for a number's text, and on iterating a `serde_json::Map`.
#[verifier::external_body]
fn from_document(v: serde_json::Value) -> JsonValue {
    match v {
        serde_json::Value::Null => JsonValue::Null,
        serde_json::Value::Bool(b) => JsonValue::Bool(b),
        serde_json::Value::Number(n) => JsonValue::Number(n.to_string()),
        serde_json::Value::String(s) => JsonValue::Str(s),
        serde_json::Value::Array(a) => JsonValue::Array(a.into_iter().map(from_document).collect()),
        serde_json::Value::Object(m) => {
            JsonValue::Object(m.into_iter().map(|(k, x)| (k, from_document(x))).collect())
        },
    }
}

/// Relies on the variants of `serde_json::Value`, on collecting a
/// `serde_json::Map`, and on `serde_json::Number`'s `FromStr`, which reads
/// every canonical `i64` text and refuses text that is not a JSON number.
#[verifier::external_body]
fn to_document(j: &JsonValue) -> (r: Option<serde_json::Value>)
    ensures
        integer_numbers(*j) ==> r is Some,
{
    Some(match j {
        JsonValue::Null => serde_json::Value::Null,
        JsonValue::Bool(b) => serde_json::Value::Bool(*b),
        JsonValue::Number(t) => serde_json::Value::Number(t.parse::<serde_json::Number>().ok()?),
        JsonValue::Str(s) => serde_json::Value::String(s.clone()),
        JsonValue::Array(a) => serde_json::Value::Array(a.iter().map(to_document).collect::<Option<_>>()?),
        JsonValue::Object(m) => serde_json::Value::Object(
            m.iter().map(|(k, x)| Some((k.clone(), to_document(x)?))).collect::<Option<_>>()?,
        ),
    })
}

/// Relies on `serde_json::from_slice::<serde_json::Value>`: one JSON document
/// read from bytes, `None` where the bytes are not one.
#[verifier::external_body]
pub fn parse_json(b: &[u8]) -> (r: Option<JsonValue>)
    ensures
        r == json_of_bytes(b@),
{
    serde_json::from_slice::<serde_json::Value>(b).ok().map(from_document)
}

/// Relies on `serde_json::Value`'s `Display`: the compact JSON text of a
/// value; `None` only where a number's text is not a JSON number.
#[verifier::external_body]
pub fn to_json_text(j: &JsonValue) -> (r: Option<String>)
    ensures
        r matches Some(s) ==> s@ == json_text_of(*j),
        integer_numbers(*j) ==> r is Some,
{
    to_document(j).map(|v| v.to_string())
}

} // verus!
