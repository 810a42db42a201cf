//! JSON values as the worker's bodies carry them, read with `serde_json`
//! into plain values that the library's logic can inspect.
use vstd::prelude::*;

verus! {

/// A JSON value. A number keeps the text `serde_json` prints for it; an
/// object keeps its members in the order `serde_json`'s map keeps them.
#[derive(Debug)]
pub enum JsonValue {
    Null,
    Bool(bool),
    Number(String),
    Str(String),
    Array(Vec<JsonValue>),
    Object(Vec<JsonMember>),
}

/// A member of a JSON object: its key, its value, and the compact JSON text
/// that `serde_json` prints for the value.
#[derive(Debug)]
pub struct JsonMember {
    pub key: String,
    pub value: JsonValue,
    pub text: String,
}

#[verifier::external_type_specification]
#[verifier::external_body]
pub struct ExSerdeJsonValue(serde_json::Value);

/// What `serde_json::from_str::<serde_json::Value>` reads from `raw`, in the
/// library's form; `None` when `raw` is not JSON.
pub uninterp spec fn json_parsed(raw: Seq<char>) -> Option<JsonValue>;

/// A `serde_json::Value` in the library's form, variant for variant; each
/// object member also carries the value's text from `serde_json`'s
/// `Display` (compact JSON). Nothing is stated of the result: the caller
/// names it.
#[verifier::external_body]
fn json_value_from_serde(value: serde_json::Value) -> JsonValue {
    match value {
        serde_json::Value::Null => JsonValue::Null,
        serde_json::Value::Bool(b) => JsonValue::Bool(b),
        serde_json::Value::Number(n) => JsonValue::Number(n.to_string()),
        serde_json::Value::String(s) => JsonValue::Str(s),
        serde_json::Value::Array(items) => JsonValue::Array(items.into_iter().map(json_value_from_serde).collect()),
        serde_json::Value::Object(members) => JsonValue::Object(members.into_iter().map(|(key, value)|
            JsonMember { text: value.to_string(), key, value: json_value_from_serde(value) }
        ).collect()),
    }
}

/// Parses `raw` with `serde_json::from_str` into a `serde_json::Value` and
/// hands it over in the library's form; `None` for `serde_json`'s error.
/// The contract names the result.
#[verifier::external_body]
pub(crate) fn parse_json_value(raw: &str) -> (r: Option<JsonValue>)
    ensures
        r == json_parsed(raw@),
{
    match serde_json::from_str::<serde_json::Value>(raw) {
        Ok(value) => Some(json_value_from_serde(value)),
        Err(_) => None,
    }
}

} // verus!
