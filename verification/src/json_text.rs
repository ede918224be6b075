//! JSON text: reading one JSON document into the library's [`Json`], and
//! writing one out, both by `serde_json`.

use vstd::prelude::*;

use crate::json::{Json, JsonV};

verus! {

#[verifier::external_type_specification]
#[verifier::external_body]
pub struct ExSerdeValue(serde_json::Value);

/// The value `serde_json` reads from a JSON text, as the library holds it
/// (a number keeps the text `serde_json` writes for it); `None` when the text
/// is not one JSON document.
pub uninterp spec fn parsed_json(text: Seq<char>) -> Option<JsonV>;

/// The JSON text `serde_json` writes for a value (compact); `None` when a
/// number's text is not one `serde_json` reads as a number.
pub uninterp spec fn json_text(j: JsonV) -> Option<Seq<char>>;

/// A `serde_json` value as the library holds it, one for one: numbers keep
/// the text `serde_json` writes for them.
#[verifier::external_body]
fn json_from_value(v: serde_json::Value) -> Json {
    match v {
        serde_json::Value::Null => Json::Null,
        serde_json::Value::Bool(b) => Json::Bool(b),
        serde_json::Value::Number(n) => Json::Number(n.to_string()),
        serde_json::Value::String(s) => Json::Str(s),
        serde_json::Value::Array(a) => Json::Array(a.into_iter().map(json_from_value).collect()),
        serde_json::Value::Object(m) => Json::Object(m.into_iter().map(|(k, x)| (k, json_from_value(x))).collect()),
    }
}

/// A library value as a `serde_json` value, one for one; `None` when a
/// number's text is not a `serde_json` number.
#[verifier::external_body]
fn value_from_json(j: &Json) -> Option<serde_json::Value> {
    Some(match j {
        Json::Null => serde_json::Value::Null,
        Json::Bool(b) => serde_json::Value::Bool(*b),
        Json::Number(t) => serde_json::Value::Number(t.parse::<serde_json::Number>().ok()?),
        Json::Str(s) => serde_json::Value::String(s.clone()),
        Json::Array(a) => serde_json::Value::Array(a.iter().map(value_from_json).collect::<Option<_>>()?),
        Json::Object(es) => serde_json::Value::Object(
            es.iter().map(|(k, x)| Some((k.clone(), value_from_json(x)?))).collect::<Option<_>>()?,
        ),
    })
}

/// `serde_json::from_str::<Value>`: the value of one JSON document (see
/// [`parsed_json`]).
#[verifier::external_body]
pub fn parse_json(text: &str) -> (r: Option<Json>)
    ensures
        match r {
            Some(j) => parsed_json(text@) == Some(j@),
            None => parsed_json(text@) is None,
        },
{
    serde_json::from_str::<serde_json::Value>(text).ok().map(json_from_value)
}

/// `serde_json::to_string`: the compact JSON text of a value (see
/// [`json_text`]).
#[verifier::external_body]
pub fn encode_json(j: &Json) -> (r: Option<String>)
    ensures
        match r {
            Some(t) => json_text(j@) == Some(t@),
            None => json_text(j@) is None,
        },
{
    serde_json::to_string(&value_from_json(j)?).ok()
}

} // verus!
