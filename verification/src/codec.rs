use vstd::prelude::*;

use crate::json::{Json, JsonV};
use crate::transform::wf_json;

verus! {

/// `serde_json::Value`, the parser's own document type; it only passes
/// through the two conversion helpers below.
#[verifier::external_type_specification]
#[verifier::external_body]
pub struct ExValue(serde_json::Value);

/// The document denoted by a text, if the text is valid JSON. What
/// `serde_json::from_str` accepts and how it reads a text is its own
/// affair; the library only names the outcome.
pub uninterp spec fn json_of_text(s: Seq<char>) -> Option<JsonV>;

/// The two-space pretty-printed text of a document, as
/// `serde_json::to_string_pretty` lays it out.
pub uninterp spec fn pretty_text_of(v: JsonV) -> Seq<char>;

/// Converts the parser's document type into the library's, one arm per
/// variant, keys and elements in order. Used only by `parse_json`.
#[verifier::external_body]
fn value_to_json(v: serde_json::Value) -> Json {
    match v {
        serde_json::Value::Null => Json::Null,
        serde_json::Value::Bool(b) => Json::Bool(b),
        serde_json::Value::Number(n) => Json::Num(n),
        serde_json::Value::String(s) => Json::Str(s),
        serde_json::Value::Array(a) => Json::Arr(a.into_iter().map(value_to_json).collect()),
        serde_json::Value::Object(m) => Json::Obj(
            m.into_iter().map(
                |kv: (String, serde_json::Value)| (kv.0, value_to_json(kv.1)),
            ).collect(),
        ),
    }
}

/// Converts the library's document type back into the parser's, one
/// arm per variant, keys and elements in order. Used only by
/// `to_pretty`.
#[verifier::external_body]
fn value_from_json(j: &Json) -> serde_json::Value {
    match j {
        Json::Null => serde_json::Value::Null,
        Json::Bool(b) => serde_json::Value::Bool(*b),
        Json::Num(n) => serde_json::Value::Number(n.clone()),
        Json::Str(s) => serde_json::Value::String(s.clone()),
        Json::Arr(v) => serde_json::Value::Array(v.iter().map(value_from_json).collect()),
        Json::Obj(v) => serde_json::Value::Object(
            v.iter().map(
                |kv: &(String, Json)| (kv.0.clone(), value_from_json(&kv.1)),
            ).collect(),
        ),
    }
}

/// Relies on `serde_json::from_str`: it returns `Ok` exactly on valid
/// JSON text, and a parsed document has distinct keys in every object.
/// On failure the parser's diagnostic is handed back as text.
#[verifier::external_body]
pub(crate) fn parse_json(s: &str) -> (r: Result<Json, String>)
    ensures
        r is Ok <==> json_of_text(s@) is Some,
        r matches Ok(j) ==> json_of_text(s@) == Some(j@) && wf_json(j@),
{
    match serde_json::from_str::<serde_json::Value>(s) {
        Ok(v) => Ok(value_to_json(v)),
        Err(e) => Err(e.to_string()),
    }
}

/// Relies on `serde_json::to_string_pretty`: serializing a document
/// whose object keys are strings cannot fail, its output is determined
/// by the value alone, and — as serde_json guarantees for `Value` —
/// parsing the output (a trailing newline is whitespace the parser
/// accepts) yields an equal value.
#[verifier::external_body]
pub(crate) fn to_pretty(j: &Json) -> (r: String)
    requires
        wf_json(j@),
    ensures
        r@ == pretty_text_of(j@),
        json_of_text(r@ + "\n"@) == Some(j@),
{
    serde_json::to_string_pretty(&value_from_json(j)).unwrap_or_default()
}

} // verus!
