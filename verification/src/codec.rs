use vstd::prelude::*;
use crate::value::{Json, JsonValue, wf};
use crate::merge::{key_weight, merge, merge_count, merged};
use crate::error::Error;

verus! {

/// Declares serde_json::Value, the parser's own tree type, so that the
/// wrappers below can pass values of it through.
#[verifier::external_type_specification]
#[verifier::external_body]
pub struct ExValue(serde_json::Value);

/// What serde_json parses a text into, carried over into this crate's
/// document model; `None` where the text is not valid JSON.
pub uninterp spec fn json_parse_result(s: Seq<char>) -> Option<Json>;

/// The pretty-printed text of a document.
pub uninterp spec fn json_pretty_text(v: Json) -> Seq<char>;

/// Relies on serde_json::Value's variants and on serde_json::Number's text
/// form: rebuilds the parsed tree in this crate's model, a number becoming
/// its JSON text.
#[verifier::external_body]
fn from_serde_value(v: serde_json::Value) -> JsonValue {
    match v {
        serde_json::Value::Null => JsonValue::Null,
        serde_json::Value::Bool(b) => JsonValue::Bool(b),
        serde_json::Value::Number(n) => JsonValue::Number(n.to_string()),
        serde_json::Value::String(s) => JsonValue::Text(s),
        serde_json::Value::Array(items) => JsonValue::Array(items.into_iter().map(from_serde_value).collect()),
        serde_json::Value::Object(map) => JsonValue::Object(map.into_iter().map(|e| (e.0, from_serde_value(e.1))).collect()),
    }
}

/// Relies on serde_json::Value's constructors and on parsing a number back
/// from its JSON text; a number whose text is not a JSON number is written
/// out as a JSON string, so that the conversion is total.
#[verifier::external_body]
fn to_serde_value(v: &JsonValue) -> serde_json::Value {
    match v {
        JsonValue::Null => serde_json::Value::Null,
        JsonValue::Bool(b) => serde_json::Value::Bool(*b),
        JsonValue::Number(s) => match serde_json::de::from_str::<serde_json::Number>(s) {
            Ok(n) => serde_json::Value::Number(n),
            Err(_) => serde_json::Value::String(s.clone()),
        },
        JsonValue::Text(s) => serde_json::Value::String(s.clone()),
        JsonValue::Array(items) => serde_json::Value::Array(items.iter().map(to_serde_value).collect()),
        JsonValue::Object(entries) => serde_json::Value::Object(entries.iter().map(|e| (e.0.clone(), to_serde_value(&e.1))).collect()),
    }
}

/// Relies on serde_json::de::from_str: whether a text parses, and the value
/// it parses to, depend on the text alone, and a parsed object holds each
/// key once.
#[verifier::external_body]
fn parse_json_text(text: &str) -> (r: Result<JsonValue, Error>)
    ensures
        match r {
            Ok(v) => json_parse_result(text@) == Some(v@) && wf(v@),
            Err(e) => json_parse_result(text@) is None && e.kind@ == "JSONParseError"@,
        },
{
    match serde_json::de::from_str::<serde_json::Value>(text) {
        Ok(v) => Ok(from_serde_value(v)),
        Err(e) => Err(Error::parse_error(e.to_string())),
    }
}

/// Relies on serde_json::ser::to_string_pretty: rendering a tree into an
/// in-memory buffer cannot fail (the writer is a byte vector and every map
/// key is a string), and the text depends on the document alone.
#[verifier::external_body]
fn render_json_text(v: &JsonValue) -> (r: String)
    ensures
        r@ == json_pretty_text(v@),
{
    serde_json::ser::to_string_pretty(&to_serde_value(v))
        .expect("rendering into memory cannot fail")
}

/// Turns JSON text into a document of this crate's model; fails where the
/// parser does: on text that is not valid JSON, or that nests deeper than
/// the parser accepts.
pub fn parse_json(text: &str) -> (r: Result<JsonValue, Error>)
    ensures
        match r {
            Ok(v) => json_parse_result(text@) == Some(v@) && wf(v@),
            Err(e) => json_parse_result(text@) is None && e.kind@ == "JSONParseError"@,
        },
{
    parse_json_text(text)
}

/// Merges the template into the document held in `target_text`: parses the
/// text, merges, and renders the merged document as pretty-printed JSON,
/// returning the text together with the number of inserted keys. Succeeds
/// exactly when the text parses.
pub fn merge_document(template: &JsonValue, target_text: &str) -> (r: Result<
    (String, usize),
    Error,
>)
    requires
        wf(template@),
        key_weight(template@) <= usize::MAX,
    ensures
        match r {
            Ok(out) => json_parse_result(target_text@) matches Some(x)
                && out.1 == merge_count(template@, x)
                && out.0@ == json_pretty_text(merged(template@, x)),
            Err(e) => json_parse_result(target_text@) is None
                && e.kind@ == "JSONParseError"@,
        },
{
    match parse_json_text(target_text) {
        Ok(target) => {
            let (m, count) = merge(template, target);
            let text = render_json_text(&m);
            Ok((text, count))
        },
        Err(e) => Err(e),
    }
}

} // verus!
