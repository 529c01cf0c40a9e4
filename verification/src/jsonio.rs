//! The boundary to the JSON codec: parsing response text into the library's
//! tree and rendering a tree as request text, both through serde_json.

use vstd::prelude::*;

use crate::json::JsonData;
use crate::json::JsonVal;

verus! {

/// serde_json's parsed tree. Opaque here: it is read into the library's own
/// tree right after parsing.
#[verifier::external_type_specification]
#[verifier::external_body]
pub struct ExValue(serde_json::Value);

/// What parsing a text yields: the tree it encodes, read into the library's
/// values, or nothing where the text is not valid JSON. A function of the
/// text alone.
pub uninterp spec fn parsed_json(text: Seq<char>) -> Option<JsonData>;

/// What rendering a tree yields: its JSON text. A function of the tree alone.
pub uninterp spec fn rendered_json(v: JsonData) -> Seq<char>;

/// Reads a serde_json tree into the library's values, variant by variant.
/// Relies on serde_json::Value and Number::as_i64: a number that is a signed
/// 64-bit integer becomes an exact integer, any other number is marked
/// inexact; object fields keep serde_json's order.
#[verifier::external_body]
fn value_to_tree(v: &serde_json::Value) -> JsonVal {
    match v {
        serde_json::Value::Null => JsonVal::Null,
        serde_json::Value::Bool(b) => JsonVal::Bool(*b),
        serde_json::Value::Number(n) => n.as_i64().map_or(JsonVal::InexactNum, JsonVal::Int),
        serde_json::Value::String(s) => JsonVal::Str(s.clone()),
        serde_json::Value::Array(a) => JsonVal::Arr(a.iter().map(value_to_tree).collect()),
        serde_json::Value::Object(m) => JsonVal::Obj(
            m.iter().map(|(k, x)| (k.clone(), value_to_tree(x))).collect(),
        ),
    }
}

/// Turns the library's tree into serde_json's, variant by variant. An inexact
/// number renders as null: none is ever put in a request the library builds.
#[verifier::external_body]
fn tree_to_value(v: &JsonVal) -> serde_json::Value {
    match v {
        JsonVal::Null => serde_json::Value::Null,
        JsonVal::Bool(b) => serde_json::Value::Bool(*b),
        JsonVal::Int(i) => serde_json::Value::Number((*i).into()),
        JsonVal::InexactNum => serde_json::Value::Null,
        JsonVal::Str(s) => serde_json::Value::String(s.clone()),
        JsonVal::Arr(items) => serde_json::Value::Array(items.iter().map(tree_to_value).collect()),
        JsonVal::Obj(fields) => serde_json::Value::Object(
            fields.iter().map(|(k, x)| (k.clone(), tree_to_value(x))).collect(),
        ),
    }
}

/// Relies on serde_json::from_str: parses a text as JSON, yielding the tree
/// it encodes (read into the library's values) and failing exactly on
/// invalid JSON. The outcome depends on the text alone.
#[verifier::external_body]
pub fn parse_json(text: &str) -> (r: Option<JsonVal>)
    ensures
        match r {
            Some(v) => parsed_json(text@) == Some(v@),
            None => parsed_json(text@) is None,
        },
{
    match serde_json::from_str::<serde_json::Value>(text) {
        Ok(v) => Some(value_to_tree(&v)),
        Err(_) => None,
    }
}

/// Relies on serde_json's Display for Value: renders a tree as compact JSON
/// text. The outcome depends on the tree alone.
#[verifier::external_body]
pub fn render_json(v: &JsonVal) -> (r: String)
    ensures
        r@ == rendered_json(v@),
{
    tree_to_value(v).to_string()
}

} // verus!
