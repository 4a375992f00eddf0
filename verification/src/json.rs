//! Json holds a JSON document one level deep: a scalar, or an array or object whose members are
//! kept as their own compact JSON texts. Parsing and writing are serde_json's; what the library
//! does with the members is verified here.

use vstd::prelude::*;
use serde_json::Value;

verus! {

/// One JSON value, its members written as compact JSON texts.
#[derive(PartialEq, Eq, Debug)]
pub enum Json {
    Null,
    Bool(bool),
    /// A number, as its JSON text.
    Number(String),
    Text(String),
    /// The array's items, each as a JSON text.
    Array(Vec<String>),
    /// The object's fields in the order the parser gives them, each value as a JSON text.
    Object(Vec<(String, String)>),
}

pub enum JsonView {
    Null,
    Bool(bool),
    Number(Seq<char>),
    Text(Seq<char>),
    Array(Seq<Seq<char>>),
    Object(Seq<(Seq<char>, Seq<char>)>),
}

pub open spec fn texts(v: Seq<String>) -> Seq<Seq<char>> {
    v.map_values(|s: String| s@)
}

pub open spec fn field_texts(v: Seq<(String, String)>) -> Seq<(Seq<char>, Seq<char>)> {
    v.map_values(|f: (String, String)| (f.0@, f.1@))
}

impl View for Json {
    type V = JsonView;

    open spec fn view(&self) -> JsonView {
        match self {
            Json::Null => JsonView::Null,
            Json::Bool(b) => JsonView::Bool(*b),
            Json::Number(n) => JsonView::Number(n@),
            Json::Text(s) => JsonView::Text(s@),
            Json::Array(items) => JsonView::Array(texts(items@)),
            Json::Object(fields) => JsonView::Object(field_texts(fields@)),
        }
    }
}

pub open spec fn json_opt(j: Option<Json>) -> Option<JsonView> {
    match j {
        Some(v) => Some(v@),
        None => None,
    }
}

/// What serde_json reads from a text, one level deep; `None` where the text is not JSON.
pub uninterp spec fn json_of(text: Seq<char>) -> Option<JsonView>;

/// The compact JSON text serde_json writes for a value; `None` where a member text is not JSON.
pub uninterp spec fn json_written(j: JsonView) -> Option<Seq<char>>;

/// Reads `text` with `serde_json::from_str` into a `serde_json::Value` and keeps its top level,
/// each array item and object value written back with `Value`'s `Display` (compact JSON). The
/// contract names the result: the same text always reads the same; nothing more is claimed.
#[verifier::external_body]
pub(crate) fn parse_json(text: &str) -> (r: Option<Json>)
    ensures
        json_opt(r) == json_of(text@),
{
    Some(match serde_json::from_str::<Value>(text).ok()? {
        Value::Null => Json::Null,
        Value::Bool(b) => Json::Bool(b),
        Value::Number(n) => Json::Number(n.to_string()),
        Value::String(s) => Json::Text(s),
        Value::Array(a) => Json::Array(a.iter().map(|e| e.to_string()).collect()),
        Value::Object(o) => Json::Object(o.into_iter().map(|(k, v)| (k, v.to_string())).collect()),
    })
}

/// Rebuilds a `serde_json::Value` from `j`, reading each member text and a number's text with
/// `serde_json::from_str`, and writes it with `serde_json::to_string`. The contract names the
/// result: the same value always writes the same; nothing more is claimed.
#[verifier::external_body]
pub(crate) fn json_text(j: &Json) -> (r: Option<String>)
    ensures
        match r {
            Some(t) => json_written(j@) == Some(t@),
            None => json_written(j@) is None,
        },
{
    let member = |t: &String| serde_json::from_str::<Value>(t).ok();
    let value = match j {
        Json::Null => Value::Null,
        Json::Bool(b) => Value::Bool(*b),
        Json::Number(n) => member(n)?,
        Json::Text(s) => Value::String(s.clone()),
        Json::Array(a) => Value::Array(a.iter().map(member).collect::<Option<_>>()?),
        Json::Object(o) => Value::Object(o.iter().map(|(k, v)| Some((k.clone(), member(v)?))).collect::<Option<_>>()?),
    };
    serde_json::to_string(&value).ok()
}

} // verus!
