//! The boundary to `serde_json`.
//!
//! JSON text is parsed and printed by `serde_json`; the rest of the crate
//! reads and builds documents only through the functions of this module.
//! Nothing here is proved: each contract restates what the `serde_json`
//! source shows of the function that the body calls.

use serde_json::Value;
use vstd::prelude::*;

verus! {

/// `serde_json::Value`, a JSON document. Nothing is known of what one
/// holds but what the functions below say.
#[verifier::external_type_specification]
#[verifier::external_body]
pub struct ExValue(serde_json::Value);

/// `serde_json::Error`, the reason why a text was not read or a document
/// not printed. It is only told apart from success.
#[verifier::external_type_specification]
#[verifier::external_body]
pub struct ExError(serde_json::Error);

/// The document that `serde_json::from_str` reads from a text, where it reads one.
pub uninterp spec fn parsed(text: Seq<char>) -> Option<Value>;

/// The text that `serde_json::to_string_pretty` prints for a document, where it prints one.
pub uninterp spec fn rendered(doc: Value) -> Option<Seq<char>>;

/// The members of a JSON object by name; `None` for a document that is no object.
pub uninterp spec fn members(doc: Value) -> Option<Map<Seq<char>, Value>>;

/// The characters of a JSON string; `None` for a document that is no string.
pub uninterp spec fn text_of(doc: Value) -> Option<Seq<char>>;

/// Whether a document is the JSON `null`.
pub uninterp spec fn is_null(doc: Value) -> bool;

/// No two items of the list carry the same name.
pub open spec fn distinct_names(items: Seq<(String, Value)>) -> bool {
    forall|i: int, j: int|
        0 <= i < j < items.len() ==> (#[trigger] items[i]).0@ != (#[trigger] items[j]).0@
}

/// Some item of the list carries the name.
pub open spec fn names(items: Seq<(String, Value)>, name: Seq<char>) -> bool {
    exists|i: int| 0 <= i < items.len() && (#[trigger] items[i]).0@ == name
}

/// The list holds each member of the object exactly once, and nothing else.
pub open spec fn lists(items: Seq<(String, Value)>, object: Map<Seq<char>, Value>) -> bool {
    &&& distinct_names(items)
    &&& forall|i: int|
        0 <= i < items.len() ==> object.contains_key((#[trigger] items[i]).0@)
            && object[items[i].0@] == items[i].1
    &&& forall|name: Seq<char>| #[trigger] object.contains_key(name) ==> names(items, name)
}

/// Calls `serde_json::from_str` for a `Value`. The result is the named
/// reading of the text: `Ok` exactly where `parsed` gives a document, and
/// then that document.
#[verifier::external_body]
pub(crate) fn parse(text: &str) -> (r: Result<Value, serde_json::Error>)
    ensures
        r is Ok <==> parsed(text@) is Some,
        r matches Ok(doc) ==> parsed(text@) == Some(doc),
{
    serde_json::from_str::<Value>(text)
}

/// Calls `serde_json::to_string_pretty` on a `Value`. The result is the
/// named printing of the document.
#[verifier::external_body]
pub(crate) fn render(doc: &Value) -> (r: Result<String, serde_json::Error>)
    ensures
        r is Ok <==> rendered(*doc) is Some,
        r matches Ok(text) ==> rendered(*doc) == Some(text@),
{
    serde_json::to_string_pretty(doc)
}

/// Calls `Value::as_object` and walks the map with `Map::iter`, cloning
/// each member. An object hands out each of its members once; any other
/// document gives `None`.
#[verifier::external_body]
pub(crate) fn object_members(doc: &Value) -> (r: Option<Vec<(String, Value)>>)
    ensures
        r is Some <==> members(*doc) is Some,
        r matches Some(items) ==> lists(items@, members(*doc)->0),
{
    doc.as_object().map(|object| object.iter().map(|(k, v)| (k.clone(), v.clone())).collect())
}

/// Calls `Value::as_str`. A JSON string hands out its characters; any
/// other document gives `None`.
#[verifier::external_body]
pub(crate) fn string_text(doc: &Value) -> (r: Option<String>)
    ensures
        r is Some <==> text_of(*doc) is Some,
        r matches Some(text) ==> text_of(*doc) == Some(text@),
{
    doc.as_str().map(|text| text.to_owned())
}

/// Calls `Value::is_null`.
#[verifier::external_body]
pub(crate) fn null(doc: &Value) -> (r: bool)
    ensures
        r == is_null(*doc),
{
    doc.is_null()
}

/// Builds `Value::Null`: it is null, no string and no object.
#[verifier::external_body]
pub(crate) fn make_null() -> (r: Value)
    ensures
        is_null(r),
        text_of(r) is None,
        members(r) is None,
{
    Value::Null
}

/// Builds `Value::String` with `Value::from`: a string of the given
/// characters, not null and no object.
#[verifier::external_body]
pub(crate) fn make_string(text: &str) -> (r: Value)
    ensures
        text_of(r) == Some(text@),
        !is_null(r),
        members(r) is None,
{
    Value::from(text)
}

/// Builds `Value::Object` by collecting the items into a `Map`: an object
/// with exactly the listed members, not null and no string.
#[verifier::external_body]
pub(crate) fn make_object(items: Vec<(String, Value)>) -> (r: Value)
    requires
        distinct_names(items@),
    ensures
        members(r) is Some,
        lists(items@, members(r)->0),
        !is_null(r),
        text_of(r) is None,
{
    Value::Object(items.into_iter().collect())
}

/// Calls `Value::clone`: the copy is the same document.
#[verifier::external_body]
pub(crate) fn duplicate(doc: &Value) -> (r: Value)
    ensures
        r == *doc,
{
    doc.clone()
}

} // verus!
