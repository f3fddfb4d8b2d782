//! JSON documents, held as `serde_json` values.

use vstd::prelude::*;
use serde_json::Value;

verus! {

/// What a JSON document says.
pub enum Json {
    Null,
    Bool(bool),
    /// A non-negative integer.
    Unsigned(u64),
    /// A negative integer.
    Negative(i64),
    /// Any other number, by the bits of its double.
    Double(u64),
    Text(Seq<char>),
    Array(Seq<Json>),
    Object(Map<Seq<char>, Json>),
}

#[verifier::external_type_specification]
#[verifier::external_body]
pub struct ExValue(serde_json::Value);

#[verifier::external_type_specification]
#[verifier::external_body]
pub struct ExError(serde_json::Error);

/// What a `serde_json::Value` holds: an object its members by key, an array
/// its items in order, and everything else a single value.
pub uninterp spec fn json_of(value: Value) -> Json;

/// The compact JSON text of a document, as the `Display` of
/// `serde_json::Value` writes it.
pub uninterp spec fn json_text(document: Json) -> Seq<char>;

/// The document that `serde_json::from_slice` reads from `bytes`, if it accepts them.
pub uninterp spec fn json_parse(bytes: Seq<u8>) -> Option<Json>;

/// The member of an object under `key`; nothing else has members.
pub open spec fn member(document: Json, key: Seq<char>) -> Option<Json> {
    match document {
        Json::Object(members) if members.contains_key(key) => Some(members[key]),
        _ => None,
    }
}

/// Reads a JSON document with `serde_json::from_slice`. The contract claims
/// that success and the document read are functions of the bytes.
#[verifier::external_body]
pub(crate) fn parse(bytes: &[u8]) -> (res: Result<Value, serde_json::Error>)
    ensures
        match res {
            Ok(value) => json_parse(bytes@) == Some(json_of(value)),
            Err(_) => json_parse(bytes@) is None,
        },
{
    serde_json::from_slice(bytes)
}

/// Looks a member up with `serde_json::Value::get`, which finds nothing under
/// a key that is absent, nor in a value that is no object.
#[verifier::external_body]
pub(crate) fn get<'a>(value: &'a Value, key: &str) -> (res: Option<&'a Value>)
    ensures
        match res {
            Some(found) => member(json_of(*value), key@) == Some(json_of(*found)),
            None => member(json_of(*value), key@) is None,
        },
{
    value.get(key)
}

/// The contents of a JSON string, by `serde_json::Value::as_str`; any other
/// value has none.
#[verifier::external_body]
pub(crate) fn as_str(value: &Value) -> (res: Option<&str>)
    ensures
        match res {
            Some(text) => json_of(*value) == Json::Text(text@),
            None => !(json_of(*value) is Text),
        },
{
    value.as_str()
}

/// Writes a document compactly, by the `Display` of `serde_json::Value`. The
/// contract claims that the text is a function of the document, which holds
/// because an object keeps its members sorted by key.
#[verifier::external_body]
pub(crate) fn to_text(value: &Value) -> (text: String)
    ensures
        text@ == json_text(json_of(*value)),
{
    value.to_string()
}

/// A JSON string, by `From<&str>` for `serde_json::Value`.
#[verifier::external_body]
pub(crate) fn text(contents: &str) -> (value: Value)
    ensures
        json_of(value) == Json::Text(contents@),
{
    Value::from(contents)
}

/// A JSON number, by `From<u64>` for `serde_json::Value`.
#[verifier::external_body]
pub(crate) fn unsigned(number: u64) -> (value: Value)
    ensures
        json_of(value) == Json::Unsigned(number),
{
    Value::from(number)
}

/// A JSON array of `items`, by `From<Vec<Value>>` for `serde_json::Value`.
#[verifier::external_body]
pub(crate) fn array(items: Vec<Value>) -> (value: Value)
    ensures
        json_of(value) == Json::Array(items@.map_values(|item: Value| json_of(item))),
{
    Value::from(items)
}

/// A JSON object without members, by `serde_json::Map::new`.
#[verifier::external_body]
pub(crate) fn object() -> (value: Value)
    ensures
        json_of(value) == Json::Object(Map::empty()),
{
    Value::Object(serde_json::Map::new())
}

/// Puts `item` under `key` by the indexing operator of `serde_json::Value`,
/// which replaces a member that is there and adds one that is not.
#[verifier::external_body]
pub(crate) fn put(value: &mut Value, key: &str, item: Value)
    requires
        json_of(*old(value)) is Object,
    ensures
        json_of(*final(value)) == Json::Object(
            json_of(*old(value))->Object_0.insert(key@, json_of(item)),
        ),
{
    value[key] = item;
}

/// An object has the members that it holds; nothing else has any.
pub proof fn law_members_of_objects(document: Json, key: Seq<char>, item: Json)
    ensures
        member(document, key) == Some(item) <==> (document matches Json::Object(members)
            && members.contains_key(key) && members[key] == item),
{
}

} // verus!
