//! JSON values as the protocol sees them.
//!
//! Packets carry `serde_json::Value`s. The library never looks inside such a
//! value directly: every read or construction goes through one of the small
//! trusted wrappers below, whose contracts are stated over [`Json`], the
//! mathematical tree that a value holds (`json_tree`).
use vstd::prelude::*;

verus! {

/// A JSON number, as `serde_json` stores it: a non-negative integer, a
/// negative integer, or a finite non-integer value identified by its
/// IEEE-754 bit pattern.
pub enum JsonNumber {
    PosInt(u64),
    NegInt(i64),
    Float(u64),
}

/// The mathematical content of a JSON value. An object is a map from keys
/// to values (the crate is built without `serde_json/preserve_order`, so an
/// object's key order is that of its keys and not part of its content).
pub enum Json {
    Null,
    Bool(bool),
    Number(JsonNumber),
    Str(Seq<char>),
    Array(Seq<Json>),
    Object(Map<Seq<char>, Json>),
}

#[verifier::external_type_specification]
#[verifier::external_body]
pub struct ExJsonValue(serde_json::Value);

/// What a `serde_json::Value` holds.
pub uninterp spec fn json_tree(v: serde_json::Value) -> Json;

/// What `serde_json::from_str::<Value>` makes of a text: `None` where it
/// reports an error.
pub uninterp spec fn json_parse(text: Seq<char>) -> Option<Json>;

/// The compact text that `serde_json` writes for a value.
pub uninterp spec fn json_text(j: Json) -> Seq<char>;

/// The trees of a sequence of values.
pub open spec fn json_trees(items: Seq<serde_json::Value>) -> Seq<Json> {
    items.map_values(|x: serde_json::Value| json_tree(x))
}

/// Parses `text` with `serde_json::from_str::<Value>`; `None` where serde_json
/// reports an error. The result is named by `json_parse`.
#[verifier::external_body]
pub(crate) fn parse_json(text: &str) -> (r: Option<serde_json::Value>)
    ensures
        match r {
            Some(v) => json_parse(text@) == Some(json_tree(v)),
            None => json_parse(text@) is None,
        },
{
    serde_json::from_str::<serde_json::Value>(text).ok()
}

/// Writes a value as compact JSON text through its `Display` impl, which
/// `serde_json` implements with its serializer and which cannot fail for a
/// `Value`. The text is named by `json_text`; the serializer opens an array
/// with `[` and an object with `{`.
#[verifier::external_body]
pub(crate) fn json_to_string(v: &serde_json::Value) -> (s: String)
    ensures
        s@ == json_text(json_tree(*v)),
        json_tree(*v) is Array ==> s@.len() > 0 && s@[0] == '[',
        json_tree(*v) is Object ==> s@.len() > 0 && s@[0] == '{',
{
    v.to_string()
}

/// Takes the elements out of an array value (`Value::Array`); any other value
/// is handed back unchanged.
#[verifier::external_body]
pub(crate) fn json_into_array(v: serde_json::Value) -> (r: Result<Vec<serde_json::Value>, serde_json::Value>)
    ensures
        match r {
            Ok(items) => json_tree(v) == Json::Array(json_trees(items@)),
            Err(w) => w == v && !(json_tree(v) is Array),
        },
{
    match v {
        serde_json::Value::Array(items) => Ok(items),
        other => Err(other),
    }
}

/// `Value::get` with a string key: the member `key` of an object, `None` when
/// the value is no object or has no such member.
#[verifier::external_body]
pub(crate) fn json_member<'a>(v: &'a serde_json::Value, key: &str) -> (r: Option<&'a serde_json::Value>)
    ensures
        match r {
            Some(m) => json_tree(*v) is Object && json_tree(*v)->Object_0.contains_key(key@)
                && json_tree(*m) == json_tree(*v)->Object_0[key@],
            None => !(json_tree(*v) is Object && json_tree(*v)->Object_0.contains_key(key@)),
        },
{
    v.get(key)
}

/// `Value::as_bool`: the boolean that a `Value::Bool` holds.
#[verifier::external_body]
pub(crate) fn json_as_bool(v: &serde_json::Value) -> (r: Option<bool>)
    ensures
        r == (match json_tree(*v) {
            Json::Bool(b) => Some(b),
            _ => None,
        }),
{
    v.as_bool()
}

/// `Value::is_number`.
#[verifier::external_body]
pub(crate) fn json_is_number(v: &serde_json::Value) -> (r: bool)
    ensures
        r == json_tree(*v) is Number,
{
    v.is_number()
}

/// `Value::as_u64`: the integer that a number holds when it is a
/// non-negative integer (`Number::as_u64` is `None` for the other kinds).
#[verifier::external_body]
pub(crate) fn json_as_u64(v: &serde_json::Value) -> (r: Option<u64>)
    ensures
        r == (match json_tree(*v) {
            Json::Number(JsonNumber::PosInt(n)) => Some(n),
            _ => None,
        }),
{
    v.as_u64()
}

/// `Value::as_str`: the text that a `Value::String` holds.
#[verifier::external_body]
pub(crate) fn json_as_str<'a>(v: &'a serde_json::Value) -> (r: Option<&'a str>)
    ensures
        match r {
            Some(s) => json_tree(*v) == Json::Str(s@),
            None => !(json_tree(*v) is Str),
        },
{
    v.as_str()
}

/// `Value::String`.
#[verifier::external_body]
pub(crate) fn json_from_string(s: String) -> (v: serde_json::Value)
    ensures
        json_tree(v) == Json::Str(s@),
{
    serde_json::Value::String(s)
}

/// `Value::Array`.
#[verifier::external_body]
pub(crate) fn json_from_array(items: Vec<serde_json::Value>) -> (v: serde_json::Value)
    ensures
        json_tree(v) == Json::Array(json_trees(items@)),
{
    serde_json::Value::Array(items)
}

/// `Value::from(u64)`, a `Value::Number` that holds a non-negative integer.
#[verifier::external_body]
pub(crate) fn json_from_u64(n: u64) -> (v: serde_json::Value)
    ensures
        json_tree(v) == Json::Number(JsonNumber::PosInt(n)),
{
    serde_json::Value::from(n)
}

/// An empty object, `Value::Object(Map::new())`.
#[verifier::external_body]
pub(crate) fn json_empty_object() -> (v: serde_json::Value)
    ensures
        json_tree(v) == Json::Object(Map::empty()),
{
    serde_json::Value::Object(serde_json::Map::new())
}

/// `Map::insert` on the map of an object value: the member `key` is set to
/// `member`, replacing any earlier one.
#[verifier::external_body]
pub(crate) fn json_insert(obj: &mut serde_json::Value, key: String, member: serde_json::Value)
    requires
        json_tree(*old(obj)) is Object,
    ensures
        json_tree(*final(obj)) == Json::Object(
            json_tree(*old(obj))->Object_0.insert(key@, json_tree(member)),
        ),
{
    if let Some(m) = obj.as_object_mut() {
        m.insert(key, member);
    }
}

} // verus!
