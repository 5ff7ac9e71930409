//! JSON values, as `serde_json` holds, writes and reads them.
//!
//! A `serde_json::Value` is opaque to the verifier. What it holds is named
//! by [`json_of`], a tree of plain data, and each function below states over
//! that tree what one call into `serde_json` does. None of these statements
//! is proved: they are read off the source of `serde_json`, built with
//! numbers kept as written and object members kept in insertion order.

use vstd::prelude::*;

use crate::decimal::is_decimal_literal;

verus! {

/// A JSON value as plain data. A number is the text that writes it; an
/// object is its members in order, each a key and a value.
pub enum Json {
    Null,
    Bool(bool),
    Number(Seq<char>),
    Text(Seq<char>),
    Array(Seq<Json>),
    Object(Seq<(Seq<char>, Json)>),
}

/// The value of the first member of `members` whose key is `key`.
pub open spec fn member(members: Seq<(Seq<char>, Json)>, key: Seq<char>) -> Option<Json>
    decreases members.len(),
{
    if members.len() == 0 {
        None
    } else if members[0].0 == key {
        Some(members[0].1)
    } else {
        member(members.drop_first(), key)
    }
}

/// Adding a member at the end changes no earlier answer: a key is found
/// where it was found before, and the new member answers only for a key
/// that had no member yet.
pub proof fn lemma_member_push(
    members: Seq<(Seq<char>, Json)>,
    key: Seq<char>,
    value: Json,
    sought: Seq<char>,
)
    ensures
        member(members.push((key, value)), sought) == match member(members, sought) {
            Some(found) => Some(found),
            None => if key == sought {
                Some(value)
            } else {
                None
            },
        },
    decreases members.len(),
{
    let pushed = members.push((key, value));
    if members.len() == 0 {
        assert(pushed[0] == (key, value));
        assert(pushed.drop_first() =~= Seq::<(Seq<char>, Json)>::empty());
        assert(member(pushed.drop_first(), sought) is None);
    } else {
        assert(pushed[0] == members[0]);
        assert(pushed.drop_first() =~= members.drop_first().push((key, value)));
        lemma_member_push(members.drop_first(), key, value, sought);
    }
}

/// `serde_json::Value`, a JSON value. Nothing of its inside is known here
/// but through [`json_of`].
#[verifier::external_type_specification]
#[verifier::external_body]
pub struct ExValue(serde_json::Value);

/// `serde_json::Map`, the members of a JSON object. Nothing of its inside
/// is known here but through [`members_of`].
#[verifier::external_type_specification]
#[verifier::external_body]
#[verifier::reject_recursive_types(K)]
#[verifier::reject_recursive_types(V)]
pub struct ExMap<K, V>(serde_json::Map<K, V>);

/// `serde_json::Error`, why a text could not be read or a value not
/// written. It is only ever told apart from success.
#[verifier::external_type_specification]
#[verifier::external_body]
pub struct ExError(serde_json::Error);

/// What a `serde_json::Value` holds.
pub uninterp spec fn json_of(value: serde_json::Value) -> Json;

/// The members that a `serde_json::Map` holds, in its order of iteration.
pub uninterp spec fn members_of(object: serde_json::Map<String, serde_json::Value>) -> Seq<
    (Seq<char>, Json),
>;

/// The text that `serde_json::to_string` writes for a value, if it writes one.
pub uninterp spec fn compact_text(json: Json) -> Option<Seq<char>>;

/// The text that `serde_json::to_string_pretty` writes for a value, if it
/// writes one.
pub uninterp spec fn pretty_text(json: Json) -> Option<Seq<char>>;

/// The value that `serde_json::from_str` reads from a text, if it reads one.
pub uninterp spec fn parsed_text(text: Seq<char>) -> Option<Json>;

/// What each of the values `items` holds.
pub open spec fn jsons_of(items: Seq<serde_json::Value>) -> Seq<Json> {
    items.map_values(|v: serde_json::Value| json_of(v))
}

/// `Value::String`: the JSON string with the characters of `text`.
#[verifier::external_body]
pub(crate) fn text_value(text: &str) -> (value: serde_json::Value)
    ensures
        json_of(value) == Json::Text(text@),
{
    serde_json::Value::String(text.to_owned())
}

/// `Number::from_str` and `Value::Number`: a text made of an optional minus
/// sign, a whole part without a needless leading zero, a point and
/// fractional digits is accepted, and the number keeps that text.
#[verifier::external_body]
pub(crate) fn number_value(text: &str) -> (value: Result<serde_json::Value, serde_json::Error>)
    ensures
        is_decimal_literal(text@) ==> value is Ok && json_of(value->Ok_0) == Json::Number(text@),
{
    text.parse::<serde_json::Number>().map(serde_json::Value::Number)
}

/// `Value::Array`: the JSON array of `items`, in their order.
#[verifier::external_body]
pub(crate) fn array_value(items: Vec<serde_json::Value>) -> (value: serde_json::Value)
    ensures
        json_of(value) == Json::Array(jsons_of(items@)),
{
    serde_json::Value::Array(items)
}

/// `Map::new`: an object without members.
#[verifier::external_body]
pub(crate) fn new_object() -> (object: serde_json::Map<String, serde_json::Value>)
    ensures
        members_of(object) == Seq::<(Seq<char>, Json)>::empty(),
{
    serde_json::Map::new()
}

/// `Map::insert`: a member whose key the object does not have yet is added
/// after the members that are there.
#[verifier::external_body]
pub(crate) fn object_insert(
    object: &mut serde_json::Map<String, serde_json::Value>,
    key: &str,
    value: serde_json::Value,
)
    requires
        member(members_of(*old(object)), key@) is None,
    ensures
        members_of(*final(object)) == members_of(*old(object)).push((key@, json_of(value))),
{
    object.insert(key.to_owned(), value);
}

/// `Value::Object`: the JSON object with the members of `object`.
#[verifier::external_body]
pub(crate) fn object_value(object: serde_json::Map<String, serde_json::Value>) -> (value:
    serde_json::Value)
    ensures
        json_of(value) == Json::Object(members_of(object)),
{
    serde_json::Value::Object(object)
}

/// `Value::is_null`: whether the value is JSON's `null`.
#[verifier::external_body]
pub(crate) fn is_null(value: &serde_json::Value) -> (null: bool)
    ensures
        null == (json_of(*value) is Null),
{
    value.is_null()
}

/// `Value::as_str`: the characters of a JSON string, and nothing for any
/// other value.
#[verifier::external_body]
pub(crate) fn as_text(value: &serde_json::Value) -> (text: Option<&str>)
    ensures
        match text {
            Some(t) => json_of(*value) == Json::Text(t@),
            None => !(json_of(*value) is Text),
        },
{
    value.as_str()
}

/// `Value::as_number` and `Number::as_str`: the text of a JSON number, and
/// nothing for any other value.
#[verifier::external_body]
pub(crate) fn as_number_text(value: &serde_json::Value) -> (text: Option<&str>)
    ensures
        match text {
            Some(t) => json_of(*value) == Json::Number(t@),
            None => !(json_of(*value) is Number),
        },
{
    value.as_number().map(|n| n.as_str())
}

/// `Value::as_array`: the items of a JSON array, and nothing for any other
/// value.
#[verifier::external_body]
pub(crate) fn as_array(value: &serde_json::Value) -> (items: Option<&Vec<serde_json::Value>>)
    ensures
        match items {
            Some(v) => json_of(*value) == Json::Array(jsons_of(v@)),
            None => !(json_of(*value) is Array),
        },
{
    value.as_array()
}

/// `Value::as_object`: the members of a JSON object, and nothing for any
/// other value.
#[verifier::external_body]
pub(crate) fn as_object(value: &serde_json::Value) -> (object: Option<
    &serde_json::Map<String, serde_json::Value>,
>)
    ensures
        match object {
            Some(m) => json_of(*value) == Json::Object(members_of(*m)),
            None => !(json_of(*value) is Object),
        },
{
    value.as_object()
}

/// `Map::get`: the value of the member with the given key, if the object
/// has one. No two members of a `Map` share a key.
#[verifier::external_body]
pub(crate) fn object_get<'a>(
    object: &'a serde_json::Map<String, serde_json::Value>,
    key: &str,
) -> (value: Option<&'a serde_json::Value>)
    ensures
        match value {
            Some(v) => member(members_of(*object), key@) == Some(json_of(*v)),
            None => member(members_of(*object), key@) is None,
        },
{
    object.get(key)
}

/// `serde_json::to_string`: the value as JSON text without insignificant
/// white space.
#[verifier::external_body]
pub(crate) fn write_compact(value: &serde_json::Value) -> (text: Result<String, serde_json::Error>)
    ensures
        match text {
            Ok(t) => compact_text(json_of(*value)) == Some(t@),
            Err(_) => compact_text(json_of(*value)) is None,
        },
{
    serde_json::to_string(value)
}

/// `serde_json::to_string_pretty`: the value as indented JSON text.
#[verifier::external_body]
pub(crate) fn write_pretty(value: &serde_json::Value) -> (text: Result<String, serde_json::Error>)
    ensures
        match text {
            Ok(t) => pretty_text(json_of(*value)) == Some(t@),
            Err(_) => pretty_text(json_of(*value)) is None,
        },
{
    serde_json::to_string_pretty(value)
}

/// `serde_json::from_str`: the value that a JSON text writes, or an error
/// for a text that is not JSON.
#[verifier::external_body]
pub(crate) fn read_text(text: &str) -> (value: Result<serde_json::Value, serde_json::Error>)
    ensures
        match value {
            Ok(v) => parsed_text(text@) == Some(json_of(v)),
            Err(_) => parsed_text(text@) is None,
        },
{
    serde_json::from_str::<serde_json::Value>(text)
}

} // verus!
