//! Reading JSON texts, by way of `serde_json`.

use vstd::prelude::*;

verus! {

/// What a JSON text says. A number is given as an unsigned integer where it is
/// one, and as the bit pattern of the nearest double. The members of an object
/// stand in the order in which the object hands them out.
pub enum JsonValue {
    Null,
    Bool(bool),
    Number { unsigned: Option<u64>, double: u64 },
    Text(Seq<char>),
    Items(Seq<JsonValue>),
    Members(Seq<(Seq<char>, JsonValue)>),
}

/// `serde_json::Value`, a tree of which only `json_of` is known.
#[verifier::external_type_specification]
#[verifier::external_body]
pub struct ExValue(serde_json::Value);

/// What a `serde_json::Value` holds.
pub uninterp spec fn json_of(value: serde_json::Value) -> JsonValue;

/// What `serde_json::from_str` makes of a text: its value, or the text of the
/// error.
pub uninterp spec fn json_parsed(text: Seq<char>) -> Result<JsonValue, Seq<char>>;

/// What `serde_json::from_slice` makes of bytes: their value, or the text of
/// the error.
pub uninterp spec fn json_parsed_bytes(bytes: Seq<u8>) -> Result<JsonValue, Seq<char>>;

/// The value that members give to a key.
pub open spec fn member_value(members: Seq<(Seq<char>, JsonValue)>, key: Seq<char>) -> Option<
    JsonValue,
>
    decreases members.len(),
{
    if members.len() == 0 {
        None
    } else if members.last().0 == key {
        Some(members.last().1)
    } else {
        member_value(members.drop_last(), key)
    }
}

/// The member of an object.
pub open spec fn json_member(value: JsonValue, key: Seq<char>) -> Option<JsonValue> {
    match value {
        JsonValue::Members(members) => member_value(members, key),
        _ => None,
    }
}

pub open spec fn json_unsigned(value: JsonValue) -> Option<u64> {
    match value {
        JsonValue::Number { unsigned, .. } => unsigned,
        _ => None,
    }
}

pub open spec fn json_double(value: JsonValue) -> Option<u64> {
    match value {
        JsonValue::Number { double, .. } => Some(double),
        _ => None,
    }
}

pub open spec fn json_bool(value: JsonValue) -> Option<bool> {
    match value {
        JsonValue::Bool(flag) => Some(flag),
        _ => None,
    }
}

/// `serde_json::from_str` into a `serde_json::Value`: the outcome depends on
/// the text alone.
#[verifier::external_body]
pub(crate) fn parse_json(text: &str) -> (result: Result<serde_json::Value, String>)
    ensures
        match result {
            Ok(value) => json_parsed(text@) == Ok::<JsonValue, Seq<char>>(json_of(value)),
            Err(error) => json_parsed(text@) == Err::<JsonValue, Seq<char>>(error@),
        },
{
    serde_json::from_str(text).map_err(|error| error.to_string())
}

/// `serde_json::from_slice` into a `serde_json::Value`: the outcome depends on
/// the bytes alone.
#[verifier::external_body]
pub(crate) fn parse_json_bytes(bytes: &[u8]) -> (result: Result<serde_json::Value, String>)
    ensures
        match result {
            Ok(value) => json_parsed_bytes(bytes@) == Ok::<JsonValue, Seq<char>>(json_of(value)),
            Err(error) => json_parsed_bytes(bytes@) == Err::<JsonValue, Seq<char>>(error@),
        },
{
    serde_json::from_slice(bytes).map_err(|error| error.to_string())
}

/// What the members of an object hold.
pub open spec fn members_of(members: Seq<(String, serde_json::Value)>) -> Seq<
    (Seq<char>, JsonValue),
> {
    Seq::new(members.len(), |i: int| (members[i].0@, json_of(members[i].1)))
}

/// `serde_json::Value::as_object` and the copies of its members: nothing where
/// the value is not an object.
#[verifier::external_body]
pub(crate) fn object_members(value: &serde_json::Value) -> (members: Option<
    Vec<(String, serde_json::Value)>,
>)
    ensures
        match members {
            Some(members) => json_of(*value) == JsonValue::Members(members_of(members@)),
            None => !(json_of(*value) is Members),
        },
{
    value.as_object().map(
        |object| object.iter().map(|(name, inner)| (name.clone(), inner.clone())).collect(),
    )
}

/// `serde_json::Value::get` with a string: the member of that name where the
/// value is an object that has one.
#[verifier::external_body]
pub(crate) fn member<'a>(value: &'a serde_json::Value, key: &str) -> (found: Option<
    &'a serde_json::Value,
>)
    ensures
        match found {
            Some(inner) => json_member(json_of(*value), key@) == Some(json_of(*inner)),
            None => json_member(json_of(*value), key@) is None,
        },
{
    value.get(key)
}

/// `serde_json::Value::as_u64`: the value where it is an unsigned integer.
pub assume_specification[ serde_json::Value::as_u64 ](value: &serde_json::Value) -> (number: Option<
    u64,
>)
    ensures
        number == json_unsigned(json_of(*value)),
;

/// `serde_json::Value::as_bool`: the value where it is a truth value.
pub assume_specification[ serde_json::Value::as_bool ](value: &serde_json::Value) -> (flag: Option<
    bool,
>)
    ensures
        flag == json_bool(json_of(*value)),
;

/// What the items of an array hold.
pub open spec fn items_of(items: Seq<serde_json::Value>) -> Seq<JsonValue> {
    Seq::new(items.len(), |i: int| json_of(items[i]))
}

/// `serde_json::Value::as_array`: the items where the value is an array.
pub assume_specification[ serde_json::Value::as_array ](value: &serde_json::Value) -> (items: Option<
    &Vec<serde_json::Value>,
>)
    ensures
        match items {
            Some(items) => json_of(*value) == JsonValue::Items(items_of(items@)),
            None => !(json_of(*value) is Items),
        },
;

/// `serde_json::Value::as_str`: the text where the value is one.
pub assume_specification[ serde_json::Value::as_str ](value: &serde_json::Value) -> (text: Option<
    &str,
>)
    ensures
        match text {
            Some(text) => json_of(*value) == JsonValue::Text(text@),
            None => !(json_of(*value) is Text),
        },
;

/// `serde_json::Value::is_null`: whether the value is null.
pub assume_specification[ serde_json::Value::is_null ](value: &serde_json::Value) -> (yes: bool)
    ensures
        yes == (json_of(*value) is Null),
;

/// `serde_json::Value::is_object`: whether the value is an object.
pub assume_specification[ serde_json::Value::is_object ](value: &serde_json::Value) -> (yes: bool)
    ensures
        yes == (json_of(*value) is Members),
;

/// `serde_json::Value::as_f64`: the value where it is a number, as the bit
/// pattern of a double.
#[verifier::external_body]
pub(crate) fn double_bits(value: &serde_json::Value) -> (bits: Option<u64>)
    ensures
        bits == json_double(json_of(*value)),
{
    value.as_f64().map(|number| number.to_bits())
}

} // verus!
