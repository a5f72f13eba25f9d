//! JSON values as plain data: what the MCP tool calls and the runtime
//! overlay payloads read.
use vstd::prelude::*;
use crate::text::str_eq;

verus! {

/// A JSON number as `serde_json` holds it.
pub enum JsonNumber {
    /// A non-negative integer.
    PosInt(u64),
    /// A negative integer.
    NegInt(i64),
    /// Any other number, by the text `serde_json` writes for it.
    Float(String),
}

/// A JSON value.
pub enum JsonValue {
    Null,
    Bool(bool),
    Number(JsonNumber),
    String(String),
    /// The items, and the compact text `serde_json` writes for the array.
    Array(Vec<JsonValue>, String),
    /// The members in map order, each key once, and the compact text
    /// `serde_json` writes for the object.
    Object(Vec<(String, JsonValue)>, String),
}

/// The key of an object member.
pub open spec fn member_key(m: (String, JsonValue)) -> Seq<char> {
    m.0@
}

/// The first member of `ms` under `key`.
pub open spec fn member_get(ms: Seq<(String, JsonValue)>, key: Seq<char>) -> Option<JsonValue>
    decreases ms.len(),
{
    if ms.len() == 0 {
        None
    } else if member_key(ms[0]) == key {
        Some(ms[0].1)
    } else {
        member_get(ms.drop_first(), key)
    }
}

/// `Value::get(key)`: the member under `key` of an object, nothing for
/// other values.
pub open spec fn json_get(v: JsonValue, key: Seq<char>) -> Option<JsonValue> {
    match v {
        JsonValue::Object(ms, _) => member_get(ms@, key),
        _ => None,
    }
}

/// `Value::as_str`.
pub open spec fn json_str(v: JsonValue) -> Option<Seq<char>> {
    match v {
        JsonValue::String(s) => Some(s@),
        _ => None,
    }
}

/// `Value::as_array`.
pub open spec fn json_array(v: JsonValue) -> Option<Seq<JsonValue>> {
    match v {
        JsonValue::Array(items, _) => Some(items@),
        _ => None,
    }
}

/// `Value::as_u64`: a non-negative integer.
pub open spec fn json_u64(v: JsonValue) -> Option<u64> {
    match v {
        JsonValue::Number(JsonNumber::PosInt(n)) => Some(n),
        _ => None,
    }
}

/// `Option::and_then(Value::as_str)`.
pub open spec fn opt_str(v: Option<JsonValue>) -> Option<Seq<char>> {
    match v {
        Some(x) => json_str(x),
        None => None,
    }
}

/// `Option::and_then(Value::as_array)`.
pub open spec fn opt_array(v: Option<JsonValue>) -> Option<Seq<JsonValue>> {
    match v {
        Some(x) => json_array(x),
        None => None,
    }
}

/// `Option::and_then(Value::as_u64)`.
pub open spec fn opt_u64(v: Option<JsonValue>) -> Option<u64> {
    match v {
        Some(x) => json_u64(x),
        None => None,
    }
}

/// The member of `v` under `key`.
pub fn get<'a>(v: &'a JsonValue, key: &str) -> (r: Option<&'a JsonValue>)
    ensures
        match r {
            Some(x) => json_get(*v, key@) == Some(*x),
            None => json_get(*v, key@) is None,
        },
{
    match v {
        JsonValue::Object(ms, _) => {
            let mut i: usize = 0;
            assert(ms@.skip(0) =~= ms@);
            while i < ms.len()
                invariant
                    i <= ms.len(),
                    json_get(*v, key@) == member_get(ms@, key@),
                    member_get(ms@, key@) == member_get(ms@.skip(i as int), key@),
                decreases ms.len() - i,
            {
                assert(ms@.skip(i as int)[0] == ms@[i as int]);
                if str_eq(ms[i].0.as_str(), key) {
                    return Some(&ms[i].1);
                }
                assert(ms@.skip(i as int).drop_first() =~= ms@.skip(i + 1));
                i += 1;
            }
            None
        },
        _ => None,
    }
}

/// The text of a string value.
pub fn as_str(v: &JsonValue) -> (r: Option<&str>)
    ensures
        match r {
            Some(s) => json_str(*v) == Some(s@),
            None => json_str(*v) is None,
        },
{
    match v {
        JsonValue::String(s) => Some(s.as_str()),
        _ => None,
    }
}

/// The items of an array value.
pub fn as_array(v: &JsonValue) -> (r: Option<&Vec<JsonValue>>)
    ensures
        match r {
            Some(items) => json_array(*v) == Some(items@),
            None => json_array(*v) is None,
        },
{
    match v {
        JsonValue::Array(items, _) => Some(items),
        _ => None,
    }
}

/// A non-negative integer value.
pub fn as_u64(v: &JsonValue) -> (r: Option<u64>)
    ensures
        r == json_u64(*v),
{
    match v {
        JsonValue::Number(JsonNumber::PosInt(n)) => Some(*n),
        _ => None,
    }
}

} // verus!
