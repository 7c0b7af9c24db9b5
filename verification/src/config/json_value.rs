use vstd::prelude::*;

verus! {

#[verifier::external_type_specification]
#[verifier::external_body]
pub struct ExJsonValue(serde_json::Value);

/// The member `key` of a JSON value, as `serde_json::Value::get` finds it: present when
/// the value is an object holding `key`.
pub uninterp spec fn json_member(value: serde_json::Value, key: Seq<char>) -> Option<serde_json::Value>;

/// The characters of a JSON value that is a string, as `serde_json::Value::as_str` reads them.
pub uninterp spec fn json_string(value: serde_json::Value) -> Option<Seq<char>>;

/// A JSON value read as an unsigned integer by `serde_json::Value::as_u64`: present when
/// the value is an integer that fits a `u64`.
pub uninterp spec fn json_uint(value: serde_json::Value) -> Option<u64>;

/// A JSON value read as a signed integer by `serde_json::Value::as_i64`: present when
/// the value is an integer that fits an `i64`.
pub uninterp spec fn json_int(value: serde_json::Value) -> Option<i64>;

/// The elements of a JSON value that is an array, as `serde_json::Value::as_array` gives them.
pub uninterp spec fn json_elements(value: serde_json::Value) -> Option<Seq<serde_json::Value>>;

/// Looks up the member `key` of a JSON value with `serde_json::Value::get`: the
/// member's value when the value is an object holding `key`, else `None`. The lookup
/// depends on the value and the key alone, so its result is named `json_member`.
#[verifier::external_body]
pub(crate) fn json_get<'a>(value: &'a serde_json::Value, key: &str) -> (r: Option<&'a serde_json::Value>)
    ensures
        match r {
            Some(v) => json_member(*value, key@) == Some(*v),
            None => json_member(*value, key@) is None,
        },
{
    value.get(key)
}

/// Reads a JSON value as an unsigned integer with `serde_json::Value::as_u64`: the
/// integer when the value is an integer that fits a `u64`, else `None`; its result is
/// named `json_uint`.
#[verifier::external_body]
pub(crate) fn json_as_u64(value: &serde_json::Value) -> (r: Option<u64>)
    ensures
        r == json_uint(*value),
{
    value.as_u64()
}

/// Reads a JSON value as a string with `serde_json::Value::as_str`: a copy of the string
/// when the value is a string, else `None`; its result is named `json_string`.
#[verifier::external_body]
pub(crate) fn json_as_str(value: &serde_json::Value) -> (r: Option<String>)
    ensures
        match r {
            Some(s) => json_string(*value) == Some(s@),
            None => json_string(*value) is None,
        },
{
    value.as_str().map(String::from)
}

/// Reads a JSON value as a signed integer with `serde_json::Value::as_i64`: the integer
/// when the value is an integer that fits an `i64`, else `None`; its result is named
/// `json_int`.
#[verifier::external_body]
pub(crate) fn json_as_i64(value: &serde_json::Value) -> (r: Option<i64>)
    ensures
        r == json_int(*value),
{
    value.as_i64()
}

/// Reads a JSON value as an array with `serde_json::Value::as_array`: a copy of its
/// elements when the value is an array, else `None`; its result is named `json_elements`.
/// `Value`'s `Clone` is derived, so each copied element equals the original.
#[verifier::external_body]
pub(crate) fn json_as_array(value: &serde_json::Value) -> (r: Option<Vec<serde_json::Value>>)
    ensures
        match r {
            Some(v) => json_elements(*value) == Some(v@),
            None => json_elements(*value) is None,
        },
{
    value.as_array().cloned()
}

/// A copy of a JSON value, made with `serde_json::Value::clone`; `Value`'s `Clone` is
/// derived, so the copy equals the original.
#[verifier::external_body]
pub(crate) fn json_clone(value: &serde_json::Value) -> (r: serde_json::Value)
    ensures
        r == *value,
{
    value.clone()
}

} // verus!
