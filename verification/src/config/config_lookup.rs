use vstd::prelude::*;
use crate::config::compass_configuration_error::CompassConfigurationError;
use crate::config::compass_configuration_field::{field_key, CompassConfigurationField};
use crate::config::json_value::{json_as_array, json_as_i64, json_as_str, json_clone, json_elements, json_get, json_int, json_member, json_string};

verus! {

/// Whether `e` reports that the field `key` that the component `parent_key` needs is missing.
pub open spec fn is_missing_field(e: CompassConfigurationError, key: Seq<char>, parent_key: Seq<char>) -> bool {
    e matches CompassConfigurationError::ExpectedFieldForComponent(k, p) && k@ == key && p@ == parent_key
}

/// Whether `e` reports that the field `key` does not hold a value of type `expected_type`.
pub open spec fn is_wrong_type(e: CompassConfigurationError, key: Seq<char>, expected_type: Seq<char>) -> bool {
    e matches CompassConfigurationError::ExpectedFieldWithType(k, t) && k@ == key && t@ == expected_type
}

/// The value of a field that a component needs, given what the field holds: `None`
/// when the field is missing, `Some(None)` when it does not hold a value of `expected_type`.
pub fn required_field<T>(field: Option<Option<T>>, key: &str, parent_key: &str, expected_type: &str) -> (r: Result<T, CompassConfigurationError>)
    ensures
        match field {
            None => r matches Err(e) && is_missing_field(e, key@, parent_key@),
            Some(None) => r matches Err(e) && is_wrong_type(e, key@, expected_type@),
            Some(Some(v)) => r == Ok::<T, CompassConfigurationError>(v),
        },
{
    match field {
        None => Err(CompassConfigurationError::ExpectedFieldForComponent(key.to_owned(), parent_key.to_owned())),
        Some(None) => Err(CompassConfigurationError::ExpectedFieldWithType(key.to_owned(), expected_type.to_owned())),
        Some(Some(v)) => Ok(v),
    }
}

/// The value of an optional field, given what the field holds: `None` when the field is
/// absent (no value), `Some(None)` when it does not hold a value of `expected_type` (an error).
pub fn optional_field<T>(field: Option<Option<T>>, key: &str, expected_type: &str) -> (r: Result<Option<T>, CompassConfigurationError>)
    ensures
        match field {
            None => r == Ok::<Option<T>, CompassConfigurationError>(None),
            Some(None) => r matches Err(e) && is_wrong_type(e, key@, expected_type@),
            Some(Some(v)) => r == Ok::<Option<T>, CompassConfigurationError>(Some(v)),
        },
{
    match field {
        None => Ok(None),
        Some(None) => Err(CompassConfigurationError::ExpectedFieldWithType(key.to_owned(), expected_type.to_owned())),
        Some(Some(v)) => Ok(Some(v)),
    }
}

/// The section `section` of a configuration, copied; an error naming the section and
/// `parent_key` when the configuration has no such section.
pub fn get_config_section(config: &serde_json::Value, section: CompassConfigurationField, parent_key: &str) -> (r: Result<serde_json::Value, CompassConfigurationError>)
    ensures
        match json_member(*config, field_key(section)) {
            None => r matches Err(e) && is_missing_field(e, field_key(section), parent_key@),
            Some(v) => r == Ok::<serde_json::Value, CompassConfigurationError>(v),
        },
{
    let section_key = section.to_str();
    match json_get(config, section_key) {
        None => Err(CompassConfigurationError::ExpectedFieldForComponent(section_key.to_owned(), parent_key.to_owned())),
        Some(v) => Ok(json_clone(v)),
    }
}

/// The string at `key` of a configuration: an error naming `key` and `parent_key` when
/// the key is missing, and one naming `key` and the type "String" when its value is not
/// a string.
pub fn get_config_string(config: &serde_json::Value, key: &str, parent_key: &str) -> (r: Result<String, CompassConfigurationError>)
    ensures
        match json_member(*config, key@) {
            None => r matches Err(e) && is_missing_field(e, key@, parent_key@),
            Some(v) => match json_string(v) {
                None => r matches Err(e) && is_wrong_type(e, key@, "String"@),
                Some(x) => r matches Ok(t) && t@ == x,
            },
        },
{
    let field: Option<Option<String>> = match json_get(config, key) {
        None => None,
        Some(v) => Some(json_as_str(v)),
    };
    required_field(field, key, parent_key, "String")
}

/// The string at `key` of a configuration, `None` when the key is absent; an error
/// naming `key` and the type "String" when its value is not a string.
pub fn get_config_string_optional(config: &serde_json::Value, key: &str) -> (r: Result<Option<String>, CompassConfigurationError>)
    ensures
        match json_member(*config, key@) {
            None => r == Ok::<Option<String>, CompassConfigurationError>(None),
            Some(v) => match json_string(v) {
                None => r matches Err(e) && is_wrong_type(e, key@, "String"@),
                Some(x) => r matches Ok(Some(t)) && t@ == x,
            },
        },
{
    let field: Option<Option<String>> = match json_get(config, key) {
        None => None,
        Some(v) => Some(json_as_str(v)),
    };
    optional_field(field, key, "String")
}

/// The elements of the array at `key` of a configuration: an error naming `key` and
/// `parent_key` when the key is missing, and one naming `key` and the type "Array" when
/// its value is not an array.
pub fn get_config_array(config: &serde_json::Value, key: &str, parent_key: &str) -> (r: Result<Vec<serde_json::Value>, CompassConfigurationError>)
    ensures
        match json_member(*config, key@) {
            None => r matches Err(e) && is_missing_field(e, key@, parent_key@),
            Some(v) => match json_elements(v) {
                None => r matches Err(e) && is_wrong_type(e, key@, "Array"@),
                Some(x) => r matches Ok(a) && a@ == x,
            },
        },
{
    let field: Option<Option<Vec<serde_json::Value>>> = match json_get(config, key) {
        None => None,
        Some(v) => Some(json_as_array(v)),
    };
    required_field(field, key, parent_key, "Array")
}

/// The signed integer at `key` of a configuration: an error naming `key` and
/// `parent_key` when the key is missing, and one naming `key` and the type
/// "64-bit signed integer" when its value is not such an integer.
pub fn get_config_i64(config: &serde_json::Value, key: &str, parent_key: &str) -> (r: Result<i64, CompassConfigurationError>)
    ensures
        match json_member(*config, key@) {
            None => r matches Err(e) && is_missing_field(e, key@, parent_key@),
            Some(v) => match json_int(v) {
                None => r matches Err(e) && is_wrong_type(e, key@, "64-bit signed integer"@),
                Some(x) => r == Ok::<i64, CompassConfigurationError>(x),
            },
        },
{
    let field: Option<Option<i64>> = match json_get(config, key) {
        None => None,
        Some(v) => Some(json_as_i64(v)),
    };
    required_field(field, key, parent_key, "64-bit signed integer")
}

} // verus!
