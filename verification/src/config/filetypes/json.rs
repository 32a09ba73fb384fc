//! Reading and writing JSON.

use super::{read_result, reading, write_result, writing, Error};
use vstd::prelude::*;

verus! {

/// A value as the `serde_json` crate holds it.
#[verifier::external_type_specification]
#[verifier::external_body]
pub struct ExJsonValue(::serde_json::Value);

/// Calls `serde_json::to_string_pretty` on `value` and hands back the text, or the
/// message of the error. Nothing is claimed of the result.
#[verifier::external_body]
fn write_text(value: &::serde_json::Value) -> (made: Result<String, String>) {
    ::serde_json::to_string_pretty(value).map_err(|error| error.to_string())
}

/// Calls `serde_json::from_str` for a JSON value on `s` and hands back the
/// value, or the message of the error. Nothing is claimed of the result.
#[verifier::external_body]
fn read_json_value(s: &str) -> (made: Result<::serde_json::Value, String>) {
    ::serde_json::from_str::<::serde_json::Value>(s).map_err(|error| error.to_string())
}

/// Calls `serde_json::from_str` for a TOML value on `s` and hands back the
/// value, or the message of the error. Nothing is claimed of the result.
#[verifier::external_body]
fn read_toml_value(s: &str) -> (made: Result<::toml::Value, String>) {
    ::serde_json::from_str::<::toml::Value>(s).map_err(|error| error.to_string())
}

/// Calls `serde_json::from_str` for a YAML value on `s` and hands back the
/// value, or the message of the error. Nothing is claimed of the result.
#[verifier::external_body]
fn read_yaml_value(s: &str) -> (made: Result<::serde_yaml::Value, String>) {
    ::serde_json::from_str::<::serde_yaml::Value>(s).map_err(|error| error.to_string())
}

/// Writes `value` as JSON. What the writer says against the value is a
/// `Serialization` error.
pub fn serialize(value: &::serde_json::Value) -> (made: Result<String, Error>)
    ensures
        exists|outcome: Result<String, String>| made == #[trigger] write_result(outcome),
        made matches Err(error) ==> error is Serialization,
{
    let outcome = write_text(value);
    let made = writing(outcome);
    assert(made == write_result(outcome));
    made
}

/// Reads the JSON text `s` as a JSON value. What the reader says against
/// the text is a `Deserialization` error.
pub fn deserialize(s: &str) -> (made: Result<::serde_json::Value, Error>)
    ensures
        exists|outcome: Result<::serde_json::Value, String>| made == #[trigger] read_result(outcome),
        made matches Err(error) ==> error is Deserialization,
{
    let outcome = read_json_value(s);
    let made = reading(outcome);
    assert(made == read_result(outcome));
    made
}

/// Reads the JSON text `s` as a JSON value.
pub fn deserialize_json(s: &str) -> (made: Result<::serde_json::Value, Error>)
    ensures
        exists|outcome: Result<::serde_json::Value, String>| made == #[trigger] read_result(outcome),
        made matches Err(error) ==> error is Deserialization,
{
    let outcome = read_json_value(s);
    let made = reading(outcome);
    assert(made == read_result(outcome));
    made
}

/// Reads the JSON text `s` as a TOML value.
pub fn deserialize_toml(s: &str) -> (made: Result<::toml::Value, Error>)
    ensures
        exists|outcome: Result<::toml::Value, String>| made == #[trigger] read_result(outcome),
        made matches Err(error) ==> error is Deserialization,
{
    let outcome = read_toml_value(s);
    let made = reading(outcome);
    assert(made == read_result(outcome));
    made
}

/// Reads the JSON text `s` as a YAML value.
pub fn deserialize_yaml(s: &str) -> (made: Result<::serde_yaml::Value, Error>)
    ensures
        exists|outcome: Result<::serde_yaml::Value, String>| made == #[trigger] read_result(outcome),
        made matches Err(error) ==> error is Deserialization,
{
    let outcome = read_yaml_value(s);
    let made = reading(outcome);
    assert(made == read_result(outcome));
    made
}

} // verus!
