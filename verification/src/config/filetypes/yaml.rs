//! Reading and writing YAML.

use super::{read_result, reading, Error};
use crate::text::{trim_end, trim_end_of};
use vstd::prelude::*;

verus! {

/// A value as the `serde_yaml` crate holds it.
#[verifier::external_type_specification]
#[verifier::external_body]
pub struct ExYamlValue(::serde_yaml::Value);

/// Calls `serde_yaml::to_string` on `value` and hands back the text, or the
/// message of the error. Nothing is claimed of the result.
#[verifier::external_body]
fn write_text(value: &::serde_yaml::Value) -> (made: Result<String, String>) {
    ::serde_yaml::to_string(value).map_err(|error| error.to_string())
}

/// Calls `serde_yaml::from_str` for a JSON value on `s` and hands back the
/// value, or the message of the error. Nothing is claimed of the result.
#[verifier::external_body]
fn read_json_value(s: &str) -> (made: Result<::serde_json::Value, String>) {
    ::serde_yaml::from_str::<::serde_json::Value>(s).map_err(|error| error.to_string())
}

/// Calls `serde_yaml::from_str` for a TOML value on `s` and hands back the
/// value, or the message of the error. Nothing is claimed of the result.
#[verifier::external_body]
fn read_toml_value(s: &str) -> (made: Result<::toml::Value, String>) {
    ::serde_yaml::from_str::<::toml::Value>(s).map_err(|error| error.to_string())
}

/// Calls `serde_yaml::from_str` for a YAML value on `s` and hands back the
/// value, or the message of the error. Nothing is claimed of the result.
#[verifier::external_body]
fn read_yaml_value(s: &str) -> (made: Result<::serde_yaml::Value, String>) {
    ::serde_yaml::from_str::<::serde_yaml::Value>(s).map_err(|error| error.to_string())
}

/// Whether `made` is what a writer's outcome comes to once the whitespace at
/// the end of its text is taken off: that text, or a `Serialization` error
/// that holds the writer's message.
pub open spec fn trimmed_result(outcome: Result<String, String>, made: Result<String, Error>) -> bool {
    match outcome {
        Ok(text) => made matches Ok(kept) && kept@ == trim_end(text@),
        Err(message) => made == Err::<String, Error>(Error::Serialization(message)),
    }
}

/// Turns a writer's outcome into its text without whitespace at the end, or
/// a `Serialization` error.
pub fn trimming(outcome: Result<String, String>) -> (made: Result<String, Error>)
    ensures
        trimmed_result(outcome, made),
        made matches Ok(text) ==> trim_end(text@) == text@,
{
    match outcome {
        Ok(text) => Ok(trim_end_of(text.as_str())),
        Err(message) => Err(Error::Serialization(message)),
    }
}

/// Writes `value` as YAML, without whitespace at the end. What the writer
/// says against the value is a `Serialization` error.
pub fn serialize(value: &::serde_yaml::Value) -> (made: Result<String, Error>)
    ensures
        exists|outcome: Result<String, String>| #[trigger] trimmed_result(outcome, made),
        match made {
            Ok(text) => trim_end(text@) == text@,
            Err(error) => error is Serialization,
        },
{
    let outcome = write_text(value);
    let made = trimming(outcome);
    assert(trimmed_result(outcome, made));
    made
}

/// Reads the YAML text `s` as a YAML value. What the reader says against
/// the text is a `Deserialization` error.
pub fn deserialize(s: &str) -> (made: Result<::serde_yaml::Value, Error>)
    ensures
        exists|outcome: Result<::serde_yaml::Value, String>| made == #[trigger] read_result(outcome),
        made matches Err(error) ==> error is Deserialization,
{
    let outcome = read_yaml_value(s);
    let made = reading(outcome);
    assert(made == read_result(outcome));
    made
}

/// Reads the YAML text `s` as a JSON value.
pub fn deserialize_json(s: &str) -> (made: Result<::serde_json::Value, Error>)
    ensures
        exists|outcome: Result<::serde_json::Value, String>| made == #[trigger] read_result(outcome),
        made matches Err(error) ==> error is Deserialization,
{
    let outcome = read_json_value(s);
    let made = reading(outcome);
    assert(made == read_result(outcome));
    made
}

/// Reads the YAML text `s` as a TOML value.
pub fn deserialize_toml(s: &str) -> (made: Result<::toml::Value, Error>)
    ensures
        exists|outcome: Result<::toml::Value, String>| made == #[trigger] read_result(outcome),
        made matches Err(error) ==> error is Deserialization,
{
    let outcome = read_toml_value(s);
    let made = reading(outcome);
    assert(made == read_result(outcome));
    made
}

/// Reads the YAML text `s` as a YAML value.
pub fn deserialize_yaml(s: &str) -> (made: Result<::serde_yaml::Value, Error>)
    ensures
        exists|outcome: Result<::serde_yaml::Value, String>| made == #[trigger] read_result(outcome),
        made matches Err(error) ==> error is Deserialization,
{
    let outcome = read_yaml_value(s);
    let made = reading(outcome);
    assert(made == read_result(outcome));
    made
}

} // verus!
