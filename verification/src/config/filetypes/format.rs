//! The formats a configuration file may have: JSON, TOML, YAML.

use super::{conversion_result, Error};
use crate::text::same_text;
use vstd::prelude::*;
use vstd::string::*;

verus! {

/// `c` in lower case, where it is an ASCII capital.
pub open spec fn ascii_lower(c: char) -> char {
    if 'A' <= c && c <= 'Z' {
        ((c as u8) + 32) as char
    } else {
        c
    }
}

/// `s` with each ASCII capital in lower case.
pub open spec fn ascii_lowercase(s: Seq<char>) -> Seq<char> {
    Seq::new(s.len(), |i: int| ascii_lower(s[i]))
}

/// Calls `str::to_ascii_lowercase`, which maps `A` to `Z` to `a` to `z` and
/// leaves every other character as it is.
#[verifier::external_body]
pub(crate) fn to_ascii_lowercase(s: &str) -> (lower: String)
    ensures
        lower@ == ascii_lowercase(s@),
{
    s.to_ascii_lowercase()
}

/// A format of configuration files.
#[derive(Copy, Clone, Debug, Eq, PartialEq, Structural)]
pub enum ConfigFormat {
    /// JSON.
    Json,
    /// TOML.
    Toml,
    /// YAML.
    Yaml,
}

/// The format that the name or extension `name` stands for, in any case.
pub open spec fn format_named(name: Seq<char>) -> Option<ConfigFormat> {
    let lower = ascii_lowercase(name);
    if lower == "json"@ {
        Some(ConfigFormat::Json)
    } else if lower == "toml"@ {
        Some(ConfigFormat::Toml)
    } else if lower == "yaml"@ || lower == "yml"@ {
        Some(ConfigFormat::Yaml)
    } else {
        None
    }
}

impl ConfigFormat {
    /// The name of the format.
    pub open spec fn name_of(&self) -> Seq<char> {
        match self {
            Self::Json => "json"@,
            Self::Toml => "toml"@,
            Self::Yaml => "yaml"@,
        }
    }

    /// The file extensions of the format, the preferred one first.
    pub open spec fn extensions_of(&self) -> Seq<Seq<char>> {
        match self {
            Self::Json => seq!["json"@],
            Self::Toml => seq!["toml"@],
            Self::Yaml => seq!["yaml"@, "yml"@],
        }
    }

    /// The names of all formats.
    pub fn variants() -> (names: [&'static str; 3])
        ensures
            names@.len() == 3,
            names@[0]@ == ConfigFormat::Json.name_of(),
            names@[1]@ == ConfigFormat::Toml.name_of(),
            names@[2]@ == ConfigFormat::Yaml.name_of(),
    {
        ["json", "toml", "yaml"]
    }

    /// The names of all formats, in the order of the variants.
    pub fn names() -> (names: Vec<&'static str>)
        ensures
            names@.len() == 3,
            names@[0]@ == ConfigFormat::Json.name_of(),
            names@[1]@ == ConfigFormat::Toml.name_of(),
            names@[2]@ == ConfigFormat::Yaml.name_of(),
    {
        let mut names: Vec<&'static str> = Vec::new();
        names.push(ConfigFormat::Json.name());
        names.push(ConfigFormat::Toml.name());
        names.push(ConfigFormat::Yaml.name());
        names
    }

    /// The name of the format.
    pub fn name(&self) -> (name: &'static str)
        ensures
            name@ == self.name_of(),
    {
        match *self {
            Self::Json => "json",
            Self::Toml => "toml",
            Self::Yaml => "yaml",
        }
    }

    /// The file extensions of the format, the preferred one first.
    pub fn extensions(&self) -> (extensions: Vec<&'static str>)
        ensures
            extensions@.len() == self.extensions_of().len(),
            forall|i: int|
                0 <= i < extensions@.len() ==> (#[trigger] extensions@[i])@
                    == self.extensions_of()[i],
    {
        let mut extensions: Vec<&'static str> = Vec::new();
        match *self {
            Self::Json => {
                extensions.push("json");
            },
            Self::Toml => {
                extensions.push("toml");
            },
            Self::Yaml => {
                extensions.push("yaml");
                extensions.push("yml");
            },
        }
        extensions
    }

    /// Whether `s` is one of the format's file extensions, letter for letter.
    pub fn is_extension(&self, s: &str) -> (held: bool)
        ensures
            held == self.extensions_of().contains(s@),
    {
        let extensions = self.extensions();
        let mut i: usize = 0;
        while i < extensions.len()
            invariant
                i <= extensions.len(),
                extensions@.len() == self.extensions_of().len(),
                forall|j: int|
                    0 <= j < extensions@.len() ==> (#[trigger] extensions@[j])@
                        == self.extensions_of()[j],
                forall|j: int| 0 <= j < i ==> self.extensions_of()[j] != s@,
            decreases extensions.len() - i,
        {
            if same_text(extensions[i], s) {
                assert(self.extensions_of()[i as int] == s@);
                return true;
            }
            i += 1;
        }
        false
    }

    /// The extension to give a new file of the format: the format's name.
    pub fn preferred_extension(&self) -> (extension: &'static str)
        ensures
            extension@ == self.name_of(),
    {
        self.name()
    }

    /// The format that `name` stands for: a format's name or file extension,
    /// in any case. Any other name is refused, and the error holds it in
    /// lower case.
    pub fn parse(name: &str) -> (made: Result<ConfigFormat, Error>)
        ensures
            match made {
                Ok(format) => format_named(name@) == Some(format),
                Err(Error::InvalidFormat(given)) => format_named(name@) is None && given@
                    == ascii_lowercase(name@),
                Err(_) => false,
            },
    {
        let lower = to_ascii_lowercase(name);
        if same_text(lower.as_str(), "json") {
            Ok(ConfigFormat::Json)
        } else if same_text(lower.as_str(), "toml") {
            Ok(ConfigFormat::Toml)
        } else if same_text(lower.as_str(), "yaml") || same_text(lower.as_str(), "yml") {
            Ok(ConfigFormat::Yaml)
        } else {
            Err(Error::InvalidFormat(lower))
        }
    }
}

impl core::str::FromStr for ConfigFormat {
    type Err = Error;

    /// The format that `s` stands for: a format's name or file extension,
    /// in any case. Any other text is refused, and the error holds it in
    /// lower case.
    fn from_str(s: &str) -> (made: Result<Self, Error>)
        ensures
            match made {
                Ok(format) => format_named(s@) == Some(format),
                Err(Error::InvalidFormat(given)) => format_named(s@) is None && given@
                    == ascii_lowercase(s@),
                Err(_) => false,
            },
    {
        ConfigFormat::parse(s)
    }
}

/// A text, and the format it is written in.
#[derive(Debug)]
pub struct Formatted {
    /// The format of the text.
    pub format: ConfigFormat,
    /// The text.
    pub text: String,
}

/// Whether `made` is what a conversion comes to, where `read` is what the
/// reader made of the text, with its failure as a `Deserialization` error,
/// and `written` is what the writer made of the value, with its failure as a
/// `Serialization` error.
pub open spec fn converted<V>(
    read: Result<V, Error>,
    written: Result<String, Error>,
    made: Result<String, Error>,
) -> bool {
    &&& made == conversion_result(read, written)
    &&& read matches Err(error) ==> error is Deserialization
    &&& written matches Err(error) ==> error is Serialization
}

impl Formatted {
    /// `text`, taken to be written in `format`.
    pub fn new(format: ConfigFormat, text: String) -> (made: Formatted)
        ensures
            made.format == format,
            made.text == text,
    {
        Formatted { format, text }
    }

    /// The text in the format `format`: read in its own format, written in
    /// the other. What the reader says against the text is a
    /// `Deserialization` error, what the writer says against the value a
    /// `Serialization` error.
    pub fn convert_to(&self, format: ConfigFormat) -> (made: Result<Formatted, Error>)
        ensures
            match made {
                Ok(converted) => converted.format == format,
                Err(error) => error is Deserialization || error is Serialization,
            },
    {
        let text = match format {
            ConfigFormat::Json => self.to_json(),
            ConfigFormat::Toml => self.to_toml(),
            ConfigFormat::Yaml => self.to_yaml(),
        };
        match text {
            Ok(text) => Ok(Formatted { format, text }),
            Err(error) => Err(error),
        }
    }

    /// The text as JSON: read in its own format as a JSON value, then written.
    /// A reader's failure is the error; else the writer's result counts.
    fn to_json(&self) -> (made: Result<String, Error>)
        ensures
            exists|read: Result<::serde_json::Value, Error>, written: Result<String, Error>|
                #[trigger] converted(read, written, made),
            made matches Err(error) ==> error is Deserialization || error is Serialization,
    {
        let read = match self.format {
            ConfigFormat::Json => super::json::deserialize(self.text.as_str()),
            ConfigFormat::Toml => super::toml::deserialize_json(self.text.as_str()),
            ConfigFormat::Yaml => super::yaml::deserialize_json(self.text.as_str()),
        };
        match read {
            Ok(value) => {
                let written = super::json::serialize(&value);
                assert(converted(read, written, written));
                written
            },
            Err(error) => {
                let failed: Result<String, Error> = Err(error);
                let ghost nothing: Result<String, Error> = Ok(vstd::pervasive::arbitrary());
                assert(converted(read, nothing, failed));
                failed
            },
        }
    }

    /// The text as TOML: read in its own format as a TOML value, then written.
    /// A reader's failure is the error; else the writer's result counts.
    fn to_toml(&self) -> (made: Result<String, Error>)
        ensures
            exists|read: Result<::toml::Value, Error>, written: Result<String, Error>|
                #[trigger] converted(read, written, made),
            made matches Err(error) ==> error is Deserialization || error is Serialization,
    {
        let read = match self.format {
            ConfigFormat::Json => super::json::deserialize_toml(self.text.as_str()),
            ConfigFormat::Toml => super::toml::deserialize(self.text.as_str()),
            ConfigFormat::Yaml => super::yaml::deserialize_toml(self.text.as_str()),
        };
        match read {
            Ok(value) => {
                let written = super::toml::serialize(&value);
                assert(converted(read, written, written));
                written
            },
            Err(error) => {
                let failed: Result<String, Error> = Err(error);
                let ghost nothing: Result<String, Error> = Ok(vstd::pervasive::arbitrary());
                assert(converted(read, nothing, failed));
                failed
            },
        }
    }

    /// The text as YAML: read in its own format as a YAML value, then written.
    /// A reader's failure is the error; else the writer's result counts.
    fn to_yaml(&self) -> (made: Result<String, Error>)
        ensures
            exists|read: Result<::serde_yaml::Value, Error>, written: Result<String, Error>|
                #[trigger] converted(read, written, made),
            made matches Err(error) ==> error is Deserialization || error is Serialization,
    {
        let read = match self.format {
            ConfigFormat::Json => super::json::deserialize_yaml(self.text.as_str()),
            ConfigFormat::Toml => super::toml::deserialize_yaml(self.text.as_str()),
            ConfigFormat::Yaml => super::yaml::deserialize(self.text.as_str()),
        };
        match read {
            Ok(value) => {
                let written = super::yaml::serialize(&value);
                assert(converted(read, written, written));
                written
            },
            Err(error) => {
                let failed: Result<String, Error> = Err(error);
                let ghost nothing: Result<String, Error> = Ok(vstd::pervasive::arbitrary());
                assert(converted(read, nothing, failed));
                failed
            },
        }
    }
}

} // verus!
