//! The formats of configuration files.

pub mod format;
pub mod json;
pub mod printer;
pub mod toml;
pub mod yaml;

use self::format::{format_named, ConfigFormat, Formatted};
use crate::text::same_text;
use vstd::prelude::*;
use vstd::string::*;

verus! {

/// What can go wrong between formats.
#[derive(Debug, Clone, PartialEq, Eq)]
pub enum Error {
    /// A value could not be written in the wanted format.
    Serialization(String),
    /// The text is not of the format it was taken for.
    Deserialization(String),
    /// The name is no format's name. Holds the name in lower case.
    InvalidFormat(String),
    /// Neither a name nor a file extension tells the format.
    InferFormat,
    /// The conversion failed. Holds the description of what went wrong.
    ConversionError(String),
}

impl Error {
    /// The error in words.
    pub fn describe(&self) -> (words: String)
        ensures
            words@ == (match self {
                Error::Serialization(message) => "failed to serialize file: "@ + message@,
                Error::Deserialization(message) => "failed to deserialize file: "@ + message@,
                Error::InvalidFormat(name) => "invalid format: "@ + name@
                    + ". Supported values are: ['yaml', 'yml', 'toml', 'json']"@,
                Error::InferFormat => "unable to infer format. Supported values are: ['yaml', 'yml', 'toml', 'json']"@,
                Error::ConversionError(message) => "there was an error converting formats: "@
                    + message@,
            }),
    {
        match self {
            Error::Serialization(message) => {
                let mut words = String::from_str("failed to serialize file: ");
                words.append(message.as_str());
                words
            },
            Error::Deserialization(message) => {
                let mut words = String::from_str("failed to deserialize file: ");
                words.append(message.as_str());
                words
            },
            Error::InvalidFormat(name) => {
                let mut words = String::from_str("invalid format: ");
                words.append(name.as_str());
                words.append(". Supported values are: ['yaml', 'yml', 'toml', 'json']");
                words
            },
            Error::InferFormat => String::from_str(
                "unable to infer format. Supported values are: ['yaml', 'yml', 'toml', 'json']",
            ),
            Error::ConversionError(message) => {
                let mut words = String::from_str("there was an error converting formats: ");
                words.append(message.as_str());
                words
            },
        }
    }
}

/// What a reader's outcome comes to: its value, or a `Deserialization` error
/// that holds the reader's message.
pub open spec fn read_result<V>(outcome: Result<V, String>) -> Result<V, Error> {
    match outcome {
        Ok(value) => Ok(value),
        Err(message) => Err(Error::Deserialization(message)),
    }
}

/// What a writer's outcome comes to: its text, or a `Serialization` error
/// that holds the writer's message.
pub open spec fn write_result(outcome: Result<String, String>) -> Result<String, Error> {
    match outcome {
        Ok(text) => Ok(text),
        Err(message) => Err(Error::Serialization(message)),
    }
}

/// What a conversion comes to, given what the reader made of the text and
/// what the writer would make of the value: the reader's failure comes
/// first, then the writer's result counts.
pub open spec fn conversion_result<V>(
    read: Result<V, Error>,
    written: Result<String, Error>,
) -> Result<String, Error> {
    match read {
        Ok(_) => written,
        Err(error) => Err(error),
    }
}

/// Turns a reader's outcome into a value or a `Deserialization` error.
pub fn reading<V>(outcome: Result<V, String>) -> (made: Result<V, Error>)
    ensures
        made == read_result(outcome),
{
    match outcome {
        Ok(value) => Ok(value),
        Err(message) => Err(Error::Deserialization(message)),
    }
}

/// Turns a writer's outcome into a text or a `Serialization` error.
pub fn writing(outcome: Result<String, String>) -> (made: Result<String, Error>)
    ensures
        made == write_result(outcome),
{
    match outcome {
        Ok(text) => Ok(text),
        Err(message) => Err(Error::Serialization(message)),
    }
}

/// The theme for coloured output, where none is named.
pub const DEFAULT_THEME: &'static str = "KimbieDark";

/// The theme for coloured JSON.
pub const DEFAULT_JSON_THEME: &'static str = "GitHub";

/// The theme for the syntax named `syntax`: one for JSON, in any case of
/// letters, and the default for all else.
pub fn theme_for_syntax(syntax: &str) -> (theme: &'static str)
    ensures
        theme@ == (if format::ascii_lowercase(syntax@) == "json"@ {
            DEFAULT_JSON_THEME@
        } else {
            DEFAULT_THEME@
        }),
{
    if same_text(format::to_ascii_lowercase(syntax).as_str(), "json") {
        DEFAULT_JSON_THEME
    } else {
        DEFAULT_THEME
    }
}

/// The format that a name or a file extension tells: the name decides where
/// there is one, else the extension; without both there is nothing to go
/// by.
pub open spec fn inferred(extension: Option<Seq<char>>, format_name: Option<Seq<char>>) -> Option<
    Option<ConfigFormat>,
> {
    match format_name {
        Some(name) => Some(format_named(name)),
        None => match extension {
            Some(extension) => Some(format_named(extension)),
            None => None,
        },
    }
}

/// Whether `made` is what `extension` and `format_name` tell.
pub open spec fn inference(
    extension: Option<Seq<char>>,
    format_name: Option<Seq<char>>,
    made: Result<ConfigFormat, Error>,
) -> bool {
    match made {
        Ok(format) => inferred(extension, format_name) == Some(Some(format)),
        Err(Error::InferFormat) => inferred(extension, format_name) is None,
        Err(Error::InvalidFormat(name)) => inferred(extension, format_name) == Some(
            None::<ConfigFormat>,
        ) && name@ == format::ascii_lowercase(
            match format_name {
                Some(given) => given,
                None => extension->0,
            },
        ),
        Err(_) => false,
    }
}

/// Tells the format from the name of a format or, without one, from the
/// extension of a file.
pub fn infer_format_from(extension: Option<&str>, format_name: Option<&str>) -> (made: Result<
    ConfigFormat,
    Error,
>)
    ensures
        inference(
            match extension {
                Some(text) => Some(text@),
                None => None,
            },
            match format_name {
                Some(text) => Some(text@),
                None => None,
            },
            made,
        ),
{
    match format_name {
        Some(name) => ConfigFormat::parse(name),
        None => match extension {
            Some(extension) => ConfigFormat::parse(extension),
            None => Err(Error::InferFormat),
        },
    }
}

/// The text that `given` holds, if it holds one.
pub open spec fn text_of(given: Option<&str>) -> Option<Seq<char>> {
    match given {
        Some(text) => Some(text@),
        None => None,
    }
}

/// Tells the format from the name of a format or, without one, from the
/// extension that std finds in the path of a file.
pub fn infer_format(file: Option<&str>, format_name: Option<&str>) -> (made: Result<
    ConfigFormat,
    Error,
>)
    ensures
        exists|extension: Option<Seq<char>>|
            (file is None ==> extension is None) && #[trigger] inference(
                extension,
                text_of(format_name),
                made,
            ),
{
    let extension = match file {
        Some(path) => crate::paths::extension(path),
        None => None,
    };
    let made = infer_format_from(
        match &extension {
            Some(text) => Some(text.as_str()),
            None => None,
        },
        format_name,
    );
    assert(inference(extension.deep_view(), text_of(format_name), made));
    made
}

/// The theme to use: the one that is asked for, else the one that the
/// environment names; the default where neither names one, or where the
/// name is `default`.
pub open spec fn chosen_theme(asked: Option<Seq<char>>, environment: Option<Seq<char>>) -> Seq<
    char,
> {
    let named = match asked {
        Some(theme) => Some(theme),
        None => environment,
    };
    match named {
        Some(theme) => if theme == "default"@ {
            DEFAULT_THEME@
        } else {
            theme
        },
        None => DEFAULT_THEME@,
    }
}

/// What a conversion of the configuration file is to do.
#[derive(Debug, Clone)]
pub struct ConfigConversion {
    /// The file to read.
    pub input_file: String,
    /// The format of the file to read.
    pub input_format: ConfigFormat,
    /// The file to write; the terminal where there is none.
    pub output_file: Option<String>,
    /// The format to write.
    pub output_format: ConfigFormat,
    /// The theme for coloured output.
    pub theme: String,
    /// Whether to colour the output.
    pub color: bool,
}

/// What a conversion writes, and where.
#[derive(Debug)]
pub struct Converted {
    /// The text to write, without the line break that ends it.
    pub text: Formatted,
    /// The file to write to; the terminal where there is none.
    pub file: Option<String>,
    /// Whether the text is to be coloured: only on the terminal, and only
    /// where colour is asked for.
    pub highlight: bool,
}

impl ConfigConversion {
    /// The conversion that the command line asks for. The formats are told
    /// by their names or, without these, by the extensions of the files;
    /// `env_theme` is the theme that the environment names.
    pub fn new(
        input_file: &str,
        input_format: Option<&str>,
        output_file: Option<&str>,
        output_format: Option<&str>,
        theme: Option<String>,
        env_theme: Option<String>,
        color: bool,
    ) -> (made: Result<Self, Error>)
        ensures
            match made {
                Ok(conversion) => {
                    &&& conversion.input_file@ == input_file@
                    &&& conversion.output_file.deep_view() == (match output_file {
                        Some(path) => Some(path@),
                        None => None,
                    })
                    &&& conversion.theme@ == chosen_theme(theme.deep_view(), env_theme.deep_view())
                    &&& conversion.color == color
                },
                Err(error) => error is InferFormat || error is InvalidFormat,
            },
    {
        let input = match infer_format(Some(input_file), input_format) {
            Ok(format) => format,
            Err(error) => {
                return Err(error);
            },
        };
        let output = match infer_format(output_file, output_format) {
            Ok(format) => format,
            Err(error) => {
                return Err(error);
            },
        };
        let named = match theme {
            Some(theme) => Some(theme),
            None => env_theme,
        };
        let theme = match named {
            Some(theme) => if same_text(theme.as_str(), "default") {
                String::from_str(DEFAULT_THEME)
            } else {
                theme
            },
            None => String::from_str(DEFAULT_THEME),
        };
        Ok(
            Self {
                input_file: String::from_str(input_file),
                input_format: input,
                output_file: match output_file {
                    Some(path) => Some(String::from_str(path)),
                    None => None,
                },
                output_format: output,
                theme,
                color,
            },
        )
    }

    /// The conversion that writes the configuration file back to itself, in
    /// its own format and without colour.
    pub fn overwrite(input_file: &str) -> (made: Result<Self, Error>)
        ensures
            match made {
                Ok(conversion) => {
                    &&& conversion.input_file@ == input_file@
                    &&& conversion.output_file.deep_view() == Some(input_file@)
                    &&& conversion.output_format == conversion.input_format
                    &&& conversion.theme@ == DEFAULT_THEME@
                    &&& !conversion.color
                },
                Err(error) => error is InferFormat || error is InvalidFormat,
            },
    {
        let format = match infer_format(Some(input_file), None) {
            Ok(format) => format,
            Err(error) => {
                return Err(error);
            },
        };
        Ok(
            Self {
                input_file: String::from_str(input_file),
                input_format: format,
                output_file: Some(String::from_str(input_file)),
                output_format: format,
                theme: String::from_str(DEFAULT_THEME),
                color: false,
            },
        )
    }

    /// Whether the conversion needs the themes of the cache: it does where
    /// its theme is not the default.
    pub fn uses_custom_assets(&self) -> (custom: bool)
        ensures
            custom == (self.theme@ != DEFAULT_THEME@),
    {
        !same_text(self.theme.as_str(), DEFAULT_THEME)
    }

    /// Converts `input`, the text of the input file, and says where the
    /// result goes. A failed conversion is a `ConversionError` that holds
    /// the description of what went wrong.
    pub fn run(&self, input: String) -> (made: Result<Converted, Error>)
        ensures
            match made {
                Ok(converted) => {
                    &&& converted.text.format == self.output_format
                    &&& converted.file.deep_view() == self.output_file.deep_view()
                    &&& converted.highlight == (self.output_file is None && self.color)
                },
                Err(error) => error is ConversionError,
            },
    {
        let text = Formatted::new(self.input_format, input);
        match text.convert_to(self.output_format) {
            Ok(converted) => Ok(
                Converted {
                    text: converted,
                    file: match &self.output_file {
                        Some(path) => Some(path.clone()),
                        None => None,
                    },
                    highlight: self.output_file.is_none() && self.color,
                },
            ),
            Err(error) => Err(Error::ConversionError(error.describe())),
        }
    }
}

} // verus!
