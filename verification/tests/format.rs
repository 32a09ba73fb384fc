use hoard::config::filetypes::format::{ConfigFormat, Formatted};
use hoard::config::filetypes::Error;
use std::str::FromStr;

#[test]
fn formats_have_names() {
    assert_eq!(ConfigFormat::variants(), ["json", "toml", "yaml"]);
    assert_eq!(ConfigFormat::names(), vec!["json", "toml", "yaml"]);
    assert_eq!(ConfigFormat::Json.name(), "json");
    assert_eq!(ConfigFormat::Toml.name(), "toml");
    assert_eq!(ConfigFormat::Yaml.name(), "yaml");
    assert_eq!(ConfigFormat::Yaml.preferred_extension(), "yaml");
    assert_eq!(ConfigFormat::Json.preferred_extension(), "json");
}

#[test]
fn formats_have_extensions() {
    assert_eq!(ConfigFormat::Json.extensions(), vec!["json"]);
    assert_eq!(ConfigFormat::Toml.extensions(), vec!["toml"]);
    assert_eq!(ConfigFormat::Yaml.extensions(), vec!["yaml", "yml"]);
    assert!(ConfigFormat::Yaml.is_extension("yml"));
    assert!(ConfigFormat::Yaml.is_extension("yaml"));
    assert!(!ConfigFormat::Yaml.is_extension("YML"));
    assert!(!ConfigFormat::Yaml.is_extension("json"));
    assert!(ConfigFormat::Json.is_extension("json"));
    assert!(!ConfigFormat::Toml.is_extension(""));
}

#[test]
fn formats_are_read_in_any_case() {
    assert_eq!(ConfigFormat::parse("json"), Ok(ConfigFormat::Json));
    assert_eq!(ConfigFormat::parse("JSON"), Ok(ConfigFormat::Json));
    assert_eq!(ConfigFormat::parse("Toml"), Ok(ConfigFormat::Toml));
    assert_eq!(ConfigFormat::parse("yaml"), Ok(ConfigFormat::Yaml));
    assert_eq!(ConfigFormat::parse("YmL"), Ok(ConfigFormat::Yaml));
    assert_eq!(ConfigFormat::from_str("yml"), Ok(ConfigFormat::Yaml));
    assert_eq!(ConfigFormat::parse("XML"), Err(Error::InvalidFormat("xml".to_string())));
    assert_eq!(ConfigFormat::parse(""), Err(Error::InvalidFormat("".to_string())));
    assert_eq!(ConfigFormat::parse("JSÖN"), Err(Error::InvalidFormat("jsÖn".to_string())));
}

#[test]
fn formatted_text_keeps_its_parts() {
    let formatted = Formatted::new(ConfigFormat::Toml, "a = 1".to_string());
    assert_eq!(formatted.format, ConfigFormat::Toml);
    assert_eq!(formatted.text, "a = 1");
}
