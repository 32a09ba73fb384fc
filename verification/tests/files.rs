use hoard::config::builder::hoard::{
    AsymmetricEncryption, Config as PileConfig, Encryption, SymmetricEncryption, Walker,
};
use hoard::config::filetypes::format::{ConfigFormat, Formatted};
use hoard::config::filetypes::printer::PlainTextPrinter;
use hoard::config::filetypes::yaml::trimming;
use hoard::config::filetypes::{
    infer_format, infer_format_from, reading, theme_for_syntax, writing, ConfigConversion,
    Error as FormatError, DEFAULT_JSON_THEME, DEFAULT_THEME,
};
use hoard::config::hoard::{
    destination, exclude_overrides, file_action, regex_pattern, walker_pattern, Error, FileAction,
    Hoard, MultipleEntries, Pile, Route, WalkPattern,
};
use hoard::paths::join_path;
use hoard::utils::{
    climb, contains_upperchar, masked_mode, recursively_set_perms, Error as UtilsError, PermsStep,
};

fn pile(path: Option<&str>) -> Pile {
    Pile { config: None, path: path.map(|p| p.to_string()) }
}

#[test]
fn paths_are_joined_with_a_slash() {
    assert_eq!(join_path("/a", "b"), "/a/b");
    assert_eq!(join_path("/a/", "b"), "/a/b");
    assert_eq!(join_path("", "b"), "b");
    assert_eq!(join_path("/a", "/b"), "/b");
    assert_eq!(join_path("/a", ""), "/a/");
    assert_eq!(join_path("/", "b"), "/b");
    assert_eq!(join_path("a", "b/c"), "a/b/c");
}

#[test]
fn capital_letters_are_noticed() {
    assert!(contains_upperchar("abcD"));
    assert!(contains_upperchar("Z"));
    assert!(!contains_upperchar("abc"));
    assert!(!contains_upperchar(""));
    assert!(!contains_upperchar("äÖü"));
    assert!(!contains_upperchar("[a-z]+\\.txt"));
}

#[test]
fn mode_loses_the_masked_bits() {
    assert_eq!(masked_mode(0o777, 0o077), 0o700);
    assert_eq!(masked_mode(0o755, 0o022), 0o755);
    assert_eq!(masked_mode(0o666, 0o177), 0o600);
    assert_eq!(masked_mode(0o666, 0), 0o666);
    assert_eq!(masked_mode(0, 0o777), 0);
    assert_eq!(masked_mode(u32::MAX, u32::MAX), 0);
}

#[test]
fn permissions_are_set_on_the_way_up() {
    assert_eq!(recursively_set_perms("/root/a/b", true, true, false), Ok(PermsStep::SetAndClimb));
    assert_eq!(recursively_set_perms("/root", true, true, true), Ok(PermsStep::SetAndStop));
    assert_eq!(recursively_set_perms("/root/a/file", true, false, false), Ok(PermsStep::Climb));
    assert_eq!(recursively_set_perms("/root/a/file", false, true, true), Ok(PermsStep::Stop));
    assert_eq!(
        recursively_set_perms("/root/../etc", true, true, false),
        Err(UtilsError::SneakyPath("/root/../etc".to_string()))
    );
    assert_eq!(
        recursively_set_perms("/root/ab/c", true, true, false),
        Err(UtilsError::SneakyPath("/root/ab/c".to_string()))
    );
    assert_eq!(
        recursively_set_perms("..", true, true, false),
        Err(UtilsError::SneakyPath("..".to_string()))
    );
    assert_eq!(
        recursively_set_perms("/r/a/..", false, false, false),
        Err(UtilsError::SneakyPath("/r/a/..".to_string()))
    );
    assert_eq!(climb("/r/a", Some("/r".to_string())), Ok("/r".to_string()));
    assert_eq!(climb("/", None), Err(UtilsError::InvalidParent("/".to_string())));
}

#[test]
fn regular_expression_is_checked_and_gets_its_case_setting() {
    assert_eq!(
        regex_pattern("abc.*".to_string(), false),
        Ok(WalkPattern { regex: "abc.*".to_string(), case_insensitive: true })
    );
    assert_eq!(
        regex_pattern("abc.*".to_string(), true),
        Ok(WalkPattern { regex: "abc.*".to_string(), case_insensitive: false })
    );
    assert_eq!(
        regex_pattern("Abc.*".to_string(), false),
        Ok(WalkPattern { regex: "Abc.*".to_string(), case_insensitive: false })
    );
    assert!(matches!(regex_pattern("(unclosed".to_string(), false), Err(Error::RegexError(m)) if !m.is_empty()));
}

#[test]
fn walker_pattern_is_a_glob_unless_it_says_regex() {
    let regex = Walker { pattern: "^a+$".to_string(), regex: true, ..Walker::default() };
    assert_eq!(
        walker_pattern(&regex, Err("unused".to_string())),
        Ok(WalkPattern { regex: "^a+$".to_string(), case_insensitive: true })
    );
    let glob = Walker::default();
    assert_eq!(
        walker_pattern(&glob, Ok("(?-u)^.*$".to_string())),
        Ok(WalkPattern { regex: "(?-u)^.*$".to_string(), case_insensitive: true })
    );
    assert_eq!(
        walker_pattern(&glob, Err("bad glob".to_string())),
        Err(Error::GlobError("bad glob".to_string()))
    );
}

#[test]
fn pile_pattern_comes_from_its_walker() {
    let made = pile(Some("/p")).pattern().expect("the default glob is fine");
    assert!(made.case_insensitive);
    assert!(made.regex.contains(".*"));
    assert_ne!(made.regex, "*");
    let walker = Walker { pattern: "*.TXT".to_string(), ..Walker::default() };
    let with = Pile { config: Some(PileConfig { encryption: None, walker }), path: None };
    let made = with.pattern().expect("a fine glob");
    assert!(!made.case_insensitive);
    assert!(made.regex.contains("TXT"));
    let walker = Walker { pattern: "[a-".to_string(), ..Walker::default() };
    let bad = Pile { config: Some(PileConfig { encryption: None, walker }), path: None };
    assert!(matches!(bad.pattern(), Err(Error::GlobError(_))));
    let walker = Walker { pattern: "a{2,1}".to_string(), regex: true, ..Walker::default() };
    let bad = Pile { config: Some(PileConfig { encryption: None, walker }), path: None };
    assert!(matches!(bad.pattern(), Err(Error::RegexError(_))));
}

#[test]
fn exclusions_become_overrides() {
    let walker = Walker { exclude: vec!["*.bak".into(), "tmp/".into(), "".into()], ..Walker::default() };
    assert_eq!(exclude_overrides(&walker), vec!["!*.bak", "!tmp/", "!"]);
    assert!(exclude_overrides(&Walker::default()).is_empty());
}

#[test]
fn each_file_gets_its_action() {
    let password = Encryption::Symmetric(SymmetricEncryption::Password("p".into()));
    let command = Encryption::Symmetric(SymmetricEncryption::PasswordCmd(vec!["pass".into()]));
    let public = Encryption::Asymmetric(AsymmetricEncryption::default());
    for encryption in [None, Some(&password), Some(&command), Some(&public)] {
        assert_eq!(file_action(true, true, encryption), FileAction::Skip);
        assert_eq!(file_action(false, true, encryption), FileAction::Copy);
    }
    assert_eq!(file_action(false, false, None), FileAction::Copy);
    assert_eq!(file_action(true, false, None), FileAction::Copy);
    assert_eq!(file_action(false, false, Some(&password)), FileAction::EncryptSymmetric);
    assert_eq!(file_action(true, false, Some(&password)), FileAction::Decrypt);
    assert_eq!(file_action(false, false, Some(&public)), FileAction::EncryptAsymmetric);
    assert_eq!(file_action(true, false, Some(&public)), FileAction::Decrypt);
    assert_eq!(file_action(false, false, Some(&command)), FileAction::Nothing);
    assert_eq!(file_action(true, false, Some(&command)), FileAction::Nothing);
}

#[test]
fn walked_file_lands_below_the_destination() {
    let parts: Vec<String> = ["/", "home", "me", "saves", "slot1", "data.bin"]
        .iter()
        .map(|s| s.to_string())
        .collect();
    assert_eq!(destination("/hoards/game", &parts, 2), "/hoards/game/slot1/data.bin");
    assert_eq!(destination("/hoards/game", &parts, 1), "/hoards/game/data.bin");
    assert_eq!(destination("/hoards/game", &parts, 0), "/hoards/game");
    assert_eq!(destination("/hoards/game/", &parts, 3), "/hoards/game/saves/slot1/data.bin");
    assert_eq!(destination("/hoards/game", &parts, 6), "/home/me/saves/slot1/data.bin");
}

#[test]
fn routes_go_from_path_to_hoard_and_back() {
    assert_eq!(
        pile(Some("/home/me/saves")).backup("/hoards/game"),
        Some(Route { pile: None, from: "/home/me/saves".into(), to: "/hoards/game".into() })
    );
    assert_eq!(
        pile(Some("/home/me/saves")).restore("/hoards/game"),
        Some(Route { pile: None, from: "/hoards/game".into(), to: "/home/me/saves".into() })
    );
    assert_eq!(pile(None).backup("/hoards/game"), None);
    assert_eq!(pile(None).restore("/hoards/game"), None);
    let named = MultipleEntries {
        piles: vec![
            ("rc".to_string(), pile(Some("/home/me/.rc"))),
            ("none".to_string(), pile(None)),
            ("conf".to_string(), pile(Some("/etc/conf"))),
        ],
    };
    assert_eq!(
        named.backup("/hoards/ed"),
        vec![
            Route { pile: Some("rc".into()), from: "/home/me/.rc".into(), to: "/hoards/ed/rc".into() },
            Route { pile: Some("conf".into()), from: "/etc/conf".into(), to: "/hoards/ed/conf".into() },
        ]
    );
    assert_eq!(
        named.restore("/hoards/ed"),
        vec![
            Route { pile: Some("rc".into()), from: "/hoards/ed/rc".into(), to: "/home/me/.rc".into() },
            Route { pile: Some("conf".into()), from: "/hoards/ed/conf".into(), to: "/etc/conf".into() },
        ]
    );
    assert_eq!(Hoard::Named(named.clone()).backup("/hoards/ed").len(), 2);
    assert_eq!(Hoard::Named(named).restore("/hoards/ed").len(), 2);
    assert_eq!(
        Hoard::Anonymous(pile(Some("/p"))).backup("/h"),
        vec![Route { pile: None, from: "/p".into(), to: "/h".into() }]
    );
    assert_eq!(
        Hoard::Anonymous(pile(Some("/p"))).restore("/h"),
        vec![Route { pile: None, from: "/h".into(), to: "/p".into() }]
    );
    assert!(Hoard::Anonymous(pile(None)).backup("/h").is_empty());
}

#[test]
fn format_is_told_by_name_or_extension() {
    assert_eq!(infer_format(Some("/a/config.yml"), None), Ok(ConfigFormat::Yaml));
    assert_eq!(infer_format(Some("/a/config.TOML"), None), Ok(ConfigFormat::Toml));
    assert_eq!(infer_format(Some("/a/config.yml"), Some("json")), Ok(ConfigFormat::Json));
    assert_eq!(infer_format(None, Some("Yaml")), Ok(ConfigFormat::Yaml));
    assert_eq!(infer_format(None, None), Err(FormatError::InferFormat));
    assert_eq!(infer_format(Some("/a/config"), None), Err(FormatError::InferFormat));
    assert_eq!(
        infer_format(Some("/a/config.INI"), None),
        Err(FormatError::InvalidFormat("ini".to_string()))
    );
    assert_eq!(
        infer_format(Some("/a/config.yml"), Some("XML")),
        Err(FormatError::InvalidFormat("xml".to_string()))
    );
    assert_eq!(infer_format_from(Some("json"), None), Ok(ConfigFormat::Json));
    assert_eq!(infer_format_from(None, None), Err(FormatError::InferFormat));
}

#[test]
fn conversion_settings_are_taken_from_the_command_line() {
    let made = ConfigConversion::new(
        "/a/config.yml",
        None,
        Some("/a/out.json"),
        None,
        None,
        None,
        true,
    )
    .expect("both formats are told by the extensions");
    assert_eq!(made.input_file, "/a/config.yml");
    assert_eq!(made.input_format, ConfigFormat::Yaml);
    assert_eq!(made.output_file, Some("/a/out.json".to_string()));
    assert_eq!(made.output_format, ConfigFormat::Json);
    assert_eq!(made.theme, "KimbieDark");
    assert!(made.color);
    assert!(!made.uses_custom_assets());
    let theme = |asked: Option<&str>, env: Option<&str>| {
        ConfigConversion::new(
            "c.toml",
            None,
            None,
            Some("yaml"),
            asked.map(|s| s.to_string()),
            env.map(|s| s.to_string()),
            false,
        )
        .expect("formats are told")
        .theme
    };
    assert_eq!(theme(Some("Nord"), Some("Other")), "Nord");
    assert_eq!(theme(None, Some("Other")), "Other");
    assert_eq!(theme(Some("default"), Some("Other")), "KimbieDark");
    assert_eq!(theme(None, Some("default")), "KimbieDark");
    assert_eq!(theme(None, None), DEFAULT_THEME);
    assert!(matches!(
        ConfigConversion::new("c.toml", None, None, None, None, None, false),
        Err(FormatError::InferFormat)
    ));
    assert!(matches!(
        ConfigConversion::new("c", Some("nope"), None, Some("json"), None, None, false),
        Err(FormatError::InvalidFormat(_))
    ));
    assert_eq!(theme_for_syntax("JSON"), DEFAULT_JSON_THEME);
    assert_eq!(theme_for_syntax("json"), "GitHub");
    assert_eq!(theme_for_syntax("YAML"), "KimbieDark");
}

#[test]
fn overwriting_keeps_file_and_format() {
    let made = ConfigConversion::overwrite("/a/config.json").expect("the extension tells");
    assert_eq!(made.input_file, "/a/config.json");
    assert_eq!(made.output_file, Some("/a/config.json".to_string()));
    assert_eq!(made.input_format, ConfigFormat::Json);
    assert_eq!(made.output_format, ConfigFormat::Json);
    assert_eq!(made.theme, "KimbieDark");
    assert!(!made.color);
    assert!(matches!(ConfigConversion::overwrite("/a/config"), Err(FormatError::InferFormat)));
}

#[test]
fn text_is_converted_between_formats() {
    let toml = Formatted::new(ConfigFormat::Toml, "a = 1\nb = \"two\"\n".to_string());
    let json = toml.convert_to(ConfigFormat::Json).expect("fine TOML");
    assert_eq!(json.format, ConfigFormat::Json);
    assert_eq!(json.text, "{\n  \"a\": 1,\n  \"b\": \"two\"\n}");
    let yaml = json.convert_to(ConfigFormat::Yaml).expect("fine JSON");
    assert_eq!(yaml.format, ConfigFormat::Yaml);
    assert_eq!(yaml.text, "---\na: 1\nb: two");
    let back = yaml.convert_to(ConfigFormat::Toml).expect("fine YAML");
    assert_eq!(back.text, "a = 1\nb = \"two\"\n");
    let same = toml.convert_to(ConfigFormat::Toml).expect("fine TOML");
    assert_eq!(same.text, "a = 1\nb = \"two\"\n");
    assert_eq!(
        Formatted::new(ConfigFormat::Json, "{\"k\":[1,2]}".into())
            .convert_to(ConfigFormat::Json)
            .map(|f| f.text),
        Ok("{\n  \"k\": [\n    1,\n    2\n  ]\n}".to_string())
    );
    assert_eq!(
        Formatted::new(ConfigFormat::Yaml, "k: v\n".into())
            .convert_to(ConfigFormat::Yaml)
            .map(|f| f.text),
        Ok("---\nk: v".to_string())
    );
    assert_eq!(
        Formatted::new(ConfigFormat::Yaml, "k: [1, 2]\n".into())
            .convert_to(ConfigFormat::Json)
            .map(|f| f.text),
        Ok("{\n  \"k\": [\n    1,\n    2\n  ]\n}".to_string())
    );
    assert_eq!(
        Formatted::new(ConfigFormat::Json, "{\"k\": 1}".into())
            .convert_to(ConfigFormat::Toml)
            .map(|f| f.text),
        Ok("k = 1\n".to_string())
    );
    assert_eq!(
        Formatted::new(ConfigFormat::Toml, "k = true\n".into())
            .convert_to(ConfigFormat::Yaml)
            .map(|f| f.text),
        Ok("---\nk: true".to_string())
    );
}

#[test]
fn broken_text_is_not_converted() {
    let broken = Formatted::new(ConfigFormat::Json, "{not json".to_string());
    for target in [ConfigFormat::Json, ConfigFormat::Toml, ConfigFormat::Yaml] {
        assert!(matches!(broken.convert_to(target), Err(FormatError::Deserialization(_))));
    }
    let broken = Formatted::new(ConfigFormat::Toml, "a = = 1".to_string());
    assert!(matches!(broken.convert_to(ConfigFormat::Json), Err(FormatError::Deserialization(_))));
    let broken = Formatted::new(ConfigFormat::Yaml, "a: [1".to_string());
    assert!(matches!(broken.convert_to(ConfigFormat::Toml), Err(FormatError::Deserialization(_))));
    let nothing = Formatted::new(ConfigFormat::Json, "null".to_string());
    assert!(nothing.convert_to(ConfigFormat::Toml).is_err());
}

#[test]
fn conversion_says_where_its_result_goes() {
    let conversion = ConfigConversion::new("c.toml", None, None, Some("json"), None, None, true)
        .expect("formats are told");
    let converted = conversion.run("a = 1\n".to_string()).expect("fine TOML");
    assert_eq!(converted.text.text, "{\n  \"a\": 1\n}");
    assert_eq!(converted.file, None);
    assert!(converted.highlight);
    let conversion =
        ConfigConversion::new("c.toml", None, Some("o.yaml"), None, None, None, true)
            .expect("formats are told");
    let converted = conversion.run("a = 1\n".to_string()).expect("fine TOML");
    assert_eq!(converted.text.format, ConfigFormat::Yaml);
    assert_eq!(converted.file, Some("o.yaml".to_string()));
    assert!(!converted.highlight);
    match conversion.run("a = ".to_string()) {
        Err(FormatError::ConversionError(message)) => {
            assert!(message.starts_with("failed to deserialize file: "))
        },
        _ => panic!("broken TOML"),
    }
}

#[test]
fn errors_are_put_in_words() {
    assert_eq!(FormatError::Serialization("x".into()).describe(), "failed to serialize file: x");
    assert_eq!(
        FormatError::Deserialization("y".into()).describe(),
        "failed to deserialize file: y"
    );
    assert_eq!(
        FormatError::InvalidFormat("xml".into()).describe(),
        "invalid format: xml. Supported values are: ['yaml', 'yml', 'toml', 'json']"
    );
    assert_eq!(
        FormatError::InferFormat.describe(),
        "unable to infer format. Supported values are: ['yaml', 'yml', 'toml', 'json']"
    );
    assert_eq!(
        FormatError::ConversionError("z".into()).describe(),
        "there was an error converting formats: z"
    );
}

#[test]
fn plain_printer_ends_the_text_with_a_line_break() {
    let text = Formatted::new(ConfigFormat::Json, "{}".to_string());
    assert_eq!(PlainTextPrinter::default().print(&text), "{}\n");
}

#[test]
fn outcomes_of_readers_and_writers_are_wrapped() {
    assert_eq!(reading(Ok::<u8, String>(7)), Ok(7));
    assert_eq!(
        reading(Err::<u8, String>("bad".to_string())),
        Err(FormatError::Deserialization("bad".to_string()))
    );
    assert_eq!(writing(Ok("text \n".to_string())), Ok("text \n".to_string()));
    assert_eq!(
        writing(Err("worse".to_string())),
        Err(FormatError::Serialization("worse".to_string()))
    );
    assert_eq!(trimming(Ok("a: 1\n \n".to_string())), Ok("a: 1".to_string()));
    assert_eq!(trimming(Ok(" a".to_string())), Ok(" a".to_string()));
    assert_eq!(
        trimming(Err("worst".to_string())),
        Err(FormatError::Serialization("worst".to_string()))
    );
}
