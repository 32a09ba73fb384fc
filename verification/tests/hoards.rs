use hoard::command::Command;
use hoard::config::builder::environment::facts::{EnvironmentFact, Error as EnvError, Host};
use hoard::config::builder::environment::EnvironmentTable;
use hoard::config::builder::hoard::{
    AsymmetricEncryption, Config as PileConfig, Encryption, Error as HoardError, Hoard,
    MultipleEntries, Pile, SymmetricEncryption, Walker,
};
use hoard::config::builder::resolver::{Error as TrieError, ExclusivityConstraints};
use hoard::config::builder::{Builder, Error as BuildError, GlobalConfig};
use hoard::config::directories::{cache_dir, config_dir, data_dir, home_dir, HoardProjectDirs};
use hoard::config::hoard::{
    Hoard as ConfigHoard, HoardPaths, MultipleEntries as ConfigMultiple, Pile as ConfigPile,
};
use hoard::config::{Config, Error as ConfigError};
use hoard::env_vars::{Error as ExpandError, VarError, Variables};
use hoard::{CONFIG_FILE_NAME, HOARDS_DIR_SLUG};

fn items(pairs: &[(&str, &str)]) -> Vec<(String, String)> {
    pairs.iter().map(|(k, p)| (k.to_string(), p.to_string())).collect()
}

fn envs(pairs: &[(&str, bool)]) -> EnvironmentTable {
    EnvironmentTable::from_pairs(pairs.iter().map(|(n, v)| (n.to_string(), *v)).collect())
}

fn no_groups() -> ExclusivityConstraints {
    ExclusivityConstraints::new(vec![])
}

fn vars() -> Variables {
    let mut vars = Variables::new();
    vars.set("HOME".to_string(), "/home/tester".to_string());
    vars
}

fn dirs() -> HoardProjectDirs {
    HoardProjectDirs::new(
        "/home/tester".to_string(),
        "/home/tester/.cache/hoard".to_string(),
        "/home/tester/.config/hoard".to_string(),
        "/home/tester/.local/share/hoard".to_string(),
    )
}

fn host() -> Host {
    Host {
        os: "linux".to_string(),
        home: "/home/tester".to_string(),
        vars: vars(),
        commands: vec![],
        paths: vec![],
    }
}

fn get_default_populated_builder() -> Builder {
    Builder {
        hoards_root: Some(Builder::default_hoard_root(&dirs())),
        config_file: Some(Builder::default_config_file(&dirs())),
        command: Some(Command::Validate),
        environments: None,
        exclusivity: None,
        hoards: None,
        force: false,
        global_config: None,
    }
}

fn get_non_default_populated_builder() -> Builder {
    Builder {
        hoards_root: Some("/testing/saves".to_string()),
        config_file: Some("/testing/config.toml".to_string()),
        command: Some(Command::Restore { hoards: vec!["test".into()] }),
        environments: None,
        exclusivity: None,
        hoards: None,
        force: false,
        global_config: None,
    }
}

#[test]
fn env_vars_are_expanded() {
    let pile = Pile { config: None, items: items(&[("foo", "${HOME}/something")]) };
    let home = "/home/tester";
    let expected = ConfigPile { config: None, path: Some(format!("{}/something", home)) };
    let envs = envs(&[("foo", true)]);
    let result = pile
        .process_with(&envs, &no_groups(), &vars(), home)
        .expect("pile should process without issues");
    assert_eq!(result, expected);
}

#[test]
fn pile_without_match_has_no_path() {
    let config = PileConfig::default();
    let pile = Pile { config: Some(config.clone()), items: items(&[("foo", "/a"), ("bar", "/b")]) };
    let result = pile.process_with(&envs(&[("foo", false)]), &no_groups(), &vars(), "/h");
    assert_eq!(result, Ok(ConfigPile { config: Some(config), path: None }));
}

#[test]
fn pile_with_tie_fails() {
    let pile = Pile { config: None, items: items(&[("foo", "/a"), ("baz", "/b")]) };
    let result = pile.process_with(&envs(&[("foo", true), ("baz", true)]), &no_groups(), &vars(), "/h");
    assert!(matches!(result, Err(HoardError::Resolve(TrieError::Indecision(_, _)))));
}

#[test]
fn pile_with_exclusive_names_fails_whatever_holds() {
    let groups = ExclusivityConstraints::new(vec![vec!["foo".to_string(), "baz".to_string()]]);
    for (foo, baz) in [(true, true), (true, false), (false, true), (false, false)] {
        let pile = Pile { config: None, items: items(&[("foo", "/a"), ("foo|baz", "/b")]) };
        let result = pile.process_with(&envs(&[("foo", foo), ("baz", baz)]), &groups, &vars(), "/h");
        assert_eq!(
            result,
            Err(HoardError::Resolve(TrieError::InvalidCondition("foo|baz".to_string())))
        );
    }
}

#[test]
fn chosen_path_with_unset_variable_fails() {
    let pile = Pile { config: None, items: items(&[("foo", "${NOPE}/x"), ("bar", "$ALSO_NOPE")]) };
    let result = pile.process_with(&envs(&[("foo", true)]), &no_groups(), &vars(), "/h");
    assert_eq!(
        result,
        Err(HoardError::ExpandEnv(ExpandError {
            error: VarError::NotPresent,
            var: "NOPE".to_string()
        }))
    );
}

#[test]
fn named_piles_inherit_the_shared_configuration() {
    let shared = PileConfig {
        encryption: Some(Encryption::Symmetric(SymmetricEncryption::Password(
            "correcthorsebatterystaple".into(),
        ))),
        walker: Walker::default(),
    };
    let own = PileConfig {
        encryption: Some(Encryption::Asymmetric(AsymmetricEncryption::default())),
        walker: Walker { hidden: true, ..Walker::default() },
    };
    let entries = MultipleEntries {
        config: Some(shared.clone()),
        items: vec![
            ("item1".to_string(), Pile { config: None, items: items(&[("foo", "/some/path")]) }),
            (
                "item2".to_string(),
                Pile { config: Some(own.clone()), items: items(&[("bar", "~/other")]) },
            ),
            ("item3".to_string(), Pile { config: None, items: items(&[]) }),
        ],
    };
    let result = Hoard::Multiple(entries)
        .process_with(&envs(&[("foo", true), ("bar", true)]), &no_groups(), &vars(), "/home/tester")
        .expect("every pile resolves");
    assert_eq!(
        result,
        ConfigHoard::Named(ConfigMultiple {
            piles: vec![
                (
                    "item1".to_string(),
                    ConfigPile { config: Some(shared.clone()), path: Some("/some/path".into()) }
                ),
                (
                    "item2".to_string(),
                    ConfigPile { config: Some(own), path: Some("/home/tester/other".into()) }
                ),
                ("item3".to_string(), ConfigPile { config: Some(shared), path: None }),
            ]
        })
    );
    assert_eq!(
        result.get_paths(),
        HoardPaths::Named(vec![
            ("item1".to_string(), "/some/path".to_string()),
            ("item2".to_string(), "/home/tester/other".to_string()),
        ])
    );
}

#[test]
fn named_piles_without_shared_configuration_keep_none() {
    let entries = MultipleEntries {
        config: None,
        items: vec![("item1".to_string(), Pile { config: None, items: items(&[("foo", "/p")]) })],
    };
    let result = entries.process_with(&envs(&[("foo", true)]), &no_groups(), &vars(), "/h");
    assert_eq!(
        result,
        Ok(ConfigMultiple {
            piles: vec![("item1".to_string(), ConfigPile { config: None, path: Some("/p".into()) })]
        })
    );
}

#[test]
fn first_failing_pile_aborts_the_hoard() {
    let entries = MultipleEntries {
        config: None,
        items: vec![
            ("fine".to_string(), Pile { config: None, items: items(&[("foo", "/p")]) }),
            ("tie".to_string(), Pile { config: None, items: items(&[("foo", "/a"), ("bar", "/b")]) }),
            ("unset".to_string(), Pile { config: None, items: items(&[("foo", "$NOPE")]) }),
        ],
    };
    let result = entries.process_with(&envs(&[("foo", true), ("bar", true)]), &no_groups(), &vars(), "/h");
    match result {
        Err(HoardError::Resolve(TrieError::Indecision(left, right))) => {
            let mut named = vec![left, right];
            named.sort();
            assert_eq!(named, vec!["bar".to_string(), "foo".to_string()]);
        },
        other => panic!("the second pile ties: {:?}", other),
    }
}

#[test]
fn anonymous_hoard_has_one_path() {
    let hoard = Hoard::Single(Pile { config: None, items: items(&[("foo", "/p")]) });
    let result = hoard
        .process_with(&envs(&[("foo", true)]), &no_groups(), &vars(), "/h")
        .expect("resolves");
    assert_eq!(result.get_paths(), HoardPaths::Anonymous(Some("/p".to_string())));
    let hoard = Hoard::Single(Pile { config: None, items: items(&[("foo", "/p")]) });
    let result = hoard
        .process_with(&envs(&[("foo", false)]), &no_groups(), &vars(), "/h")
        .expect("resolves to nothing");
    assert_eq!(result.get_paths(), HoardPaths::Anonymous(None));
}

#[test]
fn encryption_has_a_name() {
    assert_eq!(Encryption::Asymmetric(AsymmetricEncryption::default()).name(), "asymmetric");
    assert_eq!(
        Encryption::Symmetric(SymmetricEncryption::PasswordCmd(vec!["pass".into()])).name(),
        "symmetric"
    );
}

#[test]
fn defaults_of_the_pile_configuration() {
    let asym = AsymmetricEncryption::default();
    assert_eq!(asym, AsymmetricEncryption { public_key: None, armor: true });
    let walker = Walker::default();
    assert_eq!(
        walker,
        Walker {
            follow_links: false,
            hidden: false,
            max_depth: None,
            exclude: vec![],
            pattern: "*".to_owned(),
            regex: false,
            case_sensitive: false,
        }
    );
    assert_eq!(PileConfig::default(), PileConfig { encryption: None, walker });
    assert_eq!(GlobalConfig::default(), GlobalConfig { ignores: None, public_key: None });
}

#[test]
fn default_builder_is_new() {
    assert_eq!(Builder::new(), Builder::default());
}

#[test]
fn new_builder_is_all_none() {
    let expected = Builder {
        hoards_root: None,
        config_file: None,
        command: None,
        environments: None,
        hoards: None,
        exclusivity: None,
        force: false,
        global_config: None,
    };
    assert_eq!(expected, Builder::new(), "ConfigBuild::new() should have all None fields");
}

#[test]
fn layered_builder_prefers_some_over_none() {
    let some = get_default_populated_builder();
    let none = Builder::new();
    assert_ne!(some, none, "both builders cannot be identical");
    assert_eq!(some, none.clone().layer(some.clone()), "Some fields atop None prefers Some");
    assert_eq!(some, some.clone().layer(none), "None fields atop Some prefers Some");
}

#[test]
fn layered_builder_prefers_argument_to_self() {
    let layer1 = get_default_populated_builder();
    let layer2 = get_non_default_populated_builder();
    assert_eq!(layer2, layer1.clone().layer(layer2.clone()), "layer() should prefer the argument");
    assert_eq!(layer1, layer2.layer(layer1.clone()), "layer() should prefer the argument");
}

#[test]
fn layered_builder_keeps_force_of_either() {
    let forced = Builder::new().set_force(true);
    assert!(Builder::new().layer(forced.clone()).force);
    assert!(forced.clone().layer(Builder::new()).force);
    assert!(!forced.unset_force().force);
}

#[test]
fn builder_saves_root_sets_correctly() {
    let mut builder = Builder::new();
    assert_eq!(None, builder.hoards_root, "saves_root should start as None");
    let path = "/testing/saves".to_string();
    builder = builder.set_hoards_root(path.clone());
    assert_eq!(Some(path), builder.hoards_root, "saves_root should now be set");
}

#[test]
fn builder_config_file_sets_correctly() {
    let mut builder = Builder::new();
    assert_eq!(None, builder.config_file, "config_file should start as None");
    let path = "/testing/config.toml".to_string();
    builder = builder.set_config_file(path.clone());
    assert_eq!(Some(path), builder.config_file, "config_file should now be set");
}

#[test]
fn builder_command_sets_correctly() {
    let mut builder = Builder::new();
    assert_eq!(None, builder.command, "command should start as None");
    let cmd = Command::Validate;
    builder = builder.set_command(cmd.clone());
    assert_eq!(Some(cmd), builder.command, "command should now be set");
}

#[test]
fn builder_saves_root_unsets_correctly() {
    let mut builder = Builder::new();
    let path = "/testing/saves".to_string();
    builder = builder.set_hoards_root(path.clone());
    assert_eq!(Some(path), builder.hoards_root, "saves_root should start as set");
    builder = builder.unset_hoards_root();
    assert_eq!(None, builder.hoards_root, "saves_root should now be None");
}

#[test]
fn builder_config_file_unsets_correctly() {
    let mut builder = Builder::new();
    let path = "/testing/config.toml".to_string();
    builder = builder.set_config_file(path.clone());
    assert_eq!(Some(path), builder.config_file, "config_file should start as set");
    builder = builder.unset_config_file();
    assert_eq!(None, builder.config_file, "config_file should now be None");
}

#[test]
fn builder_command_unsets_correctly() {
    let mut builder = Builder::new();
    let cmd = Command::Validate;
    builder = builder.set_command(cmd.clone());
    assert_eq!(Some(cmd), builder.command, "command should start as set");
    builder = builder.unset_command();
    assert_eq!(None, builder.command, "command should now be None");
}

#[test]
fn builder_hoards_set_and_unset() {
    let hoards = vec![(
        "one".to_string(),
        Hoard::Single(Pile { config: None, items: items(&[("foo", "/p")]) }),
    )];
    let builder = Builder::new().set_hoards(hoards.clone());
    assert_eq!(builder.hoards, Some(hoards));
    assert_eq!(builder.unset_hoards().hoards, None);
}

#[test]
fn builder_with_nothing_set_uses_defaults() {
    let builder = get_default_populated_builder();
    let config = Builder::new().build(&dirs(), &host()).expect("failed to build config");
    assert_eq!(Some(config.hoards_root), builder.hoards_root);
    assert_eq!(Some(config.config_file), builder.config_file);
    assert_eq!(Some(config.command), builder.command);
}

#[test]
fn builder_with_options_set_uses_options() {
    let builder = get_non_default_populated_builder();
    let config = builder.clone().build(&dirs(), &host()).expect("failed to build config");
    assert_eq!(Some(config.hoards_root), builder.hoards_root);
    assert_eq!(Some(config.config_file), builder.config_file);
    assert_eq!(Some(config.command), builder.command);
}

#[test]
fn default_paths_lie_below_the_project_directories() {
    assert_eq!(
        Builder::default_config_file(&dirs()),
        format!("/home/tester/.config/hoard/{}", CONFIG_FILE_NAME)
    );
    assert_eq!(
        Builder::default_hoard_root(&dirs()),
        format!("/home/tester/.local/share/hoard/{}", HOARDS_DIR_SLUG)
    );
    assert_eq!(CONFIG_FILE_NAME, "config.yml");
    assert_eq!(HOARDS_DIR_SLUG, "hoards");
}

#[test]
fn project_directories_are_handed_back() {
    let d = dirs();
    assert_eq!(d.home_dir(), "/home/tester");
    assert_eq!(d.cache_dir(), "/home/tester/.cache/hoard");
    assert_eq!(d.config_dir(), "/home/tester/.config/hoard");
    assert_eq!(d.data_dir(), "/home/tester/.local/share/hoard");
    assert_eq!(home_dir(&d), "/home/tester");
    assert_eq!(cache_dir(&d), "/home/tester/.cache/hoard");
    assert_eq!(config_dir(&d), "/home/tester/.config/hoard");
    assert_eq!(data_dir(&d), "/home/tester/.local/share/hoard");
}

#[test]
fn test_config_builder_returns_new_builder() {
    assert_eq!(
        Config::builder(),
        Builder::new(),
        "Config::builder should return an unmodified new Builder"
    );
}

#[test]
fn test_config_get_config_file_returns_config_file_path() {
    let config = Builder::new().build(&dirs(), &host()).expect("default config");
    assert_eq!(config.get_config_file_path(), config.config_file, "should return config file path");
}

#[test]
fn test_config_get_saves_root_returns_saves_root_path() {
    let config = Builder::new().build(&dirs(), &host()).expect("default config");
    assert_eq!(config.get_hoards_root_path(), config.hoards_root, "should return saves root path");
}

fn full_builder() -> Builder {
    Builder {
        environments: Some(vec![
            ("foo".to_string(), EnvironmentFact::OsIs("linux".to_string())),
            ("bar".to_string(), EnvironmentFact::OsIs("macos".to_string())),
            ("baz".to_string(), EnvironmentFact::Or(vec!["foo".to_string(), "bar".to_string()])),
        ]),
        exclusivity: Some(vec![vec!["foo".to_string(), "bar".to_string()]]),
        hoards_root: None,
        config_file: None,
        command: None,
        force: true,
        hoards: Some(vec![
            (
                "game".to_string(),
                Hoard::Single(Pile {
                    config: None,
                    items: items(&[("foo", "~/saves"), ("bar", "/mac/saves")]),
                }),
            ),
            (
                "editor".to_string(),
                Hoard::Multiple(MultipleEntries {
                    config: None,
                    items: vec![(
                        "rc".to_string(),
                        Pile { config: None, items: items(&[("bar", "/mac/rc")]) },
                    )],
                }),
            ),
        ]),
        global_config: Some(GlobalConfig { ignores: Some(vec!["*.bak".into()]), public_key: None }),
    }
}

#[test]
fn build_evaluates_environments_and_resolves_hoards() {
    let config = full_builder().build(&dirs(), &host()).expect("builds");
    assert!(config.force);
    assert_eq!(config.command, Command::Validate);
    assert_eq!(
        config.global_config,
        GlobalConfig { ignores: Some(vec!["*.bak".into()]), public_key: None }
    );
    assert_eq!(
        config.hoards,
        vec![
            (
                "game".to_string(),
                ConfigHoard::Anonymous(ConfigPile {
                    config: None,
                    path: Some("/home/tester/saves".to_string())
                })
            ),
            (
                "editor".to_string(),
                ConfigHoard::Named(ConfigMultiple {
                    piles: vec![("rc".to_string(), ConfigPile { config: None, path: None })]
                })
            ),
        ]
    );
    assert_eq!(config.get_prefix("game"), "/home/tester/.local/share/hoard/hoards/game");
}

#[test]
fn build_reports_indecision() {
    let mut builder = full_builder();
    builder.hoards = Some(vec![(
        "both".to_string(),
        Hoard::Single(Pile { config: None, items: items(&[("foo", "/a"), ("baz", "/c")]) }),
    )]);
    let err = builder.build(&dirs(), &host()).expect_err("determining paths should fail");
    match err {
        BuildError::ProcessHoard(HoardError::Resolve(TrieError::Indecision(left, right))) => {
            let mut named = vec![left, right];
            named.sort();
            assert_eq!(named, vec!["baz".to_string(), "foo".to_string()]);
        },
        other => panic!("Unexpected error: {:?}", other),
    }
}

#[test]
fn build_reports_environment_errors_first() {
    let mut builder = full_builder();
    builder.environments = Some(vec![(
        "foo".to_string(),
        EnvironmentFact::And(vec!["nowhere".to_string()]),
    )]);
    assert_eq!(
        builder.build(&dirs(), &host()),
        Err(BuildError::Environment(EnvError::UnknownEnvironment("nowhere".to_string())))
    );
    let mut builder = full_builder();
    builder.environments = Some(vec![
        ("foo".to_string(), EnvironmentFact::And(vec!["bar".to_string()])),
        ("bar".to_string(), EnvironmentFact::And(vec!["foo".to_string()])),
    ]);
    assert!(matches!(
        builder.build(&dirs(), &host()),
        Err(BuildError::Environment(EnvError::CyclicDependency(_)))
    ));
}

#[test]
fn hoards_are_chosen_by_name_or_all() {
    let config = full_builder().build(&dirs(), &host()).expect("builds");
    let none: Vec<String> = vec![];
    let all = config.get_hoards(&none).expect("all hoards");
    assert_eq!(all.iter().map(|(n, _)| *n).collect::<Vec<_>>(), vec!["game", "editor"]);
    let names = vec!["editor".to_string(), "game".to_string(), "editor".to_string()];
    let some = config.get_hoards(&names).expect("named hoards");
    assert_eq!(some.iter().map(|(n, _)| *n).collect::<Vec<_>>(), vec!["editor", "game", "editor"]);
    assert_eq!(some[1].1, &config.hoards[0].1);
    let names = vec!["game".to_string(), "ghost".to_string(), "spectre".to_string()];
    assert_eq!(config.get_hoards(&names), Err(ConfigError::NoSuchHoard("ghost".to_string())));
    assert_eq!(config.get_hoard("game"), Ok(&config.hoards[0].1));
    assert_eq!(config.get_hoard("nope"), Err(ConfigError::NoSuchHoard("nope".to_string())));
}

#[test]
fn ignore_patterns_are_added() {
    let mut global = GlobalConfig::default();
    global.add_ignore("*.tmp".to_string());
    assert_eq!(global.ignores, Some(vec!["*.tmp".to_string()]));
    global.add_ignore("*.bak".to_string());
    assert_eq!(global.ignores, Some(vec!["*.tmp".to_string(), "*.bak".to_string()]));
}
