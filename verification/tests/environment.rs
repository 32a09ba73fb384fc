use hoard::config::builder::environment::evaluate::Environments;
use hoard::config::builder::environment::facts::{EnvironmentFact, Error, Host};
use hoard::config::builder::environment::path::PathExists;
use hoard::config::builder::environment::EnvironmentTable;
use hoard::env_vars::Variables;

fn host() -> Host {
    let mut vars = Variables::new();
    vars.set("HOME".to_string(), "/home/me".to_string());
    vars.set("SHELL".to_string(), "/bin/zsh".to_string());
    vars.set_unreadable("BINARY".to_string());
    Host {
        os: "linux".to_string(),
        home: "/home/me".to_string(),
        vars,
        commands: vec!["git".to_string()],
        paths: vec!["/home/me/.config".to_string(), "/etc".to_string()],
    }
}

fn names(list: &[&str]) -> Vec<String> {
    list.iter().map(|n| n.to_string()).collect()
}

fn declare(pairs: Vec<(&str, EnvironmentFact)>) -> Environments {
    Environments::from_pairs(pairs.into_iter().map(|(n, f)| (n.to_string(), f)).collect())
}

#[test]
fn facts_without_references_are_probed() {
    let declared = declare(vec![
        ("on_linux", EnvironmentFact::OsIs("linux".to_string())),
        ("on_macos", EnvironmentFact::OsIs("macos".to_string())),
        ("has_home", EnvironmentFact::EnvVarExists("HOME".to_string())),
        ("has_binary", EnvironmentFact::EnvVarExists("BINARY".to_string())),
        ("has_editor", EnvironmentFact::EnvVarExists("EDITOR".to_string())),
        ("zsh", EnvironmentFact::EnvVarEquals("SHELL".to_string(), "/bin/zsh".to_string())),
        ("bash", EnvironmentFact::EnvVarEquals("SHELL".to_string(), "/bin/bash".to_string())),
        ("binary_is", EnvironmentFact::EnvVarEquals("BINARY".to_string(), "".to_string())),
        ("has_git", EnvironmentFact::CommandExists("git".to_string())),
        ("has_hg", EnvironmentFact::CommandExists("hg".to_string())),
        ("config", EnvironmentFact::PathExists(PathExists("~/.config".to_string()))),
        ("config2", EnvironmentFact::PathExists(PathExists("${HOME}/.config".to_string()))),
        ("cache", EnvironmentFact::PathExists(PathExists("~/.cache".to_string()))),
        ("etc", EnvironmentFact::PathExists(PathExists("/etc".to_string()))),
        ("unset", EnvironmentFact::PathExists(PathExists("${NOWHERE}/etc".to_string()))),
    ]);
    assert_eq!(declared.len(), 15);
    let table = declared.evaluate(&host()).expect("nothing refers to anything");
    assert_eq!(table.get("on_linux"), Some(true));
    assert_eq!(table.get("on_macos"), Some(false));
    assert_eq!(table.get("has_home"), Some(true));
    assert_eq!(table.get("has_binary"), Some(true));
    assert_eq!(table.get("has_editor"), Some(false));
    assert_eq!(table.get("zsh"), Some(true));
    assert_eq!(table.get("bash"), Some(false));
    assert_eq!(table.get("binary_is"), Some(false));
    assert_eq!(table.get("has_git"), Some(true));
    assert_eq!(table.get("has_hg"), Some(false));
    assert_eq!(table.get("config"), Some(true));
    assert_eq!(table.get("config2"), Some(true));
    assert_eq!(table.get("cache"), Some(false));
    assert_eq!(table.get("etc"), Some(true));
    assert_eq!(table.get("unset"), Some(false));
    assert_eq!(table.get("never_declared"), None);
}

#[test]
fn combinations_may_refer_forward() {
    let declared = declare(vec![
        ("both", EnvironmentFact::And(names(&["either", "on_linux"]))),
        ("either", EnvironmentFact::Or(names(&["on_macos", "on_linux"]))),
        ("neither", EnvironmentFact::Or(names(&["on_macos", "on_bsd"]))),
        ("not_both", EnvironmentFact::And(names(&["on_linux", "on_macos"]))),
        ("on_linux", EnvironmentFact::OsIs("linux".to_string())),
        ("on_macos", EnvironmentFact::OsIs("macos".to_string())),
        ("on_bsd", EnvironmentFact::OsIs("freebsd".to_string())),
        ("always", EnvironmentFact::And(vec![])),
        ("never", EnvironmentFact::Or(vec![])),
        ("deep", EnvironmentFact::Or(names(&["never", "both"]))),
    ]);
    let table = declared.evaluate(&host()).expect("no cycle, no unknown name");
    assert_eq!(table.get("both"), Some(true));
    assert_eq!(table.get("either"), Some(true));
    assert_eq!(table.get("neither"), Some(false));
    assert_eq!(table.get("not_both"), Some(false));
    assert_eq!(table.get("always"), Some(true));
    assert_eq!(table.get("never"), Some(false));
    assert_eq!(table.get("deep"), Some(true));
}

#[test]
fn order_of_declaration_does_not_matter() {
    let forward = declare(vec![
        ("a", EnvironmentFact::Or(names(&["b", "c"]))),
        ("b", EnvironmentFact::And(names(&["c", "d"]))),
        ("c", EnvironmentFact::OsIs("macos".to_string())),
        ("d", EnvironmentFact::OsIs("linux".to_string())),
    ]);
    let backward = declare(vec![
        ("d", EnvironmentFact::OsIs("linux".to_string())),
        ("c", EnvironmentFact::OsIs("macos".to_string())),
        ("b", EnvironmentFact::And(names(&["c", "d"]))),
        ("a", EnvironmentFact::Or(names(&["b", "c"]))),
    ]);
    let first = forward.evaluate(&host()).expect("acyclic");
    let second = backward.evaluate(&host()).expect("acyclic");
    for name in ["a", "b", "c", "d"] {
        assert_eq!(first.get(name), second.get(name));
    }
    assert_eq!(first.get("a"), Some(false));
    assert_eq!(first.get("d"), Some(true));
}

#[test]
fn two_facts_that_refer_to_each_other_are_a_cycle() {
    let declared = declare(vec![
        ("a", EnvironmentFact::Or(names(&["b"]))),
        ("b", EnvironmentFact::And(names(&["a"]))),
    ]);
    match declared.evaluate(&host()) {
        Err(Error::CyclicDependency(name)) => assert!(name == "a" || name == "b"),
        _ => panic!("a and b depend on each other"),
    }
}

#[test]
fn a_longer_cycle_is_found() {
    let declared = declare(vec![
        ("leaf", EnvironmentFact::OsIs("linux".to_string())),
        ("a", EnvironmentFact::Or(names(&["leaf", "b"]))),
        ("b", EnvironmentFact::And(names(&["leaf", "c"]))),
        ("c", EnvironmentFact::Or(names(&["a"]))),
    ]);
    match declared.evaluate(&host()) {
        Err(Error::CyclicDependency(name)) => assert!(["a", "b", "c"].contains(&name.as_str())),
        _ => panic!("a, b and c depend on each other"),
    }
}

#[test]
fn a_fact_that_refers_to_itself_is_a_cycle() {
    let declared = declare(vec![("me", EnvironmentFact::And(names(&["me"])))]);
    assert_eq!(
        declared.evaluate(&host()).err(),
        Some(Error::CyclicDependency("me".to_string()))
    );
}

#[test]
fn shared_fact_is_no_cycle() {
    let declared = declare(vec![
        ("top", EnvironmentFact::And(names(&["left", "right"]))),
        ("left", EnvironmentFact::Or(names(&["base"]))),
        ("right", EnvironmentFact::Or(names(&["base"]))),
        ("base", EnvironmentFact::OsIs("linux".to_string())),
    ]);
    let table = declared.evaluate(&host()).expect("a diamond is no cycle");
    assert_eq!(table.get("top"), Some(true));
}

#[test]
fn unknown_name_is_an_error() {
    let declared = declare(vec![
        ("a", EnvironmentFact::OsIs("linux".to_string())),
        ("b", EnvironmentFact::Or(names(&["a", "ghost"]))),
    ]);
    assert_eq!(
        declared.evaluate(&host()).err(),
        Some(Error::UnknownEnvironment("ghost".to_string()))
    );
}

#[test]
fn first_declaration_of_a_name_stays() {
    let declared = declare(vec![
        ("a", EnvironmentFact::OsIs("linux".to_string())),
        ("a", EnvironmentFact::OsIs("macos".to_string())),
    ]);
    assert_eq!(declared.len(), 1);
    let table = declared.evaluate(&host()).expect("one leaf");
    assert_eq!(table.get("a"), Some(true));
}

#[test]
fn nothing_declared_gives_an_empty_table() {
    let table = declare(vec![]).evaluate(&host()).expect("nothing to do");
    assert_eq!(table.get("a"), None);
}

#[test]
fn one_fact_against_an_evaluated_table() {
    let table = EnvironmentTable::from_pairs(vec![
        ("yes".to_string(), true),
        ("no".to_string(), false),
    ]);
    let h = host();
    assert_eq!(EnvironmentFact::Or(names(&["no", "yes"])).evaluate(&h, &table), Ok(true));
    assert_eq!(EnvironmentFact::Or(names(&["no"])).evaluate(&h, &table), Ok(false));
    assert_eq!(EnvironmentFact::And(names(&["no", "yes"])).evaluate(&h, &table), Ok(false));
    assert_eq!(EnvironmentFact::And(names(&["yes"])).evaluate(&h, &table), Ok(true));
    assert_eq!(EnvironmentFact::OsIs("linux".to_string()).evaluate(&h, &table), Ok(true));
    assert_eq!(
        EnvironmentFact::And(names(&["yes", "ghost", "other"])).evaluate(&h, &table),
        Err(Error::UnknownEnvironment("ghost".to_string()))
    );
    assert_eq!(
        EnvironmentFact::Or(names(&["yes", "ghost"])).evaluate(&h, &table),
        Err(Error::UnknownEnvironment("ghost".to_string()))
    );
}

#[test]
fn path_location_is_the_expanded_path() {
    let h = host();
    let path = PathExists("~/x/$HOME".to_string());
    assert_eq!(path.location(&h.vars, "/home/me"), Some("/home/me/x//home/me".to_string()));
    assert_eq!(PathExists("$NOPE".to_string()).location(&h.vars, "/home/me"), None);
}
