use hoard::config::builder::environment::EnvironmentTable;
use hoard::config::builder::resolver::{
    resolve, CandidateTable, ConditionKey, Error, ExclusivityConstraints,
};

fn envs(pairs: &[(&str, bool)]) -> EnvironmentTable {
    EnvironmentTable::from_pairs(pairs.iter().map(|(n, v)| (n.to_string(), *v)).collect())
}

fn candidates(pairs: &[(&str, &str)]) -> Vec<(String, String)> {
    pairs.iter().map(|(k, p)| (k.to_string(), p.to_string())).collect()
}

fn groups(groups: &[&[&str]]) -> ExclusivityConstraints {
    ExclusivityConstraints::new(
        groups.iter().map(|g| g.iter().map(|n| n.to_string()).collect()).collect(),
    )
}

fn table(pairs: &[(&str, &str)]) -> CandidateTable<String> {
    CandidateTable::new(candidates(pairs), &groups(&[])).expect("no exclusivity, no refusal")
}

#[test]
fn most_specific_condition_wins() {
    let env = envs(&[("foo", true), ("bar", true), ("baz", true)]);
    let table = table(&[("foo", "A"), ("foo|bar", "B"), ("baz", "C")]);
    assert_eq!(resolve(&table, &env), Ok(Some(&"B".to_string())));
}

#[test]
fn most_specific_condition_wins_in_any_order() {
    let env = envs(&[("foo", true), ("bar", true), ("baz", true)]);
    let orders: [[(&str, &str); 3]; 6] = [
        [("foo", "A"), ("foo|bar", "B"), ("baz", "C")],
        [("foo", "A"), ("baz", "C"), ("foo|bar", "B")],
        [("foo|bar", "B"), ("foo", "A"), ("baz", "C")],
        [("foo|bar", "B"), ("baz", "C"), ("foo", "A")],
        [("baz", "C"), ("foo", "A"), ("foo|bar", "B")],
        [("baz", "C"), ("foo|bar", "B"), ("foo", "A")],
    ];
    for order in orders.iter() {
        let table = table(order);
        assert_eq!(resolve(&table, &env), Ok(Some(&"B".to_string())));
    }
}

#[test]
fn test_results_in_indecision() {
    let env = envs(&[("foo", true), ("baz", true)]);
    let table = table(&[("foo", "A"), ("baz", "C")]);
    let err = resolve(&table, &env).expect_err("determining paths should fail");
    match err {
        Error::Indecision(left, right) => {
            let mut named = vec![left, right];
            named.sort();
            assert_eq!(named, vec!["baz".to_string(), "foo".to_string()]);
        },
        other => panic!("Unexpected error: {:?}", other),
    }
}

#[test]
fn tie_is_reported_in_any_order() {
    let env = envs(&[("foo", true), ("baz", true)]);
    let table = table(&[("baz", "C"), ("foo", "A")]);
    assert!(matches!(resolve(&table, &env), Err(Error::Indecision(_, _))));
}

#[test]
fn tie_below_the_top_is_no_error() {
    let env = envs(&[("a", true), ("b", true)]);
    let table = table(&[("a", "1"), ("b", "2"), ("a|b", "3")]);
    assert_eq!(resolve(&table, &env), Ok(Some(&"3".to_string())));
}

#[test]
fn tie_at_the_top_is_an_error_even_with_smaller_matches() {
    let env = envs(&[("a", true), ("b", true), ("c", true)]);
    let table = table(&[("a", "1"), ("a|b", "2"), ("b|c", "3")]);
    let err = resolve(&table, &env).expect_err("two keys of two names tie");
    match err {
        Error::Indecision(left, right) => {
            let mut named = vec![left, right];
            named.sort();
            assert_eq!(named, vec!["a|b".to_string(), "b|c".to_string()]);
        },
        other => panic!("Unexpected error: {:?}", other),
    }
}

#[test]
fn false_environment_does_not_match() {
    let env = envs(&[("linux", false), ("macos", true)]);
    let table = table(&[("linux", "/a"), ("macos", "/b")]);
    assert_eq!(resolve(&table, &env), Ok(Some(&"/b".to_string())));
}

#[test]
fn empty_table_resolves_to_nothing() {
    let env = envs(&[("foo", true)]);
    let table = table(&[]);
    assert_eq!(resolve(&table, &env), Ok(None));
    assert_eq!(table.len(), 0);
}

#[test]
fn no_match_is_not_an_error() {
    let env = envs(&[("foo", false), ("bar", true)]);
    let table = table(&[("foo", "A"), ("foo|bar", "B"), ("baz", "C")]);
    assert_eq!(resolve(&table, &env), Ok(None));
}

#[test]
fn undeclared_environment_never_matches() {
    let env = envs(&[]);
    let table = table(&[("ghost", "A")]);
    assert_eq!(resolve(&table, &env), Ok(None));
}

#[test]
fn empty_key_is_a_fallback() {
    let env = envs(&[("foo", false)]);
    let table = table(&[("", "fallback"), ("foo", "A")]);
    assert_eq!(resolve(&table, &env), Ok(Some(&"fallback".to_string())));
    let env = envs(&[("foo", true)]);
    assert_eq!(resolve(&table, &env), Ok(Some(&"A".to_string())));
}

#[test]
fn later_value_of_an_environment_counts() {
    let mut env = envs(&[("foo", true)]);
    env.insert("foo".to_string(), false);
    assert_eq!(env.get("foo"), Some(false));
    assert_eq!(env.get("bar"), None);
    assert!(!env.holds("foo"));
}

#[test]
fn exclusive_environments_are_refused() {
    let excl = groups(&[&["linux", "macos", "windows"]]);
    let made = CandidateTable::new(candidates(&[("linux", "/a"), ("linux|macos", "/b")]), &excl);
    match made {
        Err(Error::InvalidCondition(key)) => assert_eq!(key, "linux|macos"),
        _ => panic!("the key names two environments of one group"),
    }
}

#[test]
fn first_refused_key_is_named() {
    let excl = groups(&[&["a", "b"], &["c", "d"]]);
    let made = CandidateTable::new(
        candidates(&[("a|c", "1"), ("c|d|x", "2"), ("a|b", "3")]),
        &excl,
    );
    match made {
        Err(Error::InvalidCondition(key)) => assert_eq!(key, "c|d|x"),
        _ => panic!("the second key names two environments of one group"),
    }
}

#[test]
fn one_name_of_each_group_is_accepted() {
    let excl = groups(&[&["a", "b"], &["c", "d"]]);
    let made = CandidateTable::new(candidates(&[("a|c", "1"), ("b|d", "2"), ("x", "3")]), &excl);
    assert!(made.is_ok());
    assert_eq!(made.ok().map(|t| t.len()), Some(3));
}

#[test]
fn repeated_name_is_one_name() {
    let excl = groups(&[&["a", "b"]]);
    let key = ConditionKey::parse("a|a");
    assert_eq!(key.specificity(), 1);
    assert!(excl.is_valid(&key));
    assert_eq!(key.as_str(), "a|a");
}

#[test]
fn key_names_are_split_at_bars() {
    let key = ConditionKey::parse("linux|has_steam||linux|x");
    assert_eq!(
        key.names(),
        &vec!["linux".to_string(), "has_steam".to_string(), "x".to_string()]
    );
    assert_eq!(key.specificity(), 3);
    assert_eq!(ConditionKey::parse("").specificity(), 0);
    assert_eq!(ConditionKey::parse("|").specificity(), 0);
}

#[test]
fn key_is_satisfied_by_true_environments_only() {
    let env = envs(&[("a", true), ("b", false)]);
    assert!(ConditionKey::parse("a").is_satisfied(&env));
    assert!(!ConditionKey::parse("a|b").is_satisfied(&env));
    assert!(!ConditionKey::parse("a|c").is_satisfied(&env));
    assert!(ConditionKey::parse("").is_satisfied(&env));
}
