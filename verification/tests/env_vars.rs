use hoard::env_vars::{expand_env_in_path, Error, Lookup, VarError, Variables};
use std::path::PathBuf;

fn vars(pairs: &[(&str, &str)]) -> Variables {
    let mut vars = Variables::new();
    for (name, value) in pairs {
        vars.set(name.to_string(), value.to_string());
    }
    vars
}

fn expand(input: &str, pairs: &[(&str, &str)]) -> PathBuf {
    let path = expand_env_in_path(input, &vars(pairs), "/home/me")
        .expect("failed to expand env in path");
    PathBuf::from(path)
}

#[test]
fn var_at_start_shorter_than_value() {
    let result = expand("${TEST_HOME}/test/file", &[("TEST_HOME", "/home/testuser")]);
    assert_eq!(result, PathBuf::from("/home/testuser/test/file"));
}

#[test]
fn var_in_middle_shorter_than_value() {
    let result = expand(
        "/home/testuser/${TEST_PATH}/file",
        &[("TEST_PATH", "test/subdir/subberdir")],
    );
    assert_eq!(result, PathBuf::from("/home/testuser/test/subdir/subberdir/file"));
}

#[test]
fn var_at_end_shorter_than_value() {
    let result = expand("/home/testuser/${TEST_PATH}", &[("TEST_PATH", "test/subdir/file")]);
    assert_eq!(result, PathBuf::from("/home/testuser/test/subdir/file"));
}

#[test]
fn var_at_start_same_length_as_value() {
    let result = expand("${TEST_HOME}/test/file", &[("TEST_HOME", "/home/tester")]);
    assert_eq!(result, PathBuf::from("/home/tester/test/file"));
}

#[test]
fn var_in_middle_same_length_as_value() {
    let result = expand("/home/testuser/${TEST_PATH}/file", &[("TEST_PATH", "/test/folder")]);
    assert_eq!(result, PathBuf::from("/home/testuser/test/folder/file"));
}

#[test]
fn var_at_end_same_length_as_value() {
    let result = expand("/home/testuser/${TEST_PATH}", &[("TEST_PATH", "testing/file")]);
    assert_eq!(result, PathBuf::from("/home/testuser/testing/file"));
}

#[test]
fn var_at_start_longer_than_value() {
    let result = expand("${TEST_HOME}/test/file", &[("TEST_HOME", "/home/test")]);
    assert_eq!(result, PathBuf::from("/home/test/test/file"));
}

#[test]
fn var_in_middle_longer_than_value() {
    let result = expand("/home/testuser/${TEST_PATH}/file", &[("TEST_PATH", "test/dir")]);
    assert_eq!(result, PathBuf::from("/home/testuser/test/dir/file"));
}

#[test]
fn var_at_end_longer_than_value() {
    let result = expand("/home/testuser/${TEST_PATH}", &[("TEST_PATH", "a/file")]);
    assert_eq!(result, PathBuf::from("/home/testuser/a/file"));
}

#[test]
fn path_without_var_stays_same() {
    let result = expand("/path/without/variables", &[("UNUSED", "NOTHING")]);
    assert_eq!(result, PathBuf::from("/path/without/variables"));
}

#[test]
fn path_with_two_variables() {
    let result = expand(
        "/home/${TEST_USER}/somedir/${TEST_USER}/file",
        &[("TEST_USER", "testuser")],
    );
    assert_eq!(result, PathBuf::from("/home/testuser/somedir/testuser/file"));
}

#[test]
fn var_without_braces_does_expand() {
    let result = expand("/path/with/$VALID/variable", &[("VALID", "works")]);
    assert_eq!(result, PathBuf::from("/path/with/works/variable"));
}

#[test]
fn var_windows_style_not_expanded() {
    let result = expand("/path/with/%INVALID%/variable", &[("INVALID", "broken")]);
    assert_eq!(result, PathBuf::from("/path/with/%INVALID%/variable"));
}

#[test]
fn vars_not_recursively_expanded() {
    let result = expand_env_in_path("${TEST_HOME}", &vars(&[("TEST_HOME", "${HOME}")]), "/home/me");
    assert_eq!(result, Ok("${HOME}".to_string()));
}

#[test]
fn default_value_first_set() {
    let result = expand("${FIRST:-$SECOND}/path/ok", &[("FIRST", "/EXPANDED/dir")]);
    assert_eq!(result, PathBuf::from("/EXPANDED/dir/path/ok"));
}

#[test]
fn default_value_second_set() {
    let result = expand("${FIRST:-$SECOND}/path/ok", &[("SECOND", "/EXPANDED/dir")]);
    assert_eq!(result, PathBuf::from("/EXPANDED/dir/path/ok"));
}

#[test]
fn default_value_both_set() {
    let result = expand(
        "${FIRST:-$SECOND}/path/ok",
        &[("FIRST", "/EXPANDED/dir"), ("SECOND", "/NOTEXPANDED/dir")],
    );
    assert_eq!(result, PathBuf::from("/EXPANDED/dir/path/ok"));
}

#[test]
fn default_without_dollar_names_a_variable_too() {
    let result = expand_env_in_path("${A:-B}", &vars(&[("B", "bee")]), "/home/me");
    assert_eq!(result, Ok("bee".to_string()));
}

#[test]
fn exact_text_is_kept_between_references() {
    let result = expand_env_in_path("a//b/$X./c/", &vars(&[("X", "1")]), "/home/me");
    assert_eq!(result, Ok("a//b/1./c/".to_string()));
}

#[test]
fn unset_variable_without_default_fails() {
    let result = expand_env_in_path("/a/${MISSING}/b", &vars(&[]), "/home/me");
    assert_eq!(
        result,
        Err(Error { error: VarError::NotPresent, var: "MISSING".to_string() })
    );
    let result = expand_env_in_path("/a/$MISSING/b", &vars(&[]), "/home/me");
    assert_eq!(
        result,
        Err(Error { error: VarError::NotPresent, var: "MISSING".to_string() })
    );
}

#[test]
fn unset_variable_with_unset_default_fails() {
    let result = expand_env_in_path("${FIRST:-$SECOND}", &vars(&[]), "/home/me");
    assert_eq!(
        result,
        Err(Error { error: VarError::NotPresent, var: "FIRST".to_string() })
    );
}

#[test]
fn first_failing_reference_is_the_error() {
    let result = expand_env_in_path("$A/$B", &vars(&[]), "/home/me");
    assert_eq!(result, Err(Error { error: VarError::NotPresent, var: "A".to_string() }));
    let result = expand_env_in_path("$A/$B", &vars(&[("A", "x")]), "/home/me");
    assert_eq!(result, Err(Error { error: VarError::NotPresent, var: "B".to_string() }));
}

#[test]
fn unreadable_variable_fails() {
    let mut v = vars(&[]);
    v.set_unreadable("BAD".to_string());
    let result = expand_env_in_path("/x/$BAD", &v, "/home/me");
    assert_eq!(result, Err(Error { error: VarError::NotUnicode, var: "BAD".to_string() }));
    let result = expand_env_in_path("/x/${BAD}", &v, "/home/me");
    assert_eq!(result, Err(Error { error: VarError::NotUnicode, var: "BAD".to_string() }));
}

#[test]
fn unreadable_variable_with_default_uses_default() {
    let mut v = vars(&[("GOOD", "fine")]);
    v.set_unreadable("BAD".to_string());
    let result = expand_env_in_path("${BAD:-$GOOD}", &v, "/home/me");
    assert_eq!(result, Ok("fine".to_string()));
}

#[test]
fn unreadable_default_fails_even_if_variable_is_set() {
    let mut v = vars(&[("GOOD", "fine")]);
    v.set_unreadable("BAD".to_string());
    let result = expand_env_in_path("${GOOD:-$BAD}", &v, "/home/me");
    assert_eq!(result, Err(Error { error: VarError::NotUnicode, var: "BAD".to_string() }));
}

#[test]
fn default_directly_behind_the_brace_is_part_of_the_name() {
    let result = expand_env_in_path("${:-X}", &vars(&[("X", "x"), (":-X", "odd")]), "/home/me");
    assert_eq!(result, Ok("odd".to_string()));
}

#[test]
fn dollar_forms_that_are_no_reference() {
    let none = vars(&[]);
    assert_eq!(expand_env_in_path("a$$b", &none, "/h"), Ok("a$b".to_string()));
    assert_eq!(expand_env_in_path("a$", &none, "/h"), Ok("a$".to_string()));
    assert_eq!(expand_env_in_path("a$/b", &none, "/h"), Ok("a$/b".to_string()));
    assert_eq!(expand_env_in_path("a${b", &none, "/h"), Ok("a${b".to_string()));
    assert_eq!(expand_env_in_path("$$$", &none, "/h"), Ok("$$".to_string()));
}

#[test]
fn name_without_braces_ends_at_other_characters() {
    let v = vars(&[("A_1", "x"), ("A", "y")]);
    assert_eq!(expand_env_in_path("$A_1-z", &v, "/h"), Ok("x-z".to_string()));
    assert_eq!(expand_env_in_path("$A.z", &v, "/h"), Ok("y.z".to_string()));
}

#[test]
fn tilde_becomes_home() {
    let none = vars(&[]);
    assert_eq!(expand_env_in_path("~", &none, "/home/me"), Ok("/home/me".to_string()));
    assert_eq!(expand_env_in_path("~/x", &none, "/home/me"), Ok("/home/me/x".to_string()));
    assert_eq!(expand_env_in_path("~x", &none, "/home/me"), Ok("~x".to_string()));
    assert_eq!(expand_env_in_path("a/~", &none, "/home/me"), Ok("a/~".to_string()));
    assert_eq!(expand_env_in_path("", &none, "/home/me"), Ok("".to_string()));
}

#[test]
fn later_setting_of_a_variable_counts() {
    let mut v = vars(&[("A", "old")]);
    v.set("A".to_string(), "new".to_string());
    assert!(matches!(v.get("A"), Lookup::Value(text) if text == "new"));
    assert!(matches!(v.get("B"), Lookup::Absent));
    v.set_unreadable("A".to_string());
    assert!(matches!(v.get("A"), Lookup::Unreadable));
}
