use hoard::config::encrypt::protocol::gpg;
use hoard::config::encrypt::recipients::keys_same_protocol;
use hoard::config::encrypt::utils::{
    fingerprints_equal, format_fingerprint, keys_contain_fingerprint,
};
use hoard::config::encrypt::{Config, Engine, Key, Recipients};

const LONG: &str = "0123456789abcdef0123456789abcdefdeadbeef";

fn key(fingerprint: &str, users: &[&str]) -> Key {
    gpg::Key {
        fingerprint: fingerprint.to_string(),
        user_ids: users.iter().map(|u| u.to_string()).collect(),
    }
    .into_key()
}

#[test]
fn fingerprint_is_trimmed_and_in_upper_case() {
    assert_eq!(format_fingerprint("  ab12cd \n"), "AB12CD");
    assert_eq!(format_fingerprint("ab12cd"), "AB12CD");
    assert_eq!(format_fingerprint(" a b "), "A B");
    assert_eq!(format_fingerprint("   "), "");
    assert_eq!(format_fingerprint("straße"), "STRASSE");
}

#[test]
fn fingerprints_are_compared_in_normal_form() {
    assert!(fingerprints_equal("ab12", " AB12 "));
    assert!(fingerprints_equal(" Ab12\t", "aB12"));
    assert!(!fingerprints_equal("ab12", "ab13"));
    assert!(!fingerprints_equal("", ""));
    assert!(!fingerprints_equal("  ", ""));
    assert!(!fingerprints_equal("ab 12", "ab12"));
}

#[test]
fn gpg_key_shows_its_fingerprint() {
    let k = gpg::Key { fingerprint: format!(" {} ", LONG), user_ids: vec![] };
    assert_eq!(k.fingerprint(false), LONG.to_uppercase());
    let k = gpg::Key { fingerprint: LONG.to_string(), user_ids: vec![] };
    assert!(k.has_short_fingerprint());
    assert_eq!(k.fingerprint(true), "89ABCDEFDEADBEEF");
    let k = gpg::Key { fingerprint: "0123456789abcdef".to_string(), user_ids: vec![] };
    assert!(k.has_short_fingerprint());
    assert_eq!(k.fingerprint(true), "0123456789ABCDEF");
    let short = gpg::Key { fingerprint: "abc".to_string(), user_ids: vec![] };
    assert!(!short.has_short_fingerprint());
    let split = gpg::Key { fingerprint: "éabcdefghijklmno".to_string(), user_ids: vec![] };
    assert!(!split.has_short_fingerprint());
    assert_eq!(split.fingerprint(false), "ÉABCDEFGHIJKLMNO");
}

#[test]
fn gpg_key_shows_its_users() {
    let k = gpg::Key {
        fingerprint: LONG.to_string(),
        user_ids: vec!["Ann <ann@example.org>".into(), "Bob".into(), "".into()],
    };
    assert_eq!(k.display_user(), "Ann <ann@example.org>; Bob; ");
    let lone = gpg::Key { fingerprint: LONG.to_string(), user_ids: vec!["Ann".into()] };
    assert_eq!(lone.display_user(), "Ann");
    let nobody = gpg::Key { fingerprint: LONG.to_string(), user_ids: vec![] };
    assert_eq!(nobody.display_user(), "");
}

#[test]
fn gpg_keys_are_equal_by_fingerprint() {
    let a = gpg::Key { fingerprint: " ab12 ".into(), user_ids: vec!["x".into()] };
    let b = gpg::Key { fingerprint: "AB12".into(), user_ids: vec![] };
    let c = gpg::Key { fingerprint: "AB13".into(), user_ids: vec!["x".into()] };
    assert!(a == b);
    assert!(a != c);
    assert!(key(" ab12 ", &[]) == key("AB12", &["y"]));
    assert!(key("ab12", &[]) != key("ab13", &[]));
}

#[test]
fn key_of_any_engine_forwards_to_its_own() {
    let k = key(LONG, &["Ann", "Bob"]);
    assert_eq!(k.user_id(), "Ann; Bob");
    assert_eq!(k.protocol(), Engine::Gpg);
    assert_eq!(k.fingerprint(false), LONG.to_uppercase());
    assert!(k.has_short_fingerprint());
    assert_eq!(k.fingerprint(true), "89ABCDEFDEADBEEF");
    assert_eq!(Engine::Gpg.name(), "GPG");
}

#[test]
fn encryption_configuration_defaults() {
    let config = Config::default();
    assert_eq!(config.engine, Engine::Gpg);
    assert!(!config.gpg_tty);
    assert!(config.armor);
    let config = Config::from(Engine::Gpg);
    assert_eq!(config.engine, Engine::Gpg);
    assert!(!config.gpg_tty);
    assert!(config.armor);
}

#[test]
fn keys_contain_a_fingerprint() {
    let keys = vec![key("aa11", &[]), key(" bb22 ", &[])];
    assert!(keys_contain_fingerprint(&keys, "BB22"));
    assert!(keys_contain_fingerprint(&keys, " aa11"));
    assert!(!keys_contain_fingerprint(&keys, "cc33"));
    assert!(!keys_contain_fingerprint(&keys, ""));
    assert!(!keys_contain_fingerprint(&vec![], "aa11"));
    assert!(!keys_contain_fingerprint(&vec![key("  ", &[])], "  "));
}

#[test]
fn keys_of_one_engine_use_the_same_protocol() {
    assert!(keys_same_protocol(&vec![]));
    assert!(keys_same_protocol(&vec![key("aa", &[])]));
    assert!(keys_same_protocol(&vec![key("aa", &[]), key("bb", &[]), key("cc", &[])]));
}

#[test]
fn recipients_are_added_and_removed() {
    let mut recipients = Recipients::from(vec![key("aa", &[]), key("bb", &[])]);
    assert_eq!(recipients.keys().len(), 2);
    recipients.add(key("cc", &["Cee"]));
    recipients.add(key(" AA ", &["again"]));
    assert_eq!(recipients.keys().len(), 4);
    assert!(recipients.has_fingerprint("cc"));
    assert!(recipients.has_fingerprint(" Bb "));
    assert!(!recipients.has_fingerprint("dd"));
    recipients.remove(&key("aa", &[]));
    assert_eq!(
        recipients.keys().iter().map(|k| k.fingerprint(false)).collect::<Vec<_>>(),
        vec!["BB", "CC"]
    );
    recipients.remove(&key("zz", &[]));
    assert_eq!(recipients.keys().len(), 2);
    recipients.add(key("dd", &[]));
    recipients.remove_all(&vec![key("DD", &[]), key("bb", &[]), key("nope", &[])]);
    assert_eq!(
        recipients.keys().iter().map(|k| k.user_id()).collect::<Vec<_>>(),
        vec!["Cee"]
    );
    recipients.remove_all(&vec![]);
    assert_eq!(recipients.keys().len(), 1);
}
