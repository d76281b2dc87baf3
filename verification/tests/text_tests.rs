use pf2e_companion::keystore::{has_key, key_name};
use pf2e_companion::text::{i64_to_string, slug, u64_to_string};

#[test]
fn slug_normalizes() {
    assert_eq!(slug("Heaven (the Throne Room)"), "heaven-the-throne-room");
}

#[test]
fn slugify_collapses_punctuation() {
    assert_eq!(slug("Lord Cassian!"), "lord-cassian");
    assert_eq!(slug("YHWH (Lord of Hosts)"), "yhwh-lord-of-hosts");
}

#[test]
fn slug_basic() {
    assert_eq!(slug("Lord Cassian!"), "lord-cassian");
    assert_eq!(slug("House Velerian"), "house-velerian");
    assert_eq!(slug("YHWH (Lord of Hosts)"), "yhwh-lord-of-hosts");
}

#[test]
fn slug_edges() {
    assert_eq!(slug(""), "");
    assert_eq!(slug("!!!"), "");
    assert_eq!(slug("--a--b--"), "a-b");
    assert_eq!(slug("Émile Zola"), "mile-zola");
    assert_eq!(slug("already-a-slug"), "already-a-slug");
    // A slug is its own slug.
    let once = slug("  The Seven Churches of Asia ");
    assert_eq!(slug(&once), once);
}

#[test]
fn decimal_text() {
    assert_eq!(i64_to_string(0), "0");
    assert_eq!(i64_to_string(-1), "-1");
    assert_eq!(i64_to_string(i64::MIN), "-9223372036854775808");
    assert_eq!(u64_to_string(u64::MAX), "18446744073709551615");
}

#[test]
fn key_names() {
    assert_eq!(key_name("anthropic"), "anthropic_api_key");
    assert_eq!(key_name(""), "_api_key");
}

#[test]
fn stored_key_lookups() {
    assert!(has_key(&Ok(Some("sk-ant-fake".to_string()))));
    assert!(!has_key(&Ok(None)));
    assert!(!has_key(&Err("keychain locked".to_string())));
}
