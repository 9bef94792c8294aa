use shortclip::auth::{AuthRegistry, TokensMalformed};

#[test]
fn parse_tokens_file() {
    let reg = AuthRegistry::parse("T alice\nU bob smith\r\n").unwrap();
    assert_eq!(reg.lookup("T").as_deref(), Some("alice"));
    assert_eq!(reg.lookup("U").as_deref(), Some("bob smith"));
    assert_eq!(reg.lookup("V"), None);
    assert_eq!(reg.lookup("alice"), None);
}

#[test]
fn later_line_replaces_earlier() {
    let reg = AuthRegistry::parse("T alice\nT bob").unwrap();
    assert_eq!(reg.lookup("T").as_deref(), Some("bob"));
}

#[test]
fn malformed_line_is_reported() {
    assert_eq!(AuthRegistry::parse("T alice\nnospace\nU bob").err(), Some(TokensMalformed { line: 1 }));
    assert_eq!(AuthRegistry::parse("T alice\n\n").err(), Some(TokensMalformed { line: 1 }));
    assert_eq!(AuthRegistry::parse("last").err(), Some(TokensMalformed { line: 0 }));
}

#[test]
fn empty_file_has_no_tokens() {
    let reg = AuthRegistry::parse("").unwrap();
    assert_eq!(reg.lookup(""), None);
    let reg = AuthRegistry::parse(" empty-token\n").unwrap();
    assert_eq!(reg.lookup("").as_deref(), Some("empty-token"));
}

#[test]
fn insert_and_lookup() {
    let mut reg = AuthRegistry::empty();
    reg.insert("k".to_string(), "v".to_string());
    reg.insert("k".to_string(), "w".to_string());
    assert_eq!(reg.lookup("k").as_deref(), Some("w"));
}
