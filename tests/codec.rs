use base64::Engine;
use shortclip::ident::object_id;
use shortclip::metadata::{Metadata, MetadataError};
use std::hash::Hasher;

fn expected_id(data: &[u8]) -> String {
    let mut h = rustc_hash::FxHasher::default();
    h.write(data);
    base64::engine::general_purpose::URL_SAFE_NO_PAD.encode(h.finish().to_le_bytes())
}

#[test]
fn id_matches_hash_and_encoding() {
    for data in [&b"hello"[..], b"", b"x", b"https://example.com/"] {
        let id = object_id(data);
        assert_eq!(id, expected_id(data));
        assert_eq!(id.len(), 11);
        assert!(!id.contains('='));
        assert!(id.chars().all(|c| c.is_ascii_alphanumeric() || c == '-' || c == '_'));
    }
}

#[test]
fn id_is_deterministic_and_differs() {
    assert_eq!(object_id(b"hello"), object_id(&b"hello".to_vec()));
    assert_ne!(object_id(b"hello"), object_id(b"hellp"));
}

#[test]
fn metadata_json_canonical() {
    let m = Metadata::created_at_time("alice", "text/plain", None, 1700000000);
    assert_eq!(
        m.to_string(),
        "{\"version\":1,\"created_at\":1700000000,\"expires_at\":null,\"author\":\"alice\",\"content_type\":\"text/plain\"}"
    );
}

#[test]
fn metadata_json_escapes_and_expiry() {
    let m = Metadata::created_at_time("a\"b\\c\n\u{1}", "x/y", Some(60), 0);
    let s = m.to_string();
    assert_eq!(
        s,
        "{\"version\":1,\"created_at\":0,\"expires_at\":60,\"author\":\"a\\\"b\\\\c\\n\\u0001\",\"content_type\":\"x/y\"}"
    );
    let v: serde_json::Value = serde_json::from_str(&s).unwrap();
    assert_eq!(v["author"].as_str(), Some("a\"b\\c\n\u{1}"));
}

#[test]
fn metadata_expiry_saturates() {
    let m = Metadata::created_at_time("a", "b", Some(10), u64::MAX - 3);
    assert_eq!(m.expires_at, Some(u64::MAX));
    assert_eq!(m.created_at, u64::MAX - 3);
    assert_eq!(m.version, 1);
}

#[test]
fn metadata_now() {
    let m = Metadata::new("bob", "image/png", None).unwrap();
    assert_eq!(m.author, "bob");
    assert_eq!(m.content_type, "image/png");
    assert_eq!(m.expires_at, None);
    assert!(m.created_at > 1_600_000_000);
    let m = Metadata::new("bob", "image/png", Some(5)).unwrap();
    assert_eq!(m.expires_at, Some(m.created_at + 5));
}

#[test]
fn metadata_reads_back() {
    for m in [
        Metadata::created_at_time("alice", "text/plain", None, 1700000000),
        Metadata::created_at_time("a\"b\\c\n\u{1}\u{1f} é", "image/png", Some(7), 0),
        Metadata::created_at_time("", "", Some(u64::MAX), u64::MAX),
    ] {
        let text = m.to_string();
        let back = Metadata::from_str(&text).unwrap();
        assert_eq!(back.version, m.version);
        assert_eq!(back.created_at, m.created_at);
        assert_eq!(back.expires_at, m.expires_at);
        assert_eq!(back.author, m.author);
        assert_eq!(back.content_type, m.content_type);
        let again = Metadata::from_slice(text.as_bytes()).unwrap();
        assert_eq!(again.author, m.author);
    }
}

#[test]
fn metadata_reads_short_escapes() {
    let text = "{\"version\":1,\"created_at\":5,\"expires_at\":9,\"author\":\"x\\ty\\u001f\\/\",\"content_type\":\"a/b\"}";
    assert!(Metadata::from_str(text).is_err());
    let text = "{\"version\":1,\"created_at\":5,\"expires_at\":9,\"author\":\"x\\ty\\u001f\",\"content_type\":\"a/b\"}";
    let m = Metadata::from_str(text).unwrap();
    assert_eq!(m.author, "x\ty\u{1f}");
    assert_eq!(m.expires_at, Some(9));
}

#[test]
fn metadata_rejects_malformed() {
    let ok = "{\"version\":1,\"created_at\":5,\"expires_at\":null,\"author\":\"a\",\"content_type\":\"b\"}";
    assert!(Metadata::from_str(ok).is_ok());
    assert_eq!(Metadata::from_str(&ok.replace("1,", "256,")).err(), Some(MetadataError::Malformed));
    assert_eq!(Metadata::from_str(&format!("{ok} ")).err(), Some(MetadataError::Malformed));
    assert_eq!(Metadata::from_str(&ok.replace("\"b\"}", "\"b}")).err(), Some(MetadataError::Malformed));
    assert_eq!(Metadata::from_str("").err(), Some(MetadataError::Malformed));
    assert_eq!(Metadata::from_str(&ok.replace("5", "18446744073709551616")).err(), Some(MetadataError::Malformed));
    assert_eq!(Metadata::from_slice(&[0xff]).err(), Some(MetadataError::NotUtf8));
}

#[test]
fn metadata_sample_record() {
    let m = Metadata {
        version: 1,
        created_at: 5,
        expires_at: None,
        author: "alice".to_string(),
        content_type: "text/plain".to_string(),
    };
    assert_eq!(
        m.to_string(),
        r#"{"version":1,"created_at":5,"expires_at":null,"author":"alice","content_type":"text/plain"}"#
    );
}
