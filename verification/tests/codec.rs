use getcat::store::codec::{decode, encode, migrate, StoreError, FORMAT_VERSION};

fn parse(text: &str) -> serde_json::Value {
    serde_json::from_str(text).unwrap()
}

#[test]
fn encode_stamps_version_and_decode_roundtrips() {
    let doc = parse(r#"{"id":"01J","name":"x","draft":{"method":"POST"}}"#);
    let bytes = encode(doc.clone()).unwrap();
    let text = std::str::from_utf8(&bytes).unwrap();
    assert!(text.contains("\"version\": 1"), "{text}");
    assert!(text.ends_with('\n'));
    let back = decode(&bytes).unwrap();
    for key in ["id", "name", "draft"] {
        assert_eq!(back.get(key), doc.get(key));
    }
}

#[test]
fn decode_rejects_missing_version() {
    let err = decode(b"{}").unwrap_err();
    assert!(matches!(err, StoreError::MissingVersion), "{err:?}");
}

#[test]
fn decode_rejects_unknown_version() {
    let err = decode(br#"{"version": 2}"#).unwrap_err();
    assert!(matches!(err, StoreError::UnsupportedVersion(2)), "{err:?}");
}

#[test]
fn decode_reports_invalid_json() {
    let err = decode(b"{not json").unwrap_err();
    assert!(matches!(err, StoreError::Json(_)), "{err:?}");
}

#[test]
fn encode_rejects_non_object_documents() {
    assert!(matches!(encode(parse("5")), Err(StoreError::Json(_))));
}

#[test]
fn only_the_current_version_is_migrated() {
    assert!(migrate(FORMAT_VERSION, parse("{}")).is_ok());
    assert!(matches!(
        migrate(7, parse("{}")),
        Err(StoreError::UnsupportedVersion(7))
    ));
    for e in [
        StoreError::NoDataDir,
        StoreError::Io("x".into()),
        StoreError::Json("x".into()),
        StoreError::MissingVersion,
        StoreError::UnsupportedVersion(3),
        StoreError::Unwritable {
            path: "/p".into(),
            source: "denied".into(),
        },
    ] {
        assert!(!e.message().is_empty());
    }
}

#[test]
fn signed_numbers_and_deep_documents_read_back() {
    let deep = format!("{}{}", "[".repeat(126), "]".repeat(126));
    let doc = parse(&format!(
        r#"{{"a":-9223372036854775808,"b":18446744073709551615,"c":-1,"d":{deep}}}"#
    ));
    let back = decode(&encode(doc.clone()).unwrap()).unwrap();
    for key in ["a", "b", "c", "d"] {
        assert_eq!(back.get(key), doc.get(key));
    }
}
