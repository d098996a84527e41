use getcat::model::{KeyValue, RequestDraft};
use getcat::url::{build_url, check_room, extract_path_params, UrlError};

fn draft(url: &str) -> RequestDraft {
    RequestDraft {
        url: url.into(),
        ..Default::default()
    }
}

#[test]
fn empty_url_is_error() {
    assert_eq!(build_url(&draft("   ")), Err(UrlError::Empty));
}

#[test]
fn missing_scheme_defaults_to_http() {
    let u = build_url(&draft("example.com/a")).unwrap();
    assert_eq!(u.as_str(), "http://example.com/a");
}

#[test]
fn unsupported_scheme_is_error() {
    assert!(matches!(
        build_url(&draft("ftp://x.com")),
        Err(UrlError::Invalid(_))
    ));
}

#[test]
fn substitutes_enabled_path_params() {
    let mut d = draft("https://x.com/users/{id}/posts/{post}");
    d.path_params = vec![
        KeyValue::new("id", "42"),
        KeyValue {
            key: "post".into(),
            value: "9".into(),
            enabled: false,
        },
    ];
    let u = build_url(&d).unwrap();
    assert_eq!(u.path(), "/users/42/posts/%7Bpost%7D");
}

#[test]
fn path_params_are_filled_in_one_pass() {
    let mut d = draft("https://x.com/{a}/{b}");
    d.path_params = vec![KeyValue::new("a", "{b}"), KeyValue::new("b", "2")];
    let u = build_url(&d).unwrap();
    assert_eq!(u.path(), "/%7Bb%7D/2");
}

#[test]
fn appends_enabled_query_params_and_keeps_existing() {
    let mut d = draft("https://x.com/s?q=1");
    d.params = vec![
        KeyValue::new("page", "2"),
        KeyValue {
            key: "skip".into(),
            value: "x".into(),
            enabled: false,
        },
        KeyValue::new("", "ignored-empty-key"),
        KeyValue::new("t", "a b"),
    ];
    let u = build_url(&d).unwrap();
    assert_eq!(u.query(), Some("q=1&page=2&t=a+b"));
    assert_eq!(u.scheme(), "https");
}

#[test]
fn no_params_leaves_query_untouched() {
    let u = build_url(&draft("https://x.com/s")).unwrap();
    assert_eq!(u.as_str(), "https://x.com/s");
}

#[test]
fn a_broken_url_is_reported() {
    match build_url(&draft("http://[")) {
        Err(e) => assert!(e.message().len() > 0),
        Ok(u) => panic!("{u:?}"),
    }
    assert_eq!(UrlError::Empty.message(), "URL 不能为空");
}

#[test]
fn extracts_path_param_names_in_order_without_duplicates() {
    assert_eq!(
        extract_path_params("/a/{id}/b/{id}/{name}?x={}"),
        vec!["id".to_string(), "name".to_string()]
    );
    assert!(extract_path_params("https://x.com/plain").is_empty());
    assert!(extract_path_params("https://x.com/{unclosed").is_empty());
}

#[test]
fn the_query_stands_before_the_fragment() {
    let mut d = draft("http://x.com/a?p=1#part");
    d.params = vec![KeyValue::new("q", "a b&c")];
    let u = build_url(&d).unwrap();
    assert_eq!(u.as_str(), "http://x.com/a?p=1&q=a+b%26c#part");
    assert_eq!((u.scheme(), u.path(), u.query()), ("http", "/a", Some("p=1&q=a+b%26c")));
    assert!(check_room(&u, &vec![("q".to_string(), "v".repeat(1000))]));
    let mut d = draft("http://x.com/?#");
    d.params = vec![KeyValue::new("名", "*-._"), KeyValue::new("z", "")];
    let u = build_url(&d).unwrap();
    assert_eq!(u.as_str(), "http://x.com/?%E5%90%8D=*-._&z=#");
}
