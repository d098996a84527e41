use getcat::http::error::{background_failure, classify, error_chain, RequestError};
use getcat::http::sink::{report_due, BodyStore, Sink, SinkAction, HEAD_BYTES};
use getcat::http::{
    file_err, guess_content_type, prepare, spill_err, wire_headers, OutboundBody, USER_AGENT_VALUE,
};
use getcat::model::{BodyKind, Duration, FormField, KeyValue, Method, RawFormat, RequestDraft};

fn draft(m: Method, url: String) -> RequestDraft {
    RequestDraft {
        method: m,
        url,
        ..Default::default()
    }
}

#[test]
fn prepare_rejects_invalid_header_and_url() {
    let mut d = draft(Method::Get, "https://x.com".into());
    d.headers = vec![KeyValue::new("bad header", "x")];
    assert!(matches!(prepare(&d), Err(RequestError::InvalidHeader(_))));
    let d = draft(Method::Get, "".into());
    assert!(matches!(prepare(&d), Err(RequestError::InvalidUrl(_))));
}

#[test]
fn prepare_rejects_a_header_value_with_a_line_break() {
    let mut d = draft(Method::Get, "https://x.com".into());
    d.headers = vec![KeyValue::new("X-A", "a\nb")];
    assert!(matches!(prepare(&d), Err(RequestError::InvalidHeader(_))));
}

#[test]
fn prepare_skips_disabled_and_blank_headers() {
    let mut d = draft(Method::Get, "https://x.com".into());
    d.headers = vec![
        KeyValue::new("X-A", "1"),
        KeyValue {
            key: "X-B".into(),
            value: "2".into(),
            enabled: false,
        },
        KeyValue::new("  ", ""),
    ];
    let req = prepare(&d).unwrap();
    assert_eq!(req.headers, vec![("X-A".to_string(), "1".to_string())]);
}

#[test]
fn prepare_rejects_empty_file_path() {
    let mut d = draft(Method::Post, "https://x.com".into());
    d.body = BodyKind::File {
        path: String::new(),
        content_type: None,
    };
    assert!(matches!(prepare(&d), Err(RequestError::FileBody(_))));
}

#[test]
fn bodies_are_encoded_for_sending() {
    let mut d = draft(Method::Post, "https://x.com".into());
    d.body = BodyKind::FormUrlEncoded {
        fields: vec![
            KeyValue::new("a b", "1&2"),
            KeyValue {
                enabled: false,
                ..KeyValue::new("off", "x")
            },
            KeyValue::new("名", "é~"),
        ],
    };
    match prepare(&d).unwrap().body {
        OutboundBody::Bytes { content_type, data } => {
            assert_eq!(content_type, "application/x-www-form-urlencoded");
            assert_eq!(
                String::from_utf8(data).unwrap(),
                "a+b=1%262&%E5%90%8D=%C3%A9%7E"
            );
        }
        other => panic!("{other:?}"),
    }
    d.body = BodyKind::FormData {
        fields: vec![FormField::text("k", "v"), FormField::file("f", "/tmp/a.png")],
    };
    match prepare(&d).unwrap().body {
        OutboundBody::Form { parts } => {
            assert_eq!(parts.len(), 2);
            assert_eq!(parts[0].name, "k");
        }
        other => panic!("{other:?}"),
    }
    d.body = BodyKind::FormData {
        fields: vec![FormField::file("f", "")],
    };
    assert!(matches!(prepare(&d), Err(RequestError::FileBody(_))));
}

fn content_types(d: &RequestDraft) -> Vec<String> {
    wire_headers(&prepare(d).unwrap())
        .into_iter()
        .filter(|(k, _)| k.eq_ignore_ascii_case("content-type"))
        .map(|(_, v)| v)
        .collect()
}

fn body_text(d: &RequestDraft) -> String {
    match prepare(d).unwrap().body {
        OutboundBody::Bytes { data, .. } => String::from_utf8(data).unwrap(),
        other => panic!("{other:?}"),
    }
}

#[test]
fn post_raw_json_sets_content_type_and_user_agent() {
    let mut d = draft(Method::Post, "http://x.test/items".into());
    d.body = BodyKind::Raw {
        format: RawFormat::Json,
        text: r#"{"a":1}"#.into(),
    };
    assert_eq!(content_types(&d), ["application/json"]);
    assert_eq!(body_text(&d), r#"{"a":1}"#);
    assert_eq!(USER_AGENT_VALUE, "GetCat/0.1.0");
}

#[test]
fn user_content_length_header_is_not_forwarded() {
    let mut d = draft(Method::Post, "http://x.test".into());
    d.headers = vec![
        KeyValue::new("Content-Length", "1"),
        KeyValue::new("X-A", "1"),
        KeyValue::new("HOST", "y.test"),
        KeyValue::new("transfer-encoding", "chunked"),
    ];
    d.body = BodyKind::Raw {
        format: RawFormat::Text,
        text: "abc".into(),
    };
    let headers = wire_headers(&prepare(&d).unwrap());
    let names: Vec<&str> = headers.iter().map(|(k, _)| k.as_str()).collect();
    assert_eq!(names, ["X-A", "content-type"]);
    assert_eq!(body_text(&d), "abc");
}

#[test]
fn user_content_type_overrides_default() {
    let mut d = draft(Method::Post, "http://x.test".into());
    d.headers = vec![KeyValue::new("Content-Type", "text/plain")];
    d.body = BodyKind::Raw {
        format: RawFormat::Json,
        text: "{}".into(),
    };
    assert_eq!(content_types(&d), ["text/plain"]);
}

#[test]
fn user_content_type_overrides_file_guess() {
    let mut d = draft(Method::Post, "http://x.test".into());
    d.body = BodyKind::File {
        path: "/tmp/upload.bin".into(),
        content_type: Some("application/octet-stream".into()),
    };
    assert_eq!(content_types(&d), ["application/octet-stream"]);
    d.headers = vec![KeyValue::new("Content-Type", "text/plain")];
    assert_eq!(content_types(&d), ["text/plain"]);
}

#[test]
fn form_urlencoded_body() {
    let mut d = draft(Method::Post, "http://x.test".into());
    d.body = BodyKind::FormUrlEncoded {
        fields: vec![
            KeyValue::new("a", "1"),
            KeyValue::new("b", "x y"),
            KeyValue {
                key: "c".into(),
                value: "off".into(),
                enabled: false,
            },
        ],
    };
    assert_eq!(content_types(&d), ["application/x-www-form-urlencoded"]);
    assert_eq!(body_text(&d), "a=1&b=x+y");
}

#[test]
fn path_and_query_params_are_applied() {
    let mut d = draft(Method::Get, "http://x.test/users/{id}".into());
    d.path_params = vec![KeyValue::new("id", "7")];
    d.params = vec![KeyValue::new("page", "2")];
    let url = prepare(&d).unwrap().url;
    assert_eq!(url.path(), "/users/7");
    assert_eq!(url.query(), Some("page=2"));
}

#[test]
fn content_type_is_guessed_from_extension() {
    assert_eq!(guess_content_type("a.JSON"), "application/json");
    assert_eq!(guess_content_type("a.xml"), "application/xml");
    assert_eq!(guess_content_type("a.txt"), "text/plain");
    assert_eq!(guess_content_type("a.png"), "image/png");
    assert_eq!(guess_content_type("a.jpeg"), "image/jpeg");
    assert_eq!(guess_content_type("a"), "application/octet-stream");
    assert_eq!(guess_content_type("a.weird"), "application/octet-stream");
    assert_eq!(guess_content_type("/x.json/a"), "application/octet-stream");
    assert_eq!(guess_content_type(".json"), "application/octet-stream");
    assert_eq!(guess_content_type("a.json/"), "application/json");
    assert_eq!(guess_content_type("/x/a.json//./"), "application/json");
    assert_eq!(guess_content_type("a.json/.."), "application/octet-stream");
    assert_eq!(guess_content_type("/"), "application/octet-stream");
}

#[test]
fn connection_refused_is_classified() {
    let chain = "error sending request: client error (Connect): tcp connect error: \
                 Connection refused (os error 111)";
    let err = classify(false, chain.into());
    assert!(matches!(err, RequestError::ConnectionRefused(_)), "{err:?}");
}

#[test]
fn missing_file_is_reported_as_file_body_error() {
    let err = file_err("/nonexistent/getcat/upload.bin", "No such file or directory");
    assert!(matches!(err, RequestError::FileBody(_)), "{err:?}");
    assert!(err.message().contains("upload.bin"));
}

#[test]
fn dns_failure_is_classified() {
    let chain = "error sending request: client error (Connect): dns error: \
                 failed to lookup address information: Name or service not known";
    let err = classify(false, chain.into());
    assert!(matches!(err, RequestError::Dns(_)), "{err:?}");
}

#[test]
fn errors_are_sorted_into_kinds() {
    let of = |s: &str| classify(false, s.to_string());
    assert_eq!(classify(true, "x".into()), RequestError::Timeout);
    assert!(matches!(of("dns error: no such host"), RequestError::Dns(_)));
    assert!(matches!(
        of("tcp connect error: Connection refused (os error 111)"),
        RequestError::ConnectionRefused(_)
    ));
    assert!(matches!(of("invalid peer certificate"), RequestError::Tls(_)));
    assert!(matches!(of("something else"), RequestError::Other(_)));
}

#[test]
fn an_error_chain_is_joined() {
    assert_eq!(
        error_chain(&["a".to_string(), "b".to_string(), "c".to_string()]),
        "a: b: c"
    );
    assert_eq!(error_chain(&["a".to_string()]), "a");
}

#[test]
fn failures_of_the_program_itself_are_told_by_their_text() {
    match background_failure("boom") {
        RequestError::Other(s) => assert_eq!(s, "后台处理异常：boom"),
        other => panic!("{other:?}"),
    }
    assert!(matches!(file_err("/p", "denied"), RequestError::FileBody(s) if s == "/p：denied"));
    assert!(matches!(spill_err("full"), RequestError::Spill(s) if s == "full"));
}

#[test]
fn every_error_has_a_label_and_a_message() {
    let all = [
        RequestError::InvalidUrl("x".into()),
        RequestError::InvalidHeader("x".into()),
        RequestError::Unsupported("x".into()),
        RequestError::Dns("x".into()),
        RequestError::ConnectionRefused("x".into()),
        RequestError::Tls("x".into()),
        RequestError::Timeout,
        RequestError::Spill("x".into()),
        RequestError::FileBody("x".into()),
        RequestError::Cancelled,
        RequestError::Other("x".into()),
    ];
    let labels: Vec<&str> = all.iter().map(|e| e.kind_label()).collect();
    for (i, a) in labels.iter().enumerate() {
        assert!(!a.is_empty());
        assert!(!labels[i + 1..].contains(a), "{a}");
    }
    for e in &all {
        assert!(!e.message().is_empty());
        assert_eq!(e.clone(), *e);
    }
}

fn receive(chunks: &[&[u8]], threshold: u64) -> (BodyStore, Vec<u8>) {
    let expected = chunks.iter().map(|c| c.len() as u64).sum();
    let mut sink = Sink::with_capacity(Some(expected), threshold);
    let mut disk: Vec<u8> = Vec::new();
    for chunk in chunks {
        match sink.push(chunk, threshold) {
            SinkAction::Keep => {}
            SinkAction::Spill(bytes) => {
                assert!(disk.is_empty());
                disk.extend_from_slice(&bytes);
                disk.extend_from_slice(chunk);
            }
            SinkAction::Append => disk.extend_from_slice(chunk),
        }
    }
    (sink.finish("/tmp/body"), disk)
}

#[test]
fn body_at_or_below_threshold_stays_in_memory() {
    for size in [1023usize, 1024] {
        let (body, disk) = receive(&[&vec![b'a'; size]], 1024);
        assert!(!body.is_spilled(), "{size} bytes must stay in memory");
        assert_eq!(body.memory().unwrap().len(), size);
        assert_eq!(body.path(), None);
        assert!(disk.is_empty());
    }
    let (body, disk) = receive(&[b"abc", b"de"], 5);
    assert_eq!(body, BodyStore::in_memory(b"abcde".to_vec()));
    assert!(disk.is_empty());
    assert_eq!(body.memory(), Some(&b"abcde"[..]));
    assert_eq!(body.head(2), b"ab");
}

#[test]
fn body_over_threshold_is_spilled_to_disk_with_head() {
    let mut full = vec![b'a'; 1025];
    full[0] = b'{';
    full[1024] = b'z';
    let (body, disk) = receive(&[&full[..600], &full[600..]], 1024);
    assert!(body.is_spilled());
    assert!(body.memory().is_none());
    assert_eq!(body.len(), 1025);
    assert_eq!(body.head(4), b"{aaa");
    assert_eq!(body.head(usize::MAX), &full[..]);
    assert_eq!(body.path(), Some("/tmp/body"));
    assert_eq!(disk, full);
    let (body, disk) = receive(&[b"abc", b"def", b"g"], 5);
    assert_eq!(disk, b"abcdefg");
    assert_eq!(body.len(), 7);
    assert_eq!(body.head(HEAD_BYTES), b"abcdefg");
}

#[test]
fn spilled_head_is_capped_at_head_bytes() {
    let size = HEAD_BYTES + 1;
    let (body, disk) = receive(&[&vec![b'b'; size]], 4096);
    assert!(body.is_spilled());
    assert_eq!(body.head(usize::MAX).len(), HEAD_BYTES);
    assert_eq!(body.len(), size as u64);
    assert_eq!(disk.len(), size);
}

#[test]
fn progress_is_throttled() {
    assert!(!report_due(Duration::from_millis(32)));
    assert!(report_due(Duration::from_millis(33)));
    assert!(report_due(Duration::from_secs(1)));
}
