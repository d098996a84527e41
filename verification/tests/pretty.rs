use getcat::body::cancel::Asker;
use getcat::body::pretty::{
    pretty_json, pretty_json_asking, pretty_json_cancellable, CHECK_INTERVAL,
};
use getcat::body::text::TextDoc;

fn pretty(s: &str) -> String {
    String::from_utf8(pretty_json(s.as_bytes())).unwrap()
}

#[test]
fn formats_nested_structures() {
    let input = r#"{"a":1,"b":[1,2,{"c":"x}y"}],"d":{},"e":[ ]}"#;
    let expected = "{\n  \"a\": 1,\n  \"b\": [\n    1,\n    2,\n    {\n      \"c\": \"x}y\"\n    }\n  ],\n  \"d\": {},\n  \"e\": []\n}";
    assert_eq!(pretty(input), expected);
}

#[test]
fn is_idempotent() {
    let once = pretty(r#"{"a":[1,{"b":null}],"c":"d"}"#);
    assert_eq!(pretty(&once), once);
}

#[test]
fn preserves_escapes_and_string_contents() {
    assert_eq!(
        pretty(r#"{"q":"a\"b","bs":"\\","sp":"x  y","colon":"a:b"}"#),
        "{\n  \"q\": \"a\\\"b\",\n  \"bs\": \"\\\\\",\n  \"sp\": \"x  y\",\n  \"colon\": \"a:b\"\n}"
    );
}

#[test]
fn passes_through_unicode_bytes() {
    assert_eq!(pretty(r#"{"名":"值"}"#), "{\n  \"名\": \"值\"\n}");
}

#[test]
fn scalar_top_level_unchanged() {
    assert_eq!(pretty("123"), "123");
    assert_eq!(pretty("\"s\""), "\"s\"");
}

#[test]
fn malformed_input_does_not_panic() {
    let _ = pretty_json(b"{{{");
    let _ = pretty_json(b"]]]");
    let _ = pretty_json(b"{\"a\":");
    let _ = pretty_json(&[0xFF, 0xFE, b'{']);
}

#[test]
fn malformed_input_is_printed_byte_by_byte() {
    assert_eq!(pretty_json(b"{{{"), b"{\n  {\n    {".to_vec());
    assert_eq!(pretty_json(b"]]]"), b"\n]\n]\n]".to_vec());
    assert_eq!(pretty_json(b"{\"a\":"), b"{\n  \"a\": ".to_vec());
    assert_eq!(pretty_json(&[0xFF, 0xFE, b'{']), vec![0xFF, 0xFE, b'{']);
}

#[test]
fn only_white_space_between_tokens_changes() {
    let input = "{ \"a b\" :\t[ 1 ,\n2 ] }";
    let out = pretty(input);
    let squeeze = |s: &str| s.replace(' ', "").replace(['\n', '\t'], "");
    assert_eq!(squeeze(&out), squeeze(input));
    assert!(out.contains("\"a b\""));
}

#[test]
fn cancellation_checked_at_start() {
    assert_eq!(pretty_json_cancellable(b"{\"a\":1}", || true), None);
}

#[test]
fn cancellation_checked_inside_long_whitespace_runs() {
    let big = format!("[{}]", " ".repeat(2 * CHECK_INTERVAL));
    let mut calls = 0;
    let out = pretty_json_cancellable(big.as_bytes(), || {
        calls += 1;
        calls > 2
    });
    assert_eq!(out, None);
    assert_eq!(calls, 3);
}

#[test]
fn cancellation_checked_every_interval() {
    let big = format!("[{}]", "1,".repeat(CHECK_INTERVAL));
    let mut calls = 0;
    let out = pretty_json_cancellable(big.as_bytes(), || {
        calls += 1;
        calls > 2
    });
    assert_eq!(out, None);
    assert_eq!(calls, 3);
}

#[test]
fn the_callback_is_asked_once_for_each_interval() {
    for (len, asked) in [(0, 0), (1, 1), (CHECK_INTERVAL, 1), (CHECK_INTERVAL + 1, 2)] {
        let mut calls = 0;
        let out = pretty_json_cancellable(&vec![b' '; len], || {
            calls += 1;
            false
        });
        assert_eq!(out, Some(vec![]));
        assert_eq!(calls, asked, "{len}");
    }
    assert_eq!(pretty_json_cancellable(b"", || true), Some(vec![]));
}

#[test]
fn an_asker_is_asked_by_one_step_after_the_other() {
    let mut calls = 0;
    let mut ask = Asker::new(|| {
        calls += 1;
        false
    });
    assert!(pretty_json_asking(b"{}", &mut ask).is_some());
    assert!(TextDoc::from_bytes_asking(b"{}".to_vec(), &mut ask).is_some());
    drop(ask);
    assert_eq!(calls, 2);
}
