use getcat::body::tier::{ViewTier, EDITOR_MAX_BYTES, EDITOR_MAX_LINES};
use getcat::http::error::{RequestError, PREPARE_PANIC_PREFIX};
use getcat::http::received::{meta_of, session_dir_name, spill_file_name};
use getcat::http::reception::Reception;
use getcat::http::sink::{BodyStore, SinkAction};
use getcat::model::{Duration, ResponseMeta};
use getcat::response::{
    detect, file_extension, guarded, panic_message, ContentKind, ResponseState, ResponseView,
    SNIFF_LEN,
};

fn meta(ct: Option<&str>, len: u64) -> ResponseMeta {
    ResponseMeta {
        status: 200,
        status_text: "OK".into(),
        headers: vec![("x-a".into(), "1".into()), ("x-b".into(), "2".into())],
        duration: Duration::from_millis(1),
        body_len: len,
        content_type: ct.map(str::to_string),
    }
}

fn mem(body: &[u8]) -> BodyStore {
    BodyStore::in_memory(body.to_vec())
}

fn prepare(ct: Option<&str>, body: &[u8]) -> ResponseView {
    ResponseView::prepare(meta(ct, body.len() as u64), &mem(body))
}

fn spilled(head: &[u8]) -> BodyStore {
    BodyStore::Spilled {
        file: "/tmp/getcat-1/000001.body".into(),
        len: 100 * 1024 * 1024,
        head: head.to_vec(),
    }
}

#[test]
fn small_json_gets_editor_tier_with_pretty() {
    let v = prepare(Some("application/json"), br#"{"a":1}"#);
    assert_eq!(v.kind, ContentKind::Json);
    let raw = v.raw.as_ref().unwrap();
    let pretty = v.pretty.as_ref().unwrap();
    assert_eq!(raw.tier, ViewTier::Editor);
    assert_eq!(pretty.tier, ViewTier::Editor);
    assert_eq!(raw.doc.text(), r#"{"a":1}"#);
    assert_eq!(pretty.doc.text(), "{\n  \"a\": 1\n}");
    assert_eq!(pretty.doc.line_count(), 3);
    assert!(v.has_pretty());
    assert!(!v.is_preview());
    assert_eq!(v.doc(true).unwrap().doc.text(), pretty.doc.text());
    assert_eq!(v.doc(false).unwrap().doc.text(), raw.doc.text());
}

#[test]
fn text_has_no_pretty_and_doc_falls_back_to_raw() {
    let v = prepare(Some("text/plain"), b"hi");
    assert!(v.pretty.is_none());
    assert!(!v.has_pretty());
    assert_eq!(v.doc(true).unwrap().doc.text(), "hi");
}

#[test]
fn oversized_text_switches_to_virtual_tier() {
    let big = vec![b'x'; EDITOR_MAX_BYTES + 1];
    let v = prepare(Some("text/plain"), &big);
    assert_eq!(v.raw.as_ref().unwrap().tier, ViewTier::Virtual);
    assert_eq!(v.raw.as_ref().unwrap().doc.line_count(), 1);
}

#[test]
fn too_many_lines_switch_to_virtual_tier() {
    let many = "a\n".repeat(EDITOR_MAX_LINES + 1);
    let v = prepare(Some("text/plain"), many.as_bytes());
    assert_eq!(v.raw.as_ref().unwrap().tier, ViewTier::Virtual);
    assert_eq!(
        v.raw.as_ref().unwrap().doc.line_count(),
        EDITOR_MAX_LINES + 1
    );
}

#[test]
fn pretty_and_raw_choose_tiers_independently() {
    let compact = format!("[{}1]", "1,".repeat(250_000));
    let v = prepare(
        Some("application/json"),
        compact.as_bytes(),
    );
    assert_eq!(v.raw.as_ref().unwrap().tier, ViewTier::Editor);
    assert_eq!(v.pretty.as_ref().unwrap().tier, ViewTier::Virtual);
}

#[test]
fn spilled_body_is_preview_of_head_only() {
    let body = spilled(br#"{"a":1}"#);
    let v = ResponseView::prepare(
        meta(Some("application/json"), 100 * 1024 * 1024),
        &body,
    );
    assert!(v.is_preview());
    assert!(
        v.pretty.is_none(),
        "spilled bodies are never pretty-printed"
    );
    let raw = v.raw.as_ref().unwrap();
    assert_eq!(raw.tier, ViewTier::Preview);
    assert_eq!(raw.doc.text(), r#"{"a":1}"#);
}

#[test]
fn binary_body_has_no_docs() {
    let v = prepare(Some("image/png"), b"\x89PNG\0");
    assert_eq!(v.kind, ContentKind::Binary);
    assert!(v.raw.is_none() && v.pretty.is_none());
    assert!(v.doc(true).is_none());
}

#[test]
fn header_rows_are_prepared_once() {
    let v = prepare(None, b"x");
    assert_eq!(v.header_rows.len(), 2);
    assert_eq!(v.header_rows[0].0, "x-a");
    assert_eq!(v.header_rows[1].1, "2");
}

#[test]
fn cancellation_aborts_preparation() {
    let body = mem(br#"{"a":1}"#);
    assert!(ResponseView::prepare_cancellable(
        meta(Some("application/json"), 7),
        &body,
        || true
    )
    .is_none());
}

#[test]
fn binary_content_is_prepared_without_asking() {
    let v = ResponseView::prepare_cancellable(
        meta(None, 1),
        &mem(b"\0"),
        || panic!("asked"),
    );
    assert!(v.is_some());
}

#[test]
fn spilled_head_is_trimmed_at_a_utf8_boundary() {
    let full = "名名".as_bytes();
    // the head is cut in the middle of the second character
    let body = spilled(&full[..full.len() - 1]);
    let v = ResponseView::prepare(
        meta(Some("text/plain"), 100 * 1024 * 1024),
        &body,
    );
    assert_eq!(v.raw.as_ref().unwrap().doc.text(), "名");
}

fn prepare_guarded(
    meta: ResponseMeta,
    body: BodyStore,
    panicked: Option<&str>,
    cancelled: bool,
) -> Option<Result<(BodyStore, ResponseView), RequestError>> {
    let outcome = match panicked {
        Some(text) => Err(panic_message(Some(text))),
        None => Ok(ResponseView::prepare_cancellable(
            meta,
            &body,
            || cancelled,
        )),
    };
    guarded(body, outcome)
}

#[test]
fn prepare_guarded_turns_a_panic_into_failed() {
    let body = mem(br#"{"a":1}"#);
    let result = prepare_guarded(
        meta(Some("application/json"), 7),
        body,
        Some("boom in background"),
        false,
    );
    match result {
        Some(Err(RequestError::Other(msg))) => {
            assert!(msg.starts_with(PREPARE_PANIC_PREFIX), "{msg}");
            assert!(msg.contains("boom in background"), "{msg}");
        }
        other => panic!(
            "expected Some(Err(Other)), got {:?}",
            other.map(|r| r.map(|_| ()))
        ),
    }
    assert!(matches!(
        prepare_guarded(
            meta(Some("application/json"), 7),
            mem(br#"{"a":1}"#),
            None,
            false
        ),
        Some(Ok(_))
    ));
    assert!(prepare_guarded(meta(None, 2), mem(b"{}"), None, true).is_none());
    assert_eq!(panic_message(None), "unknown panic");
}

#[test]
fn states_tell_what_they_are() {
    assert!(ResponseState::InFlight {
        received: 0,
        total: None
    }
    .is_in_flight());
    assert!(!ResponseState::Idle.is_in_flight());
    let failed = ResponseState::finished(Err(RequestError::Timeout));
    assert_eq!(failed.error(), Some(&RequestError::Timeout));
    let view = prepare(None, b"x");
    let done = ResponseState::finished(Ok((mem(b"x"), view)));
    assert!(done.is_done() && done.error().is_none());
}

#[test]
fn each_kind_has_an_extension_and_a_language() {
    let all = [
        (ContentKind::Json, "json", "json"),
        (ContentKind::Xml, "xml", "html"),
        (ContentKind::Html, "html", "html"),
        (ContentKind::Text, "txt", "text"),
        (ContentKind::Binary, "bin", "text"),
    ];
    for (kind, extension, language) in all {
        assert_eq!(file_extension(kind), extension);
        assert_eq!(kind.editor_language(), language);
        assert_eq!(kind.is_text(), kind != ContentKind::Binary);
    }
}

#[test]
fn received_headers_become_text() {
    let m = meta_of(
        404,
        Some("Not Found"),
        vec![
            ("x-raw".into(), vec![b'a', 0xff]),
            ("Content-Type".into(), b"text/html; charset=utf-8".to_vec()),
            ("content-type".into(), b"text/plain".to_vec()),
        ],
        Duration::from_millis(5),
        3,
    );
    assert_eq!((m.status, m.status_text.as_str(), m.body_len), (404, "Not Found", 3));
    assert_eq!(m.headers[0].1, "a\u{FFFD}");
    assert_eq!(m.content_type.as_deref(), Some("text/html; charset=utf-8"));
    let odd = meta_of(
        200,
        None,
        vec![("content-type".into(), vec![0xe5, 0x90, 0x8d])],
        Duration::from_millis(5),
        0,
    );
    assert_eq!(odd.content_type, None);
    assert_eq!(odd.headers[0].1, "名");
    assert_eq!(odd.status_text, "");
}

#[test]
fn session_dir_is_per_process() {
    for process in [1u32, 4711] {
        assert!(session_dir_name(process).ends_with(&format!("getcat-{process}")));
    }
}

#[test]
fn bodies_on_disk_have_names_of_their_own() {
    assert_eq!(session_dir_name(4711), "getcat-4711");
    assert_eq!(spill_file_name(1), "000001.body");
    assert_eq!(spill_file_name(1_234_567), "1234567.body");
    assert_ne!(spill_file_name(10), spill_file_name(100));
}

fn reception(total: Option<u64>, threshold: u64) -> Reception {
    Reception::new(
        200,
        Some("OK".into()),
        vec![("content-type".into(), b"text/plain".to_vec())],
        total,
        threshold,
        Duration::from_millis(10),
    )
}

#[test]
fn progress_is_reported_at_most_every_interval() {
    let mut r = reception(Some(9), 100);
    assert_eq!(r.chunk(b"abc", Duration::from_millis(42)).report, None);
    let report = r.chunk(b"def", Duration::from_millis(43)).report.unwrap();
    assert_eq!((report.received, report.total), (6, Some(9)));
    assert_eq!(report.elapsed, Duration::from_millis(43));
    assert_eq!(r.chunk(b"ghi", Duration::from_millis(75)).report, None);
    let (last, resp) = r.finish("", Duration::from_millis(80));
    assert_eq!((last.received, last.total), (9, Some(9)));
    assert_eq!(resp.meta.duration, Duration::from_millis(80));
    assert_eq!(resp.meta.body_len, 9);
    assert_eq!(resp.meta.content_type.as_deref(), Some("text/plain"));
    assert_eq!(resp.body.memory(), Some(&b"abcdefghi"[..]));
}

#[test]
fn get_returns_status_headers_and_body() {
    let mut r = Reception::new(
        200,
        Some("OK".into()),
        vec![
            ("x-test".into(), b"1".to_vec()),
            ("content-type".into(), b"text/plain".to_vec()),
        ],
        Some(2),
        100,
        Duration::from_millis(0),
    );
    r.chunk(b"hi", Duration::from_millis(1));
    let (_, resp) = r.finish("", Duration::from_millis(2));
    assert_eq!(resp.meta.status, 200);
    assert_eq!(resp.meta.status_text, "OK");
    assert_eq!(resp.body.memory().unwrap(), b"hi");
    assert_eq!(resp.meta.body_len, 2);
    assert_eq!(resp.meta.content_type.as_deref(), Some("text/plain"));
    assert!(resp
        .meta
        .headers
        .iter()
        .any(|(k, v)| k == "x-test" && v == "1"));
}

#[test]
fn progress_reports_final_total() {
    let size = 1usize << 20;
    let mut r = reception(Some(size as u64), 67_108_864);
    let body = vec![b'a'; size];
    for (i, chunk) in body.chunks(16384).enumerate() {
        r.chunk(chunk, Duration::from_millis(11 + i as u64));
    }
    let (last, resp) = r.finish("", Duration::from_millis(100));
    assert_eq!(resp.body.len(), size as u64);
    assert_eq!(last.received, size as u64);
}

#[test]
fn progress_reports_received_bytes_for_spilled_bodies() {
    let mut r = reception(Some(8192), 1024);
    let body = vec![b'd'; 8192];
    for chunk in body.chunks(512) {
        r.chunk(chunk, Duration::from_millis(11));
    }
    let (last, resp) = r.finish("/tmp/x.body", Duration::from_millis(12));
    assert!(resp.body.is_spilled());
    assert_eq!(last.received, 8192);
}

#[test]
fn a_long_response_moves_to_its_file() {
    let mut r = reception(None, 4);
    let now = Duration::from_millis(11);
    assert!(matches!(r.chunk(b"abc", now).file, SinkAction::Keep));
    match r.chunk(b"de", now).file {
        SinkAction::Spill(buffered) => assert_eq!(&buffered[..], b"abc"),
        _ => panic!("must spill"),
    }
    assert!(matches!(r.chunk(b"f", now).file, SinkAction::Append));
    let (last, resp) = r.finish("/tmp/x.body", now);
    assert_eq!((last.received, last.total), (6, None));
    assert_eq!(resp.body.path(), Some("/tmp/x.body"));
    assert_eq!(resp.body.len(), 6);
    assert_eq!(resp.body.head(10), b"abcdef");
}

#[test]
fn content_is_told_by_its_type_and_its_first_bytes() {
    let text = |ct: Option<&str>| detect(ct, b"x");
    assert_eq!(text(Some("application/json")), ContentKind::Json);
    assert_eq!(text(Some("application/problem+JSON; charset=utf-8")), ContentKind::Json);
    assert_eq!(text(Some("text/html")), ContentKind::Html);
    assert_eq!(text(Some("application/xml")), ContentKind::Xml);
    assert_eq!(text(Some("text/plain")), ContentKind::Text);
    assert_eq!(text(None), ContentKind::Text);
    assert_eq!(detect(Some("image/png"), b"\x89PNG\0"), ContentKind::Binary);
    assert_eq!(detect(Some("image/gif"), b"GIF89a"), ContentKind::Binary);
    assert_eq!(detect(None, b"a\0b"), ContentKind::Binary);
    assert!(SNIFF_LEN > 0);
}

#[test]
fn the_kind_is_told_by_the_type_and_the_start_of_the_body() {
    assert_eq!(prepare(None, b"plain").kind, ContentKind::Text);
    assert_eq!(prepare(None, b"a\0b").kind, ContentKind::Binary);
    let mut late = vec![b'x'; SNIFF_LEN];
    late.push(0);
    assert_eq!(prepare(None, &late).kind, ContentKind::Text);
    assert_eq!(prepare(Some("text/html"), b"<p>").kind, ContentKind::Html);
    let v = ResponseView::prepare_cancellable(
        meta(Some("application/json"), 2),
        &mem(b"{}"),
        || false,
    );
    assert_eq!(v.unwrap().kind, ContentKind::Json);
    let v = ResponseView::prepare_as(
        meta(Some("application/json"), 2),
        ContentKind::Text,
        &mem(b"{}"),
        || false,
    );
    assert!(v.unwrap().pretty.is_none());
}
