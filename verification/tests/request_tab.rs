use getcat::body::tier::{ViewTier, EDITOR_MAX_LINES};
use getcat::http::error::RequestError;
use getcat::http::sink::BodyStore;
use getcat::model::{
    BodyKind, Duration, FormField, KeyValue, Method, RawFormat, RequestDraft, ResponseMeta,
    SplitDirection, Ulid,
};
use getcat::panes::{
    body_editor, body_pane, request_labels, response_controls, status_line, summary, BodyEditor,
    BodyPane, StatusLine,
};
use getcat::request_tab::{
    body_hint_for, tab_title, BodyHint, BodyMode, Notice, RequestSection, RequestTab,
    ResponseSection, BODY_HINT_BYTES,
};
use getcat::response::{ContentKind, ResponseState, ResponseView};

fn new_tab() -> RequestTab {
    RequestTab::new(Ulid(1), SplitDirection::Horizontal)
}

fn meta(content_type: &str, body_len: u64) -> ResponseMeta {
    ResponseMeta {
        status: 200,
        status_text: "OK".into(),
        headers: vec![],
        duration: Duration::from_millis(3),
        body_len,
        content_type: Some(content_type.into()),
    }
}

fn install(tab: &mut RequestTab, content_type: &str, body: BodyStore) {
    let view = ResponseView::prepare(meta(content_type, body.len()), &body);
    tab.generation += 1;
    let g = tab.generation;
    tab.apply_outcome(g, Ok((body, view)));
}

fn install_done(tab: &mut RequestTab, body: &[u8]) {
    install(
        tab,
        "application/json",
        BodyStore::in_memory(body.to_vec()),
    );
}

fn many_lines() -> String {
    (0..EDITOR_MAX_LINES + 1)
        .map(|i| format!("line {i}\n"))
        .collect()
}

#[test]
fn body_hint_threshold() {
    assert!(body_hint_for(0).is_none());
    assert!(body_hint_for(BODY_HINT_BYTES).is_none());
    assert!(body_hint_for(BODY_HINT_BYTES + 1)
        .unwrap()
        .contains("10 MB"));
}

#[test]
fn body_mode_round_trips_through_index() {
    for (ix, mode) in BodyMode::ALL.iter().enumerate() {
        assert_eq!(mode.index(), ix);
        assert_eq!(BodyMode::from_index(ix), *mode);
    }
    assert_eq!(BodyMode::from_index(99), BodyMode::Empty);
}

#[test]
fn request_sections_round_trip_through_index() {
    for (ix, section) in RequestSection::ALL.iter().enumerate() {
        assert_eq!(section.index(), ix);
        assert_eq!(RequestSection::from_index(ix), *section);
    }
    assert_eq!(RequestSection::from_index(99), RequestSection::Params);
}

#[test]
fn title_from_url() {
    assert_eq!(tab_title(""), "新请求");
    assert_eq!(
        tab_title("https://api.example.com/users/42?x=1"),
        "/users/42"
    );
    assert_eq!(tab_title("https://api.example.com"), "api.example.com");
    assert_eq!(tab_title("api.example.com/"), "api.example.com");
    assert_eq!(tab_title("not a url"), "not a url");
    assert_eq!(tab_title("https://"), "新请求");
    assert_eq!(tab_title("http://"), "新请求");
}

#[test]
fn cancel_marks_cancelled_and_bumps_generation() {
    let mut t = new_tab();
    t.set_url("http://127.0.0.1:9/");
    let (g, req) = t.send().expect("sent");
    assert_eq!(req.method, Method::Get);
    assert!(t.response.is_in_flight());
    // while one is under way, nothing more is sent
    assert!(t.send().is_none());
    assert_eq!(t.generation, g);
    t.cancel();
    assert_eq!(t.generation, g + 1);
    assert!(matches!(t.response.error(), Some(RequestError::Cancelled)));
    t.cancel();
    assert_eq!(t.generation, g + 1);
    // the dropped request has no say any more
    assert!(!t.progress(g, 7, None));
    t.apply_outcome(g, Err(RequestError::Timeout));
    assert!(matches!(t.response.error(), Some(RequestError::Cancelled)));
    assert_eq!(body_pane(&t), BodyPane::Cancelled);
}

#[test]
fn stale_generation_outcome_is_discarded() {
    let mut t = new_tab();
    t.generation = 5;
    t.apply_outcome(4, Err(RequestError::Other("stale".into())));
    assert!(matches!(t.response, ResponseState::Idle));
    t.apply_outcome(5, Err(RequestError::Timeout));
    assert!(matches!(t.response.error(), Some(RequestError::Timeout)));
}

#[test]
fn a_refused_request_shows_its_reason() {
    let mut t = new_tab();
    t.set_url("http://[");
    assert!(t.send().is_none());
    assert!(t.url_error.is_some());
    assert_eq!(t.generation, 0);
    assert!(matches!(t.response, ResponseState::Idle));
    t.set_url("http://x.test/");
    assert_eq!(t.url_error, None);
}

#[test]
fn large_text_body_renders_as_virtual_rows() {
    let text = many_lines();
    let mut t = new_tab();
    install(
        &mut t,
        "text/plain",
        BodyStore::in_memory(text.into_bytes()),
    );
    let ResponseState::Done { view, .. } = &t.response else {
        panic!("expected Done");
    };
    assert!(!view.has_pretty());
    assert!(!view.is_preview());
    let doc = view.doc(true).expect("text body has a doc");
    assert_eq!(doc.tier, ViewTier::Virtual);
    assert_eq!(doc.doc.line_count(), EDITOR_MAX_LINES + 1);
    assert!(t.editor_text().is_none());
    assert_eq!(
        body_pane(&t),
        BodyPane::Lines {
            notice: Some("Over 5 MB or 200000 lines: shown as plain text".into()),
            summary: false
        }
    );
    t.response_section = ResponseSection::Headers;
    assert_eq!(body_pane(&t), BodyPane::Headers);
}

#[test]
fn the_editor_shows_the_indented_text() {
    let mut t = new_tab();
    install_done(&mut t, br#"{"a":1}"#);
    assert_eq!(t.editor_text(), Some(("{\n  \"a\": 1\n}", "json")));
    assert_eq!(body_pane(&t), BodyPane::Editor);
    t.set_pretty(false);
    assert_eq!(t.editor_text(), Some((r#"{"a":1}"#, "json")));
}

#[test]
fn choose_file_sets_file_body_and_clear_resets_it() {
    let mut t = new_tab();
    t.choose_file("/tmp/choose.json".into(), Some(2));
    assert_eq!(t.body_mode, BodyMode::File);
    assert_eq!(t.file_size, Some(2));
    assert_eq!(
        t.draft().body,
        BodyKind::File {
            path: "/tmp/choose.json".into(),
            content_type: Some("application/json".into()),
        }
    );
    t.clear_file();
    assert_eq!(t.file_size, None);
    assert_eq!(
        t.draft().body,
        BodyKind::File {
            path: String::new(),
            content_type: None,
        }
    );
}

#[test]
fn oversized_raw_body_shows_file_hint() {
    let mut t = new_tab();
    t.set_body_mode(BodyMode::Raw);
    t.set_raw_text("a".repeat(BODY_HINT_BYTES + 1));
    assert_eq!(t.body_hint, Some(BodyHint::TooLarge));
    t.set_raw_text("{}".into());
    assert!(t.body_hint.is_none());
}

#[test]
fn switching_raw_format_or_body_mode_recomputes_hint() {
    let mut t = new_tab();
    t.body_mode = BodyMode::Raw;
    t.raw.json = "a".repeat(BODY_HINT_BYTES + 1);
    t.refresh_body_hint();
    assert_eq!(t.body_hint, Some(BodyHint::TooLarge));
    t.set_raw_format(RawFormat::Text);
    assert!(t.body_hint.is_none());
    t.set_raw_format(RawFormat::Json);
    assert_eq!(t.body_hint, Some(BodyHint::TooLarge));
    t.set_body_mode(BodyMode::Empty);
    assert!(t.body_hint.is_none());
}

#[test]
fn format_body_reindents_without_reordering_keys() {
    let mut t = new_tab();
    t.body_mode = BodyMode::Raw;
    t.raw_format = RawFormat::Json;
    t.set_raw_text(r#"{"model":"gpt-5.6","messages":[{"role":"user"}],"a":1}"#.into());
    t.dirty = false;
    t.format_body();
    let out = t.raw.json.clone();
    assert!(out.contains('\n'), "{out}");
    assert!(out.contains("  \"model\""), "{out}");
    let model_at = out.find("\"model\"").unwrap();
    let messages_at = out.find("\"messages\"").unwrap();
    let a_at = out.find("\"a\"").unwrap();
    assert!(model_at < messages_at && messages_at < a_at, "{out}");
    assert!(t.dirty);
    assert!(t.body_hint.is_none());
}

#[test]
fn format_body_rejects_invalid_json() {
    let mut t = new_tab();
    t.body_mode = BodyMode::Raw;
    t.raw_format = RawFormat::Json;
    let broken = r#"{"a": 1,}"#;
    t.set_raw_text(broken.into());
    t.dirty = false;
    t.format_body();
    assert_eq!(t.raw.json, broken);
    assert_eq!(t.body_hint, Some(BodyHint::InvalidJson));
    assert!(!t.dirty);
    t.set_raw_text(r#"{"a": 1}"#.into());
    assert!(t.body_hint.is_none());
}

#[test]
fn format_body_is_idempotent_and_scoped_to_json() {
    let mut t = new_tab();
    t.body_mode = BodyMode::Raw;
    t.raw_format = RawFormat::Json;
    t.set_raw_text(r#"{"a":1}"#.into());
    t.format_body();
    let once = t.raw.json.clone();
    assert_eq!(once, "{\n  \"a\": 1\n}");
    t.dirty = false;
    t.format_body();
    assert_eq!(t.raw.json, once);
    assert!(!t.dirty);
    // blank
    t.set_raw_text("   ".into());
    t.format_body();
    assert!(t.body_hint.is_none());
    // another format, another mode
    t.raw.text = r#"{"a":1}"#.into();
    t.raw_format = RawFormat::Text;
    t.format_body();
    assert_eq!(t.raw.text, r#"{"a":1}"#);
    t.raw_format = RawFormat::Json;
    t.body_mode = BodyMode::Empty;
    t.raw.json = r#"{"a":1}"#.into();
    t.format_body();
    assert_eq!(t.raw.json, r#"{"a":1}"#);
}

#[test]
fn raw_body_draft_reads_editor_text_directly() {
    let mut t = new_tab();
    t.body_mode = BodyMode::Raw;
    t.raw_format = RawFormat::Json;
    t.raw.json = r#"{"a":1}"#.into();
    assert_eq!(
        t.draft().body,
        BodyKind::Raw {
            format: RawFormat::Json,
            text: r#"{"a":1}"#.into(),
        }
    );
}

#[test]
fn load_draft_restores_every_body_kind_without_dirtying() {
    let mut t = new_tab();
    let file = "/tmp/getcat-load.json";
    let drafts = vec![
        RequestDraft {
            method: Method::Post,
            url: "https://x.test/{id}?a=1".into(),
            path_params: vec![KeyValue::new("id", "7")],
            params: vec![KeyValue {
                enabled: false,
                ..KeyValue::new("q", "v")
            }],
            headers: vec![KeyValue::new("X-Token", "t")],
            body: BodyKind::Raw {
                format: RawFormat::Xml,
                text: "<a/>".into(),
            },
            ..Default::default()
        },
        RequestDraft {
            method: Method::Put,
            url: "https://x.test/form".into(),
            body: BodyKind::FormUrlEncoded {
                fields: vec![KeyValue::new("a", "1")],
            },
            ..Default::default()
        },
        RequestDraft {
            method: Method::Delete,
            url: "https://x.test/file".into(),
            body: BodyKind::File {
                path: file.into(),
                content_type: Some("application/json".into()),
            },
            ..Default::default()
        },
        RequestDraft {
            method: Method::Post,
            url: "https://x.test/upload".into(),
            body: BodyKind::FormData {
                fields: vec![
                    FormField::text("note", "hi"),
                    FormField::file("doc", file),
                    FormField::file("pending", ""),
                ],
            },
            ..Default::default()
        },
        RequestDraft::default(),
    ];
    for draft in drafts {
        t.load_draft(&draft);
        assert_eq!(t.draft(), draft);
        assert!(!t.dirty);
    }
}

#[test]
fn form_data_mode_warns_when_user_sets_content_type() {
    let mut t = new_tab();
    t.body_mode = BodyMode::FormData;
    t.refresh_body_hint();
    assert_eq!(t.body_hint, None);
    t.headers
        .set_values(&vec![KeyValue::new("content-type", "text/plain")]);
    t.refresh_body_hint();
    assert_eq!(t.body_hint, Some(BodyHint::FormDataContentType));
    t.headers.set_values(&vec![KeyValue {
        enabled: false,
        ..KeyValue::new("content-type", "text/plain")
    }]);
    t.refresh_body_hint();
    assert_eq!(t.body_hint, None);
    t.headers
        .set_values(&vec![KeyValue::new("Content-Type", "text/plain")]);
    t.body_mode = BodyMode::Raw;
    t.refresh_body_hint();
    assert_eq!(t.body_hint, None);
}

#[test]
fn form_data_and_urlencoded_tables_are_independent() {
    let mut t = new_tab();
    t.load_draft(&RequestDraft {
        body: BodyKind::FormUrlEncoded {
            fields: vec![KeyValue::new("a", "1")],
        },
        ..Default::default()
    });
    t.body_mode = BodyMode::FormData;
    assert_eq!(t.draft().body, BodyKind::FormData { fields: vec![] });
    t.body_mode = BodyMode::FormUrlEncoded;
    assert_eq!(
        t.draft().body,
        BodyKind::FormUrlEncoded {
            fields: vec![KeyValue::new("a", "1")]
        }
    );
}

#[test]
fn edits_mark_tab_dirty_and_title_prefers_saved_name() {
    let mut t = new_tab();
    assert!(!t.dirty);
    t.set_url("https://api.test/users/1");
    assert!(t.dirty);
    assert_eq!(t.title(), "/users/1");
    t.saved_name = Some("用户详情".into());
    assert_eq!(t.title(), "用户详情");
    t.mark_clean();
    assert!(!t.dirty);
    t.mark_dirty();
    assert!(t.dirty);
}

#[test]
fn path_parameters_follow_the_url() {
    let mut t = new_tab();
    t.set_url("https://x.test/{id}/{name}");
    assert!(t.has_path_params());
    t.path_params.edit_row(0, "id", "7");
    t.set_url("https://x.test/{name}/{id}/{id}");
    assert_eq!(
        t.draft().path_params,
        vec![KeyValue::new("name", ""), KeyValue::new("id", "7")]
    );
    t.set_url("https://x.test/");
    assert!(!t.has_path_params());
}

#[test]
fn clear_response_resets_everything_including_the_editor() {
    let mut t = new_tab();
    install_done(&mut t, br#"{"a":1}"#);
    t.response_section = ResponseSection::Headers;
    t.notice = Some(Notice::NoResponse);
    let before = t.generation;
    assert!(t.editor_text().is_some());
    t.clear_response();
    assert!(matches!(t.response, ResponseState::Idle));
    assert!(t.editor_text().is_none());
    assert_eq!(t.response_section, ResponseSection::Body);
    assert!(t.notice.is_none());
    assert_eq!(t.generation, before + 1);
}

#[test]
fn clear_response_on_idle_is_a_no_op() {
    let mut t = new_tab();
    let before = t.generation;
    t.clear_response();
    assert_eq!(t.generation, before);
}

#[test]
fn find_in_response_focuses_the_editor_on_editor_tier() {
    let mut t = new_tab();
    install_done(&mut t, br#"{"a":1}"#);
    t.response_section = ResponseSection::Headers;
    assert!(t.find_in_response());
    assert_eq!(t.response_section, ResponseSection::Body);
    assert!(t.notice.is_none());
}

#[test]
fn find_in_response_only_notices_on_virtual_tier() {
    let mut t = new_tab();
    install(
        &mut t,
        "text/plain",
        BodyStore::in_memory(many_lines().into_bytes()),
    );
    assert!(!t.find_in_response());
    assert_eq!(t.notice, Some(Notice::VirtualSearch));
}

#[test]
fn find_in_response_without_a_response_notices() {
    let mut t = new_tab();
    assert!(!t.find_in_response());
    assert_eq!(t.notice, Some(Notice::NoResponse));
}

#[test]
fn find_in_response_on_a_binary_body_notices() {
    let mut t = new_tab();
    install(
        &mut t,
        "image/png",
        BodyStore::in_memory(b"\x89PNG\0".to_vec()),
    );
    t.response_section = ResponseSection::Headers;
    assert!(!t.find_in_response());
    assert_eq!(t.notice, Some(Notice::BinarySearch));
    assert_eq!(t.response_section, ResponseSection::Headers);
    t.response_section = ResponseSection::Body;
    assert_eq!(body_pane(&t), BodyPane::Binary);
}

#[test]
fn find_in_response_on_an_empty_body_notices() {
    let mut t = new_tab();
    install_done(&mut t, b"");
    assert!(!t.find_in_response());
    assert_eq!(t.notice, Some(Notice::EmptyBodySearch));
    assert_eq!(body_pane(&t), BodyPane::EmptyBody { notice: None, summary: false });
}

#[test]
fn a_body_on_disk_is_copied_from_its_file() {
    let mut t = new_tab();
    assert_eq!(t.suggested_file_name(), None);
    assert_eq!(t.body_path(), None);
    install(
        &mut t,
        "application/json",
        BodyStore::Spilled {
            file: "/tmp/getcat-1/000001.body".into(),
            len: 10,
            head: b"0123456789".to_vec(),
        },
    );
    assert_eq!(t.suggested_file_name().as_deref(), Some("response.json"));
    assert_eq!(t.body_path(), Some("/tmp/getcat-1/000001.body"));
    assert_eq!(
        body_pane(&t),
        BodyPane::Lines {
            notice: Some(
                "Over 64 MB: written to a temporary file, only the first 1 MB is shown".into()
            ),
            summary: true
        }
    );
    let g = t.generation;
    t.save_finished(g + 1, "/tmp/x", None);
    assert_eq!(t.save_notice, None);
    t.save_finished(g, "/tmp/x", None);
    assert_eq!(t.save_notice.as_deref(), Some("已保存到 /tmp/x"));
    t.save_finished(g, "/tmp/x", Some("no space"));
    assert_eq!(t.save_notice.as_deref(), Some("保存失败：no space"));
}

#[test]
fn labels_count_the_entries_that_take_effect() {
    let mut t = new_tab();
    let labels = request_labels(&t);
    assert_eq!(
        (labels.params.as_str(), labels.headers.as_str(), labels.body.as_str()),
        ("Params", "Headers", "Body")
    );
    t.set_url("http://x.test/{id}");
    t.params
        .set_values(&vec![KeyValue::new("a", "1"), KeyValue::new("", "2")]);
    t.headers.set_values(&vec![KeyValue {
        enabled: false,
        ..KeyValue::new("X", "1")
    }]);
    t.set_body_mode(BodyMode::Raw);
    let labels = request_labels(&t);
    assert_eq!(
        (labels.params.as_str(), labels.headers.as_str(), labels.body.as_str()),
        ("Params (2)", "Headers", "Body (1)")
    );
}

#[test]
fn the_pane_follows_the_state_of_the_response() {
    let mut t = new_tab();
    assert_eq!(body_pane(&t), BodyPane::Idle);
    let second = Duration::from_secs(1);
    assert_eq!(status_line(&t, second), StatusLine::Idle);
    let c = response_controls(&t);
    assert!(!c.is_done && !c.has_pretty && !c.can_clear);
    t.set_url("http://x.test/");
    let (g, _) = t.send().unwrap();
    assert!(t.progress(g, 1024, Some(2048)));
    assert_eq!(
        body_pane(&t),
        BodyPane::InFlight {
            received: "1.0 KB".into(),
            total: Some("2.0 KB".into())
        }
    );
    assert_eq!(
        status_line(&t, second),
        StatusLine::InFlight {
            elapsed: "1.00 s".into(),
            received: "1.0 KB".into()
        }
    );
    t.apply_outcome(g, Err(RequestError::Dns("no such host".into())));
    assert_eq!(status_line(&t, second), StatusLine::Failed);
    let c = response_controls(&t);
    assert!(!c.is_done && c.can_clear);
    match body_pane(&t) {
        BodyPane::Failed { kind, detail } => {
            assert_eq!((kind, detail.as_str()), ("DNS lookup failed", "no such host"))
        }
        other => panic!("{other:?}"),
    }
    install_done(&mut t, b"{}");
    let c = response_controls(&t);
    assert!(c.is_done && c.has_pretty && c.can_clear);
    assert_eq!(c.headers_label, "Headers");
    assert_eq!(
        status_line(&t, second),
        StatusLine::Done {
            status: "200 OK".into(),
            duration: "3 ms".into(),
            size: "2 B".into(),
            kind: ContentKind::Json
        }
    );
}

#[test]
fn a_summary_names_the_file_of_a_body_on_disk() {
    let body = BodyStore::Spilled {
        file: "/tmp/getcat-1/000001.body".into(),
        len: 3 * 1024 * 1024,
        head: b"x".to_vec(),
    };
    let view = ResponseView::prepare(meta("text/csv", body.len()), &body);
    let s = summary(&body, &view);
    assert_eq!(s.size, "3.0 MB");
    assert_eq!(s.kind, "text/csv");
    assert_eq!(s.duration, "3 ms");
    assert_eq!(s.file.as_deref(), Some("/tmp/getcat-1/000001.body"));
    let small = BodyStore::in_memory(b"x".to_vec());
    assert_eq!(summary(&small, &view).file, None);
}

#[test]
fn each_kind_of_body_has_its_editor() {
    let mut t = new_tab();
    assert_eq!(body_editor(&t), BodyEditor::Empty);
    t.set_body_mode(BodyMode::Raw);
    t.set_raw_text("a".repeat(BODY_HINT_BYTES + 1));
    assert_eq!(
        body_editor(&t),
        BodyEditor::Raw {
            format: RawFormat::Json,
            hint: Some(BodyHint::TooLarge)
        }
    );
    t.set_body_mode(BodyMode::FormData);
    assert_eq!(body_editor(&t), BodyEditor::FormData { hint: None });
    t.set_body_mode(BodyMode::FormUrlEncoded);
    assert_eq!(body_editor(&t), BodyEditor::FormUrlEncoded);
    t.set_body_mode(BodyMode::File);
    assert_eq!(body_editor(&t), BodyEditor::NoFile);
    t.choose_file("/tmp/a.bin".into(), Some(1536));
    assert_eq!(
        body_editor(&t),
        BodyEditor::File {
            path: "/tmp/a.bin".into(),
            size: Some("1.5 KB".into())
        }
    );
}

#[test]
fn a_request_is_sent_with_its_variables_replaced() {
    let mut t = new_tab();
    t.set_url("{{host}}/users");
    let mut resolved = t.draft();
    resolved.url = "http://x.test/users".into();
    let (generation, request) = t.send_draft(&resolved).unwrap();
    assert_eq!(generation, 1);
    assert_eq!(request.url.as_str(), "http://x.test/users");
    assert_eq!(t.url, "{{host}}/users");
}
