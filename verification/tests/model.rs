use getcat::model::{
    millis_of, now_ms, secs_of, theme_key, theme_of_key, BodyKind, Duration, FormField, FormValue,
    KeyValue, Method, RawFormat, RequestDraft, SavedRequest, ThemePref, Ulid, Variable,
};

#[test]
fn method_roundtrip() {
    for m in Method::ALL {
        assert_eq!(Method::parse(m.as_str()), Some(m));
    }
    assert_eq!(Method::parse("get"), Some(Method::Get));
    assert_eq!(Method::parse("BREW"), None);
}

#[test]
fn key_value_defaults_enabled() {
    let kv = KeyValue::new("a", "b");
    assert!(kv.enabled);
    assert_eq!(kv.key, "a");
}

#[test]
fn draft_default_is_empty_get() {
    let d = RequestDraft::default();
    assert_eq!(d.method, Method::Get);
    assert!(d.url.is_empty());
    assert_eq!(d.body, BodyKind::Empty);
}

#[test]
fn raw_format_content_types() {
    assert_eq!(RawFormat::Json.content_type(), "application/json");
    assert_eq!(RawFormat::Text.content_type(), "text/plain");
    assert_eq!(RawFormat::Xml.content_type(), "application/xml");
}

#[test]
fn raw_format_labels_and_languages() {
    let labels: Vec<&str> = RawFormat::ALL.iter().map(|f| f.label()).collect();
    assert_eq!(labels, ["JSON", "Text", "XML"]);
    let languages: Vec<&str> = RawFormat::ALL.iter().map(|f| f.editor_language()).collect();
    assert_eq!(languages, ["json", "text", "html"]);
}

#[test]
fn theme_pref_cycles_and_serializes_snake_case() {
    assert_eq!(ThemePref::System.next(), ThemePref::Light);
    assert_eq!(ThemePref::Light.next(), ThemePref::Dark);
    assert_eq!(ThemePref::Dark.next(), ThemePref::System);
    assert_eq!(theme_key(ThemePref::Dark), "dark");
    assert_eq!(ThemePref::System.label(), "跟随系统");
    assert_eq!(ThemePref::default(), ThemePref::System);
}

#[test]
fn now_ms_is_after_2026() {
    assert!(now_ms() > 1_767_225_600_000); // 2026-01-01T00:00:00Z
}

#[test]
fn identifiers_are_written_in_26_characters() {
    assert_eq!(Ulid(0).text(), "00000000000000000000000000");
    assert_eq!(Ulid(u128::MAX).text(), "7ZZZZZZZZZZZZZZZZZZZZZZZZZ");
    assert_eq!(Ulid(1 << 80).text(), "00000000010000000000000000");
    assert_ne!(Ulid::generate(), Ulid::generate());
}

#[test]
fn a_new_saved_request_is_created_and_updated_at_once() {
    let r = SavedRequest::new("x", RequestDraft::default());
    assert_eq!(r.created_at, r.updated_at);
    assert_eq!(r.name, "x");
    assert_eq!(r.group, None);
    let at = SavedRequest::at(Ulid(7), 42, "y", RequestDraft::default());
    assert_eq!((at.id, at.created_at, at.updated_at), (Ulid(7), 42, 42));
}

#[test]
fn durations_keep_their_unit() {
    assert_eq!(Duration::from_secs(2), Duration::from_millis(2000));
    assert_eq!(Duration::from_millis(1), Duration::from_micros(1000));
    assert_eq!(Duration::from_micros(1), Duration::from_nanos(1000));
    assert_eq!(Duration::from_millis(1500).nanos, 500_000_000);
}

#[test]
fn clones_are_equal() {
    let d = RequestDraft {
        method: Method::Post,
        url: "u".into(),
        params: vec![KeyValue::new("a", "1")],
        body: BodyKind::FormData {
            fields: vec![FormField::text("k", "v"), FormField::file("f", "/p")],
        },
        ..Default::default()
    };
    assert_eq!(d.clone(), d);
    assert_eq!(
        FormField::file("f", "/p").value,
        FormValue::File {
            path: "/p".into(),
            content_type: None
        }
    );
    let v = Variable::new("k", "v");
    assert!(v.enabled && !v.secret);
    assert_eq!(v.clone(), v);
}

#[test]
fn themes_are_kept_by_name() {
    for pref in ThemePref::ALL {
        assert_eq!(theme_of_key(theme_key(pref)), pref);
    }
    assert_eq!(theme_key(ThemePref::Light), "light");
    assert_eq!(theme_of_key("sepia"), ThemePref::System);
}

#[test]
fn spans_are_counted_from_an_earlier_one() {
    let a = Duration::from_millis(1_900);
    let b = Duration::from_millis(3_100);
    assert_eq!(b.since(a), Duration::from_millis(1_200));
    assert_eq!(a.since(b), Duration::from_secs(0));
    assert_eq!(a.since(a), Duration::from_nanos(0));
}

#[test]
fn a_clock_reading_gives_seconds_and_milliseconds() {
    let reading = Some((1_767_225_600, 999_999_999));
    assert_eq!(secs_of(reading), 1_767_225_600);
    assert_eq!(millis_of(reading), 1_767_225_600_999);
    assert_eq!((secs_of(None), millis_of(None)), (0, 0));
}
