use getcat::body::tier::ViewTier;
use getcat::http::error::{RequestError, PREPARE_PANIC_PREFIX};
use getcat::labels::{
    content_kind_label, error_detail, error_kind, mib_label, prepare_error_line, theme_label,
    tier_notice,
};
use getcat::model::ThemePref;
use getcat::response::ContentKind;

#[test]
fn error_kind_and_detail_split_label_from_payload() {
    let e = RequestError::Dns("lookup failed for example.invalid".into());
    assert_eq!(error_kind(&e), "DNS lookup failed");
    assert_eq!(error_detail(&e), "lookup failed for example.invalid");
    assert_eq!(
        error_detail(&RequestError::Timeout),
        "The connection timed out"
    );
    assert_eq!(
        prepare_error_line(&RequestError::InvalidUrl("x".into())),
        "Invalid URL: x"
    );
    let panicked = RequestError::Other(format!("{PREPARE_PANIC_PREFIX}: index out of bounds"));
    assert_eq!(error_kind(&panicked), "Background processing failed");
    assert_eq!(error_detail(&panicked), "index out of bounds");
}

#[test]
fn a_refusal_is_told_in_one_line() {
    assert_eq!(
        prepare_error_line(&RequestError::InvalidUrl(String::new())),
        "Invalid URL"
    );
    assert_eq!(
        prepare_error_line(&RequestError::Timeout),
        "Timed out: The connection timed out"
    );
    assert_eq!(
        error_detail(&RequestError::Cancelled),
        error_kind(&RequestError::Cancelled)
    );
    assert_eq!(error_detail(&RequestError::Other("reset".into())), "reset");
    assert_eq!(error_kind(&RequestError::Other("reset".into())), "Network error");
}

#[test]
fn every_kind_of_error_has_a_label_of_its_own() {
    let x = || "x".to_string();
    let all = [
        RequestError::InvalidUrl(x()),
        RequestError::InvalidHeader(x()),
        RequestError::Unsupported(x()),
        RequestError::Dns(x()),
        RequestError::ConnectionRefused(x()),
        RequestError::Tls(x()),
        RequestError::Timeout,
        RequestError::Spill(x()),
        RequestError::FileBody(x()),
        RequestError::Cancelled,
        RequestError::Other(x()),
    ];
    for (i, a) in all.iter().enumerate() {
        for b in &all[i + 1..] {
            assert_ne!(error_kind(a), error_kind(b));
        }
    }
}

#[test]
fn content_kind_keeps_proper_nouns() {
    assert_eq!(content_kind_label(ContentKind::Json), "JSON");
    assert_eq!(content_kind_label(ContentKind::Text), "Text");
    assert_eq!(content_kind_label(ContentKind::Html), "HTML");
    assert_eq!(content_kind_label(ContentKind::Xml), "XML");
    assert_eq!(content_kind_label(ContentKind::Binary), "Binary");
}

#[test]
fn tier_notices_embed_the_thresholds() {
    let virt = tier_notice(ViewTier::Virtual).unwrap();
    assert!(virt.contains("5 MB"), "{virt}");
    assert!(virt.contains("200000"), "{virt}");
    assert!(tier_notice(ViewTier::Editor).is_none());
    let preview = tier_notice(ViewTier::Preview).unwrap();
    assert!(preview.contains("64 MB") && preview.contains("1 MB"), "{preview}");
    assert_eq!(mib_label(10 * 1024 * 1024), "10 MB");
}

#[test]
fn choices_of_colours_have_names() {
    assert_eq!(theme_label(ThemePref::System), "System");
    assert_eq!(theme_label(ThemePref::Light), "Light");
    assert_eq!(theme_label(ThemePref::Dark), "Dark");
}
