use getcat::model::{BodyKind, Method, RawFormat};
use getcat::templates::{all, find, TemplateGroup, TemplateVariant};
use std::collections::HashSet;

#[test]
fn every_body_is_valid_json() {
    for template in all() {
        serde_json::from_str::<serde_json::Value>(template.body)
            .unwrap_or_else(|e| panic!("{}: {e}", template.id));
    }
}

#[test]
fn ids_are_unique_and_findable() {
    let mut seen = HashSet::new();
    for template in all() {
        assert!(seen.insert(template.id), "{}", template.id);
        assert!(find(template.id).is_some());
        assert_eq!(find(template.id).unwrap(), template);
    }
    assert!(find("nope").is_none());
}

#[test]
fn every_group_and_variant_has_a_template() {
    for group in TemplateGroup::ALL {
        for variant in [TemplateVariant::Text, TemplateVariant::Vision] {
            assert!(
                all()
                    .iter()
                    .any(|t| t.group == group && t.variant == variant),
                "{} {variant:?}",
                group.label()
            );
        }
    }
}

#[test]
fn draft_carries_placeholder_auth_and_json_body() {
    let template = find("anthropic-messages-vision").unwrap();
    let draft = template.draft();
    assert_eq!(draft.method, Method::Post);
    assert_eq!(draft.url, "https://api.anthropic.com/v1/messages");

    let key = draft
        .headers
        .iter()
        .find(|h| h.key == "x-api-key")
        .expect("x-api-key");
    assert_eq!(key.value, "YOUR_API_KEY");
    assert!(key.enabled);
    assert!(draft.headers.iter().any(|h| h.key == "anthropic-version"));

    match draft.body {
        BodyKind::Raw { format, ref text } => {
            assert_eq!(format, RawFormat::Json);
            assert!(text.contains(r#""type": "image""#));
            assert!(text.contains(r#""source""#));
        }
        ref other => panic!("{other:?}"),
    }
}

#[test]
fn no_template_ships_a_real_looking_key() {
    for template in all() {
        for (key, value) in &template.headers {
            if key.eq_ignore_ascii_case("authorization") || key.eq_ignore_ascii_case("x-api-key") {
                assert!(
                    value.contains("YOUR_API_KEY"),
                    "{} {key}: {value}",
                    template.id
                );
            }
        }
    }
}

#[test]
fn templates_are_listed_under_their_interface() {
    assert_eq!(find("openai-chat-text").unwrap().display_name(), "Chat Completions");
    assert_eq!(TemplateGroup::OpenAi.label(), "OpenAI");
    assert_eq!(TemplateGroup::Anthropic.label(), "Anthropic");
    assert_eq!(all().len(), 6);
}
