use getcat::model::{
    AssertOp, BodyKind, FormField, FormValue, KeyValue, PostOp, PostOpKind, PreOp, PreOpKind,
    RawFormat, RequestDraft, ResponseSource, VarScope, Variable,
};
use getcat::vars::{
    is_dynamic, iso_utc, resolve_draft, resolve_draft_with, valid_name, DynamicValues, Resolver,
    VarContext, MAX_NAME_LEN,
};
use std::borrow::Cow;

fn vars(pairs: &[(&str, &str)]) -> Vec<Variable> {
    pairs.iter().map(|(k, v)| Variable::new(*k, *v)).collect()
}

#[test]
fn plain_text_is_borrowed_and_untouched() {
    let ctx = VarContext::empty();
    let mut r = Resolver::new(&ctx);
    assert!(matches!(r.resolve("no vars {single}"), Cow::Borrowed(_)));
    assert!(r.finish().is_empty());
}

#[test]
fn layers_override_low_to_high_and_first_enabled_wins() {
    let globals = vars(&[("a", "g"), ("b", "g"), ("c", "g")]);
    let group = vars(&[("b", "grp"), ("c", "grp")]);
    let env = vec![
        Variable {
            enabled: false,
            ..Variable::new("c", "disabled")
        },
        Variable::new("c", "env1"),
        Variable::new("c", "env2"),
    ];
    let ctx = VarContext::new(&globals, &group, &env);
    let mut r = Resolver::new(&ctx);
    assert_eq!(r.resolve("{{a}}/{{b}}/{{c}}"), "g/grp/env1");
    assert!(r.finish().is_empty());
}

#[test]
fn names_are_trimmed_and_unknown_kept_verbatim() {
    let globals = vars(&[("tok", "T")]);
    let ctx = VarContext::new(&globals, &[], &[]);
    let mut r = Resolver::new(&ctx);
    assert_eq!(r.resolve("x={{ tok }}&y={{nope}}"), "x=T&y={{nope}}");
    let unresolved = r.finish();
    assert_eq!(
        unresolved.into_vec(),
        vec!["nope".to_string()]
    );
}

#[test]
fn invalid_names_and_unclosed_braces_are_left_alone() {
    let globals = vars(&[("b", "B")]);
    let ctx = VarContext::new(&globals, &[], &[]);
    let mut r = Resolver::new(&ctx);
    assert_eq!(r.resolve("{{a{{b}}"), "{{aB");
    assert_eq!(r.resolve("{{unclosed"), "{{unclosed");
    assert_eq!(r.resolve("{{}}"), "{{}}");
    assert!(r.finish().is_empty());
}

#[test]
fn nested_values_expand_up_to_max_depth_and_cycles_stop() {
    let globals = vars(&[
        ("base", "https://{{host}}/v1"),
        ("host", "{{env}}.example.com"),
        ("env", "dev"),
        ("loop_a", "{{loop_b}}"),
        ("loop_b", "{{loop_a}}"),
    ]);
    let ctx = VarContext::new(&globals, &[], &[]);
    let mut r = Resolver::new(&ctx);
    assert_eq!(
        r.resolve("{{base}}/users"),
        "https://dev.example.com/v1/users"
    );
    assert_eq!(r.resolve("{{loop_a}}"), "{{loop_a}}");
    assert!(r.finish().contains("loop_a"));

    let chain: Vec<Variable> = (0..10)
        .map(|i| Variable::new(&format!("d{i}"), &format!("{{{{d{}}}}}", i + 1)))
        .chain(std::iter::once(Variable::new("d10", "end")))
        .collect();
    let ctx = VarContext::new(&chain, &[], &[]);
    let mut r = Resolver::new(&ctx);
    let out = r.resolve("{{d0}}").into_owned();
    assert!(out.starts_with("{{d"), "{out}");
    assert!(!r.finish().is_empty());
}

#[test]
fn dynamic_variables_are_generated_once_per_resolver() {
    let ctx = VarContext::empty();
    let mut r = Resolver::new(&ctx);
    let a = r.resolve("{{$randomUUID}}").into_owned();
    let b = r.resolve("{{$guid}}").into_owned();
    assert_eq!(a.len(), 36);
    assert_eq!(a, a.to_lowercase());
    assert_ne!(a, b);
    let t1 = r.resolve("{{$timestamp}}").into_owned();
    let t2 = r.resolve("{{$timestamp}}").into_owned();
    assert_eq!(t1, t2);
    assert!(t1.parse::<u64>().unwrap() > 1_767_225_600);
    let n: u32 = r.resolve("{{$randomInt}}").parse().unwrap();
    assert!(n <= 1000);
    let iso = r.resolve("{{$isoTimestamp}}").into_owned();
    assert!(iso.ends_with('Z') && iso.len() == 20, "{iso}");
    let globals = vars(&[("$timestamp", "user")]);
    let ctx = VarContext::new(&globals, &[], &[]);
    let mut r = Resolver::new(&ctx);
    assert_ne!(r.resolve("{{$timestamp}}"), "user");
    assert_eq!(r.resolve("{{$nope}}"), "{{$nope}}");
    assert!(r.finish().contains("$nope"));
    assert!(is_dynamic("$timestamp") && !is_dynamic("timestamp"));
}

#[test]
fn iso_utc_handles_epoch_leap_day_and_2026() {
    assert_eq!(iso_utc(0), "1970-01-01T00:00:00Z");
    assert_eq!(iso_utc(951_782_400), "2000-02-29T00:00:00Z");
    assert_eq!(iso_utc(1_767_225_600), "2026-01-01T00:00:00Z");
    assert_eq!(iso_utc(1_767_225_600 + 3_723), "2026-01-01T01:02:03Z");
}

#[test]
fn resolve_draft_touches_every_field_and_reports_unresolved() {
    let globals = vars(&[
        ("h", "example.com"),
        ("k", "K"),
        ("v", "V"),
        ("p", "/tmp/f"),
    ]);
    let ctx = VarContext::new(&globals, &[], &[]);
    let draft = RequestDraft {
        url: "https://{{h}}/users/{id}?x={{missing}}".into(),
        path_params: vec![KeyValue::new("id", "{{v}}")],
        params: vec![
            KeyValue::new("{{k}}", "{{v}}"),
            KeyValue {
                enabled: false,
                ..KeyValue::new("{{k}}", "off")
            },
        ],
        headers: vec![KeyValue::new("X-{{k}}", "{{v}}")],
        body: BodyKind::FormData {
            fields: vec![
                FormField::text("{{k}}", "{{v}}"),
                FormField::file("f", "{{p}}"),
            ],
        },
        post_ops: vec![PostOp {
            enabled: true,
            kind: PostOpKind::Assert {
                subject: ResponseSource::Status,
                op: AssertOp::Equals,
                expected: "{{v}}".into(),
            },
        }],
        ..Default::default()
    };
    let out = resolve_draft(&draft, &ctx);
    assert_eq!(
        out.draft.url,
        "https://example.com/users/{id}?x={{missing}}"
    );
    assert_eq!(out.draft.path_params[0].value, "V");
    assert_eq!(
        (
            out.draft.params[0].key.as_str(),
            out.draft.params[0].value.as_str()
        ),
        ("K", "V")
    );
    assert_eq!(out.draft.params[1].key, "{{k}}");
    assert_eq!(out.draft.headers[0].key, "X-K");
    match &out.draft.body {
        BodyKind::FormData { fields } => {
            assert_eq!(fields[0].key, "K");
            assert_eq!(fields[0].value, FormValue::Text { value: "V".into() });
            assert_eq!(
                fields[1].value,
                FormValue::File {
                    path: "/tmp/f".into(),
                    content_type: None
                }
            );
        }
        other => panic!("{other:?}"),
    }
    match &out.draft.post_ops[0].kind {
        PostOpKind::Assert { expected, .. } => assert_eq!(expected, "V"),
        other => panic!("{other:?}"),
    }
    assert_eq!(
        out.unresolved.into_vec(),
        vec!["missing".to_string()]
    );
    assert!(draft.url.contains("{{h}}"));

    let raw = RequestDraft {
        body: BodyKind::Raw {
            format: RawFormat::Json,
            text: r#"{"k":"{{v}}"}"#.into(),
        },
        ..Default::default()
    };
    let out = resolve_draft(&raw, &ctx);
    assert_eq!(
        out.draft.body,
        BodyKind::Raw {
            format: RawFormat::Json,
            text: r#"{"k":"V"}"#.into()
        }
    );
    let bin = RequestDraft {
        body: BodyKind::File {
            path: "{{p}}".into(),
            content_type: None,
        },
        ..Default::default()
    };
    assert_eq!(
        resolve_draft(&bin, &ctx).draft.body,
        BodyKind::File {
            path: "/tmp/f".into(),
            content_type: None
        }
    );
    let pre = RequestDraft {
        pre_ops: vec![PreOp {
            enabled: true,
            kind: PreOpKind::SetVariable {
                scope: VarScope::Global,
                key: "a".into(),
                value: "{{v}}".into(),
            },
        }],
        ..Default::default()
    };
    let PreOpKind::SetVariable { value, .. } = &resolve_draft(&pre, &ctx).draft.pre_ops[0].kind;
    assert_eq!(value, "{{v}}");
}

#[test]
fn valid_name_rules() {
    assert!(valid_name("a"));
    assert!(valid_name("$timestamp"));
    assert!(!valid_name(""));
    assert!(!valid_name("a{b"));
    assert!(!valid_name("a\nb"));
    assert!(!valid_name(&"x".repeat(MAX_NAME_LEN + 1)));
}

#[test]
fn dynamic_names_take_the_drawn_values() {
    let drawn = DynamicValues {
        timestamp: 12,
        iso: 0,
        uuid: "u".into(),
        guid: "g".into(),
        random: 7,
    };
    let draft = RequestDraft {
        url: "{{$timestamp}}|{{$isoTimestamp}}|{{$randomUUID}}|{{$guid}}|{{$randomInt}}".into(),
        ..Default::default()
    };
    let out = resolve_draft_with(&draft, &VarContext::empty(), drawn);
    assert_eq!(out.draft.url, "12|1970-01-01T00:00:00Z|u|g|7");
    assert!(out.unresolved.is_empty());
}

#[test]
fn drawn_times_are_those_of_the_clock() {
    let drawn = DynamicValues::draw();
    assert!(drawn.timestamp > 1_767_225_600);
    assert!(drawn.iso > 1_767_225_600);
}

#[test]
fn later_times_have_later_texts() {
    let times = [0, 59, 86_399, 86_400, 951_782_400, 1_767_225_600, 253_402_300_799];
    for pair in times.windows(2) {
        assert!(iso_utc(pair[0]) < iso_utc(pair[1]));
        assert_eq!(iso_utc(pair[1]).len(), 20);
        assert_eq!(iso_utc(pair[1])[10..], iso_utc(pair[1] % 86_400)[10..]);
    }
    assert_eq!(iso_utc(253_402_300_799), "9999-12-31T23:59:59Z");
}
