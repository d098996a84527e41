use getcat::model::{
    AssertOp, Duration, PostOp, PostOpKind, PreOp, PreOpKind, ResponseMeta, ResponseSource,
    VarScope, Variable,
};
use getcat::ops::{
    apply_extracted, json_path, run_post_ops, run_pre_ops, Extracted, OpFailure, OpOutcome, OpSkip,
    OPS_JSON_MAX_BYTES,
};
use getcat::variables::{Environment, VariableSets};

fn meta(status: u16, headers: &[(&str, &str)]) -> ResponseMeta {
    ResponseMeta {
        status,
        status_text: "OK".into(),
        headers: headers
            .iter()
            .map(|(k, v)| (k.to_string(), v.to_string()))
            .collect(),
        duration: Duration::from_millis(1),
        body_len: 0,
        content_type: None,
    }
}

fn extract(scope: VarScope, key: &str, source: ResponseSource) -> PostOp {
    PostOp {
        enabled: true,
        kind: PostOpKind::Extract {
            scope,
            key: key.into(),
            source,
        },
    }
}

fn assert_op(subject: ResponseSource, op: AssertOp, expected: &str) -> PostOp {
    PostOp {
        enabled: true,
        kind: PostOpKind::Assert {
            subject,
            op,
            expected: expected.into(),
        },
    }
}

fn set_variable(scope: VarScope, key: &str, value: &str) -> PreOp {
    PreOp {
        enabled: true,
        kind: PreOpKind::SetVariable {
            scope,
            key: key.into(),
            value: value.into(),
        },
    }
}

fn json(path: &str) -> ResponseSource {
    ResponseSource::JsonPath { path: path.into() }
}

fn header(name: &str) -> ResponseSource {
    ResponseSource::Header { name: name.into() }
}

#[test]
fn json_path_subset() {
    let v: serde_json::Value = serde_json::from_str(
        r#"{"data":{"token":"T","items":[{"id":1},{"id":"two"}],"n":null,"ok":true,"k.v":3,"x]y":4,"a'b":5}}"#,
    )
    .unwrap();
    let s = |p: &str| json_path::get(&v, p).map(json_path::value_to_string);
    assert_eq!(s("$.data.token").as_deref(), Some("T"));
    assert_eq!(s("data.token").as_deref(), Some("T"));
    assert_eq!(s("$.data.items[0].id").as_deref(), Some("1"));
    assert_eq!(s("data.items[1].id").as_deref(), Some("two"));
    assert_eq!(s("data.n").as_deref(), Some("null"));
    assert_eq!(s("data.ok").as_deref(), Some("true"));
    assert_eq!(s(r#"data["k.v"]"#).as_deref(), Some("3"));
    assert_eq!(s("data['k.v']").as_deref(), Some("3"));
    assert_eq!(s("data.items[0]").as_deref(), Some(r#"{"id":1}"#));
    assert_eq!(s("$").as_deref().map(|x| x.starts_with('{')), Some(true));
    assert_eq!(s(r#"data["x]y"]"#).as_deref(), Some("4"));
    assert_eq!(s("data['x]y']").as_deref(), Some("4"));
    assert_eq!(s(r#"data["a'b"]"#).as_deref(), Some("5"));
    assert_eq!(s(r#"data["x]y"#), None);
    assert_eq!(s(r#"data["x]y']"#), None);
    assert_eq!(s("data.missing"), None);
    assert_eq!(s("data.items[9]"), None);
    assert_eq!(s("data.items[x]"), None);
    assert_eq!(s("data..token"), None);
}

#[test]
fn pre_ops_resolve_values_in_order_and_skip_unavailable_scopes() {
    let mut sets = VariableSets::default();
    sets.globals.push(Variable::new("base", "B"));
    let ops = vec![
        set_variable(VarScope::Global, "a", "{{base}}-1"),
        set_variable(VarScope::Global, "b", "{{a}}-2"),
        PreOp {
            enabled: false,
            ..set_variable(VarScope::Global, "never", "x")
        },
        set_variable(VarScope::Environment, "e", "x"),
        set_variable(VarScope::Group, "g", "x"),
        set_variable(VarScope::Global, "  ", "x"),
    ];
    let results = run_pre_ops(&ops, &mut sets, None);
    assert_eq!(results.len(), 5, "禁用的不出现在结果里");
    assert_eq!(results[0].1, OpOutcome::Passed);
    assert_eq!(results[1].1, OpOutcome::Passed);
    assert_eq!(
        results[2].1,
        OpOutcome::Skipped(OpSkip::NoActiveEnvironment)
    );
    assert_eq!(results[3].1, OpOutcome::Skipped(OpSkip::NoGroup));
    assert_eq!(results[4].1, OpOutcome::Failed(OpFailure::EmptyKey));
    let get = |k: &str| {
        sets.globals
            .iter()
            .find(|v| v.key == k)
            .map(|v| v.value.clone())
    };
    assert_eq!(get("a").as_deref(), Some("B-1"));
    assert_eq!(get("b").as_deref(), Some("B-1-2"));
    assert_eq!(get("never"), None);

    let env = Environment::new("dev");
    sets.active_environment = Some(env.id);
    sets.environments.push(env);
    let results = run_pre_ops(&ops[3..5], &mut sets, Some("grp"));
    assert!(results.iter().all(|(_, o)| *o == OpOutcome::Passed));
    assert_eq!(sets.active_env().unwrap().variables[0].key, "e");
    assert_eq!(sets.group_vars(Some("grp"))[0].key, "g");
}

#[test]
fn post_ops_extract_and_assert_against_json_body() {
    let body = br#"{"data":{"token":"T","n":5}}"#;
    let m = meta(
        200,
        &[("Content-Type", "application/json"), ("X-Req", "abc")],
    );
    let ops = vec![
        extract(VarScope::Global, "token", json("$.data.token")),
        extract(VarScope::Environment, "req", header("x-req")),
        extract(VarScope::Group, "code", ResponseSource::Status),
        extract(VarScope::Global, "", json("$.data.token")),
        extract(VarScope::Global, "nope", json("$.data.nope")),
        extract(VarScope::Global, "h", header("X-Missing")),
        assert_op(ResponseSource::Status, AssertOp::Equals, "200"),
        assert_op(ResponseSource::Status, AssertOp::Equals, "201"),
        assert_op(ResponseSource::Status, AssertOp::NotEquals, "200"),
        assert_op(json("data.n"), AssertOp::Contains, "5"),
        assert_op(json("data.token"), AssertOp::Contains, "zzz"),
        assert_op(json("data.token"), AssertOp::Exists, ""),
        assert_op(json("data.missing"), AssertOp::Exists, ""),
        assert_op(header("x-missing"), AssertOp::Exists, ""),
        PostOp {
            enabled: false,
            ..assert_op(ResponseSource::Status, AssertOp::Equals, "500")
        },
    ];
    let report = run_post_ops(&ops, &m, Some(body));
    let outcomes: Vec<&OpOutcome> = report.results.iter().map(|(_, o)| o).collect();
    assert_eq!(outcomes.len(), 14, "禁用的不参与");
    assert_eq!(*outcomes[0], OpOutcome::Passed);
    assert_eq!(*outcomes[1], OpOutcome::Passed);
    assert_eq!(*outcomes[2], OpOutcome::Passed);
    assert_eq!(*outcomes[3], OpOutcome::Failed(OpFailure::EmptyKey));
    assert_eq!(
        *outcomes[4],
        OpOutcome::Failed(OpFailure::PathNotFound("$.data.nope".into()))
    );
    assert_eq!(
        *outcomes[5],
        OpOutcome::Failed(OpFailure::HeaderNotFound("X-Missing".into()))
    );
    assert_eq!(*outcomes[6], OpOutcome::Passed);
    assert_eq!(
        *outcomes[7],
        OpOutcome::Failed(OpFailure::Mismatch {
            actual: "200".into(),
            expected: "201".into()
        })
    );
    assert_eq!(
        *outcomes[8],
        OpOutcome::Failed(OpFailure::Unexpected {
            actual: "200".into()
        })
    );
    assert_eq!(*outcomes[9], OpOutcome::Passed);
    assert!(matches!(
        outcomes[10],
        OpOutcome::Failed(OpFailure::Mismatch { .. })
    ));
    assert_eq!(*outcomes[11], OpOutcome::Passed);
    assert_eq!(*outcomes[12], OpOutcome::Failed(OpFailure::Missing));
    assert_eq!(*outcomes[13], OpOutcome::Failed(OpFailure::Missing));
    assert_eq!(
        report.extracted,
        vec![
            Extracted {
                scope: VarScope::Global,
                key: "token".into(),
                value: "T".into()
            },
            Extracted {
                scope: VarScope::Environment,
                key: "req".into(),
                value: "abc".into()
            },
            Extracted {
                scope: VarScope::Group,
                key: "code".into(),
                value: "200".into()
            },
        ]
    );
}

#[test]
fn post_ops_report_body_problems_only_for_json_sources() {
    let m = meta(204, &[]);
    let ops = vec![
        extract(VarScope::Global, "a", json("$.a")),
        assert_op(ResponseSource::Status, AssertOp::Equals, "204"),
    ];
    let r = run_post_ops(&ops, &m, None);
    assert_eq!(
        r.results[0].1,
        OpOutcome::Failed(OpFailure::BodyUnavailable)
    );
    assert_eq!(r.results[1].1, OpOutcome::Passed);
    let r = run_post_ops(&ops, &m, Some(b"<html>"));
    assert_eq!(r.results[0].1, OpOutcome::Failed(OpFailure::NotJson));
    let big = vec![b' '; OPS_JSON_MAX_BYTES + 1];
    let r = run_post_ops(&ops, &m, Some(&big));
    assert_eq!(r.results[0].1, OpOutcome::Failed(OpFailure::BodyTooLarge));
    let r = run_post_ops(
        &[extract(VarScope::Global, "a", json("  "))],
        &m,
        Some(b"{}"),
    );
    assert_eq!(r.results[0].1, OpOutcome::Failed(OpFailure::EmptyPath));
    let r = run_post_ops(&ops[1..], &m, Some(&big));
    assert_eq!(r.results[0].1, OpOutcome::Passed);
}

#[test]
fn extracted_values_are_written_or_reported_as_skipped() {
    let mut sets = VariableSets::default();
    let ops = vec![
        extract(VarScope::Global, "token", json("t")),
        extract(VarScope::Group, "g", ResponseSource::Status),
        assert_op(ResponseSource::Status, AssertOp::Equals, "200"),
    ];
    let mut report = run_post_ops(&ops, &meta(200, &[]), Some(br#"{"t":"T"}"#));
    assert_eq!(report.passed(), 3);
    apply_extracted(&mut report, &mut sets, None);
    assert_eq!(sets.globals, vec![Variable::new("token", "T")]);
    assert_eq!(report.results[0].1, OpOutcome::Passed);
    assert_eq!(report.results[1].1, OpOutcome::Skipped(OpSkip::NoGroup));
    assert_eq!(report.results[2].1, OpOutcome::Passed);
    assert_eq!(report.passed(), 2);
}

#[test]
fn a_written_variable_is_read_by_the_next_operation() {
    let mut sets = VariableSets::default();
    let ops = vec![
        set_variable(VarScope::Group, "a", "1"),
        set_variable(VarScope::Group, "b", "{{a}}{{a}}"),
    ];
    run_pre_ops(&ops, &mut sets, Some("g"));
    let values: Vec<&str> = sets
        .group_vars(Some("g"))
        .iter()
        .map(|v| v.value.as_str())
        .collect();
    assert_eq!(values, ["1", "11"]);
    assert!(sets.group_vars(None).is_empty());
    assert!(sets.active_env().is_none());
}
