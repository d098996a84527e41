use getcat::model::Variable;
use getcat::postman_env::{
    parse, render, render_at, PostmanEnvError, PostmanScope,
};

#[test]
fn parses_environment_with_secret_and_disabled_values() {
    let text = r#"{
      "id": "abc", "name": "Dev",
      "values": [
        {"key": "host", "value": "h", "enabled": true, "type": "default"},
        {"key": "token", "value": "t", "enabled": false, "type": "secret"},
        {"key": "legacy", "value": "x"}
      ],
      "_postman_variable_scope": "environment",
      "_postman_exported_at": "2026-09-15T00:00:00.000Z"
    }"#;
    let env = parse(text).unwrap();
    assert_eq!(env.name, "Dev");
    assert_eq!(env.scope, PostmanScope::Environment);
    assert_eq!(env.variables.len(), 3);
    assert_eq!(env.variables[0], Variable::new("host", "h"));
    assert!(env.variables[1].secret && !env.variables[1].enabled);
    assert!(env.variables[2].enabled);
}

#[test]
fn scope_defaults_to_environment_and_globals_is_recognised() {
    let env = parse(r#"{"values":[]}"#).unwrap();
    assert_eq!(env.scope, PostmanScope::Environment);
    assert_eq!(env.name, "");
    let g = parse(r#"{"name":"g","values":[],"_postman_variable_scope":"globals"}"#).unwrap();
    assert_eq!(g.scope, PostmanScope::Globals);
}

#[test]
fn rejects_non_json_and_non_environments() {
    assert!(matches!(parse("{"), Err(PostmanEnvError::Json(_))));
    assert_eq!(parse("[]"), Err(PostmanEnvError::NotEnvironment));
    assert_eq!(
        parse(r#"{"name":"x"}"#),
        Err(PostmanEnvError::NotEnvironment)
    );
    assert_eq!(
        parse(r#"{"values":{}}"#),
        Err(PostmanEnvError::NotEnvironment)
    );
}

#[test]
fn render_round_trips_through_parse() {
    let vars = vec![
        Variable::new("host", "h"),
        Variable {
            secret: true,
            enabled: false,
            ..Variable::new("token", "t")
        },
    ];
    let text = render("Dev", PostmanScope::Globals, &vars);
    assert!(
        text.contains(r#""_postman_variable_scope": "globals""#),
        "{text}"
    );
    assert!(text.contains(r#""type": "secret""#), "{text}");
    let back = parse(&text).unwrap();
    assert_eq!(back.name, "Dev");
    assert_eq!(back.scope, PostmanScope::Globals);
    assert_eq!(back.variables, vars);
}

#[test]
fn tolerates_non_string_values_and_unknown_scope() {
    let text = r#"{
      "name": "Mixed",
      "values": [
        {"key": "port", "value": 8080, "enabled": true},
        {"key": "debug", "value": true, "enabled": true},
        {"key": "empty", "value": null, "enabled": true},
        {"key": "config", "value": {"a": 1}, "enabled": true}
      ]
    }"#;
    let env = parse(text).unwrap();
    assert_eq!(env.variables[0].value, "8080");
    assert_eq!(env.variables[1].value, "true");
    assert_eq!(env.variables[2].value, "");
    assert_eq!(env.variables[3].value, r#"{"a":1}"#);

    let unknown_scope =
        parse(r#"{"name":"x","values":[],"_postman_variable_scope":"workspace"}"#).unwrap();
    assert_eq!(unknown_scope.scope, PostmanScope::Environment);

    let numeric_scope =
        parse(r#"{"name":"x","values":[],"_postman_variable_scope":123}"#).unwrap();
    assert_eq!(numeric_scope.scope, PostmanScope::Environment);

    assert_eq!(
        parse(r#"{"values":[{"value":"x"}]}"#),
        Err(PostmanEnvError::NotEnvironment)
    );
}

#[test]
fn an_exported_file_has_a_fixed_shape() {
    let text = render_at(
        "id-1",
        1_767_225_600,
        "Dev",
        PostmanScope::Environment,
        &[Variable::new("a", "1\"2")],
    );
    let expected = r#"{
  "id": "id-1",
  "name": "Dev",
  "values": [
    {
      "key": "a",
      "value": "1\"2",
      "enabled": true,
      "type": "default"
    }
  ],
  "_postman_variable_scope": "environment",
  "_postman_exported_at": "2026-01-01T00:00:00Z",
  "_postman_exported_using": "GetCat/0.1.0"
}"#;
    assert_eq!(text.trim_end(), expected);
    assert!(matches!(parse("{").unwrap_err(), PostmanEnvError::Json(_)));
    assert!(parse("{").unwrap_err().message().starts_with("not valid JSON: "));
}
