use lazyswamp::app::{move_index, Focus, Tab};
use lazyswamp::config::DEFAULT_PREVIEW_LIMIT;
use lazyswamp::content::{method_names, method_panel};
use lazyswamp::diff::{json_diff, text_diff};
use lazyswamp::json::{json_eq, JsonNumber, JsonValue};
use lazyswamp::panels::{header_title, model_summary, panel_title, Panel};
use lazyswamp::schema::{build_payload, form_for, is_destructive_method, redacted_payload, FormMode};
use lazyswamp::state::App;
use lazyswamp::swamp::process::historical_predicate;
use lazyswamp::swamp::{MethodSpec, ModelDetails};
use lazyswamp::ui::{format_output_specifications, Piece};

fn s(t: &str) -> JsonValue {
    JsonValue::String(t.to_string())
}

fn n(v: u64) -> JsonValue {
    JsonValue::Number(JsonNumber::PosInt(v))
}

fn b(v: bool) -> JsonValue {
    JsonValue::Bool(v)
}

fn arr(items: Vec<JsonValue>) -> JsonValue {
    JsonValue::Array(items)
}

/// An object with its members ordered by key.
fn obj(members: Vec<(&str, JsonValue)>) -> JsonValue {
    let mut ms: Vec<(String, JsonValue)> = members.into_iter().map(|(k, v)| (k.to_string(), v)).collect();
    ms.sort_by(|a, b| a.0.cmp(&b.0));
    JsonValue::Object(ms)
}

fn lines_text(lines: &[Vec<Piece>], sep: &str) -> String {
    lines
        .iter()
        .flat_map(|line| line.iter().map(|p| p.text.clone()))
        .collect::<Vec<_>>()
        .join(sep)
}

#[test]
fn selection_is_bounded() {
    assert_eq!(move_index(0, 3, -1), 0);
    assert_eq!(move_index(1, 3, 1), 2);
    assert_eq!(move_index(2, 3, 1), 2);
    assert_eq!(move_index(2, 0, -1), 0);
}

#[test]
fn reports_structural_json_changes() {
    let output = json_diff(&obj(vec![("a", n(1)), ("gone", b(true))]), &obj(vec![("a", n(2)), ("new", arr(vec![]))]));
    assert!(output.contains("~ $.a: 1 -> 2"));
    assert!(output.contains("- $.gone = true"));
    assert!(output.contains("+ $.new = []"));
}

#[test]
fn produces_unified_text_lines() {
    assert_eq!(text_diff("v1", "a\nb", "v2", "a\nc"), "--- v1\n+++ v2\n a\n+c\n-b");
}

#[test]
fn builds_and_validates_common_fields() {
    let schema = obj(vec![
        ("type", s("object")),
        (
            "properties",
            obj(vec![
                ("name", obj(vec![("type", s("string")), ("minLength", n(2))])),
                ("count", obj(vec![("type", s("integer")), ("minimum", n(1))])),
                ("enabled", obj(vec![("type", s("boolean"))])),
            ]),
        ),
        ("required", arr(vec![s("name"), s("count")])),
        ("additionalProperties", b(false)),
    ]);
    let FormMode::Fields(mut fields) = form_for(&schema) else {
        panic!("expected fields")
    };
    fields.iter_mut().find(|f| f.label == "name").unwrap().value = "ok".into();
    fields.iter_mut().find(|f| f.label == "count").unwrap().value = "2".into();
    let payload = build_payload(&FormMode::Fields(fields), &schema).ok().unwrap();
    assert!(json_eq(&payload, &obj(vec![("name", s("ok")), ("count", n(2)), ("enabled", b(false))])));
}

#[test]
fn redacts_schema_marked_secrets() {
    let schema = obj(vec![
        ("type", s("object")),
        (
            "properties",
            obj(vec![
                ("token", obj(vec![("type", s("string")), ("writeOnly", b(true))])),
                ("name", obj(vec![("type", s("string"))])),
            ]),
        ),
    ]);
    let redacted = redacted_payload(&obj(vec![("token", s("secret")), ("name", s("visible"))]), &schema);
    assert!(json_eq(&redacted, &obj(vec![("token", s("<redacted>")), ("name", s("visible"))])));
}

#[test]
fn destructive_detection_uses_tokens() {
    assert!(is_destructive_method("destroy-instance"));
    assert!(is_destructive_method("destroyInstance"));
    assert!(!is_destructive_method("restore"));
}

#[test]
fn escapes_cel_string_values() {
    assert_eq!(
        historical_predicate("a\"b", "line\nname", 7),
        "modelName == \"a\\\"b\" && name == \"line\\nname\" && version == 7"
    );
}

#[test]
fn renders_empty_application_shell() {
    let app = App::new(DEFAULT_PREVIEW_LIMIT);
    let rendered = format!(
        "{}{}",
        header_title(&app.swamp_version, "/repo"),
        lines_text(&model_summary(app.detail.as_ref(), app.selected_model()), "\n")
    );
    assert!(rendered.contains("Lazyswamp"));
    assert!(rendered.contains("Select a model"));
}

#[test]
fn formats_method_arguments_as_readable_rows() {
    let mut app = App::new(DEFAULT_PREVIEW_LIMIT);
    app.detail = Some(ModelDetails {
        id: "model-id".to_owned(),
        name: "hello-world".to_owned(),
        model_type: "command/shell".to_owned(),
        version: Some(1),
        type_version: Some("1".to_owned()),
        tags: obj(vec![]),
        global_arguments: obj(vec![("apiKey", s("secret-value"))]),
        methods: vec![MethodSpec {
            name: "execute".to_owned(),
            description: "Run a command".to_owned(),
            arguments: obj(vec![
                ("type", s("object")),
                (
                    "properties",
                    obj(vec![(
                        "command",
                        obj(vec![
                            ("type", s("string")),
                            ("description", s("Command to run")),
                            ("maxLength", n(100)),
                        ]),
                    )]),
                ),
                ("required", arr(vec![s("command")])),
            ]),
        }],
    });
    app.tab = Tab::Overview;
    app.focus = Focus::Content;
    let rendered = [
        panel_title(Panel::Definition).to_string(),
        lines_text(&model_summary(app.detail.as_ref(), app.selected_model()), "\n"),
        panel_title(Panel::Methods).to_string(),
        method_names(&app).join("\n"),
        lines_text(&method_panel(&app), "\n"),
    ]
    .join("\n");
    assert!(rendered.contains("command"));
    assert!(rendered.contains("required"));
    assert!(rendered.contains("max: 100"));
    assert!(rendered.contains("Command to run"));
    assert!(rendered.contains("Definition details"));
    assert!(rendered.contains("Type methods"));
    assert!(!rendered.contains("\"properties\""));
    assert!(rendered.contains("••••••••"));
}

#[test]
fn formats_output_specifications_without_raw_schema_dump() {
    let specs = vec![obj(vec![
        ("specName", s("clustering-summary")),
        ("description", s("Recurring-place clustering summary")),
        ("kind", s("resource")),
        ("lifetime", s("infinite")),
        ("garbageCollection", n(20)),
        (
            "schema",
            obj(vec![
                ("type", s("object")),
                (
                    "properties",
                    obj(vec![(
                        "clusterCount",
                        obj(vec![("type", s("integer")), ("description", s("Number of clusters"))]),
                    )]),
                ),
                ("required", arr(vec![s("clusterCount")])),
            ]),
        ),
    ])];
    let rendered = lines_text(&format_output_specifications(&specs, 0, Some(0)), "\n");
    assert!(rendered.contains("Recurring-place clustering summary"));
    assert!(rendered.contains("clustering-summary"));
    assert!(!rendered.contains("Output 1"));
    assert!(rendered.contains("kind: resource"));
    assert!(rendered.contains("garbage collection: 20"));
    assert!(rendered.contains("clusterCount"));
    assert!(rendered.contains("Number of clusters"));
    assert!(!rendered.contains("properties"));
}

#[test]
fn redaction_reaches_nested_secrets_and_keeps_everything_else() {
    let secret = obj(vec![("type", s("string")), ("writeOnly", b(true))]);
    let password = obj(vec![("type", s("string")), ("format", s("password"))]);
    let schema = obj(vec![
        ("type", s("object")),
        (
            "properties",
            obj(vec![
                (
                    "db",
                    obj(vec![("type", s("object")), ("properties", obj(vec![("password", password)]))]),
                ),
                ("keys", obj(vec![("type", s("array")), ("items", secret)])),
            ]),
        ),
    ]);
    let payload = obj(vec![
        ("db", obj(vec![("host", s("h")), ("password", s("p")), ("port", n(5432))])),
        ("keys", arr(vec![s("k1"), s("k2")])),
        ("other", arr(vec![n(1), b(false)])),
    ]);
    let expected = obj(vec![
        ("db", obj(vec![("host", s("h")), ("password", s("<redacted>")), ("port", n(5432))])),
        ("keys", arr(vec![s("<redacted>"), s("<redacted>")])),
        ("other", arr(vec![n(1), b(false)])),
    ]);
    let once = redacted_payload(&payload, &schema);
    assert!(json_eq(&once, &expected));
    assert!(json_eq(&redacted_payload(&once, &schema), &once));
}

#[test]
fn moving_in_an_empty_list_stays_at_zero() {
    assert_eq!(move_index(usize::MAX, 0, 1), 0);
    assert_eq!(move_index(7, 0, isize::MAX), 0);
}

#[test]
fn raw_json_input_is_read_by_the_library() {
    let schema = obj(vec![("type", s("object")), ("required", arr(vec![s("command")]))]);
    match build_payload(&FormMode::RawJson("{".to_string()), &schema) {
        Err(lazyswamp::error::Error::Validation(m)) => assert!(m.starts_with("raw input is not valid JSON: ")),
        _ => panic!("expected a validation error"),
    }
    let payload = build_payload(&FormMode::RawJson("{\"command\": \"ls\", \"n\": 2}".to_string()), &schema).ok().unwrap();
    assert!(json_eq(&payload, &obj(vec![("command", s("ls")), ("n", n(2))])));
    match build_payload(&FormMode::RawJson("{}".to_string()), &schema) {
        Err(lazyswamp::error::Error::Validation(m)) => assert!(m.contains("command")),
        _ => panic!("expected the missing property"),
    }
}
