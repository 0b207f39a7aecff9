use lazyswamp::swamp::Tags;
use lazyswamp::app::{Focus, InputMode, Tab};
use lazyswamp::json::{json_eq, JsonValue};
use lazyswamp::state::{App, Effect, Key, KeyCode};
use lazyswamp::swamp::{DataArtifact, MethodSpec, ModelDetails, ModelSummary};

fn s(t: &str) -> JsonValue {
    JsonValue::String(t.to_string())
}

fn arr(items: Vec<JsonValue>) -> JsonValue {
    JsonValue::Array(items)
}

fn obj(members: Vec<(&str, JsonValue)>) -> JsonValue {
    let mut ms: Vec<(String, JsonValue)> = members.into_iter().map(|(k, v)| (k.to_string(), v)).collect();
    ms.sort_by(|a, b| a.0.cmp(&b.0));
    JsonValue::Object(ms)
}

fn key(code: KeyCode) -> Key {
    Key { code, ctrl: false }
}

fn command_schema() -> JsonValue {
    obj(vec![
        ("type", s("object")),
        ("properties", obj(vec![("command", obj(vec![("type", s("string"))]))])),
        ("required", arr(vec![s("command")])),
    ])
}

fn method(name: &str) -> MethodSpec {
    MethodSpec { name: name.to_string(), description: String::new(), arguments: command_schema() }
}

fn details(method_name: &str) -> ModelDetails {
    ModelDetails {
        id: "model-id".to_string(),
        name: "hello-world".to_string(),
        model_type: "command/shell".to_string(),
        version: Some(1),
        type_version: None,
        tags: obj(vec![]),
        global_arguments: obj(vec![]),
        methods: vec![method(method_name)],
    }
}

/// A browser showing one model whose definition offers one method.
fn browser(method_name: &str) -> App {
    let mut app = App::new(1024);
    app.models = vec![ModelSummary {
        id: "model-id".to_string(),
        name: "hello-world".to_string(),
        model_type: "command/shell".to_string(),
        global_arguments_schema: None,
        methods: vec![method(method_name)],
    }];
    app.apply_filter();
    app.detail = Some(details(method_name));
    app.tab = Tab::Overview;
    app.focus = Focus::Content;
    app
}

/// Opens the method form, types a command and submits it for review.
fn review(app: &mut App) -> JsonValue {
    assert!(app.handle_key(key(KeyCode::Enter)).is_empty());
    assert!(matches!(app.mode, InputMode::MethodForm));
    for c in "ls".chars() {
        assert!(app.handle_key(key(KeyCode::Char(c))).is_empty());
    }
    let effects = app.handle_key(key(KeyCode::Enter));
    let payload = match effects.as_slice() {
        [Effect::Validate { model, method, payload }] => {
            assert_eq!(model, "hello-world");
            assert!(method == "execute" || method == "destroy");
            assert!(json_eq(payload, &obj(vec![("command", s("ls"))])));
            obj(vec![("command", s("ls"))])
        },
        _ => panic!("expected a validation request"),
    };
    app.validated(obj(vec![("command", s("ls"))]), Ok(()));
    assert!(matches!(app.mode, InputMode::Review));
    payload
}

#[test]
fn reviewed_method_runs_the_validated_payload() {
    let mut app = browser("execute");
    let payload = review(&mut app);
    let effects = app.handle_key(key(KeyCode::Char('y')));
    match effects.as_slice() {
        [Effect::Run { model, method, payload: p }] => {
            assert_eq!(model, "hello-world");
            assert_eq!(method, "execute");
            assert!(json_eq(p, &payload));
        },
        _ => panic!("expected a run"),
    }
    app.run_started("hello-world".to_string(), "execute".to_string(), Ok(()));
    assert!(app.run_active);
    assert!(matches!(app.mode, InputMode::Normal));
}

#[test]
fn no_run_without_review() {
    let mut app = browser("execute");
    for code in [KeyCode::Char('y'), KeyCode::Enter, KeyCode::Char('r'), KeyCode::Down, KeyCode::Char('2')] {
        let effects = app.handle_key(key(code));
        assert!(!effects.iter().any(|e| matches!(e, Effect::Run { .. } | Effect::Recheck { .. })));
    }
}

#[test]
fn destructive_method_needs_the_model_name_and_a_recheck() {
    let mut app = browser("destroy");
    review(&mut app);
    assert!(app.handle_key(key(KeyCode::Char('y'))).is_empty());
    assert!(matches!(app.mode, InputMode::DestructiveConfirm(_)));
    for c in "hello".chars() {
        app.handle_key(key(KeyCode::Char(c)));
    }
    assert!(app.handle_key(key(KeyCode::Enter)).is_empty());
    assert_eq!(app.error.as_deref(), Some("The confirmation must exactly match the model name"));
    for c in "-world".chars() {
        app.handle_key(key(KeyCode::Char(c)));
    }
    let effects = app.handle_key(key(KeyCode::Enter));
    match effects.as_slice() {
        [Effect::Recheck { model, method, id }] => {
            assert_eq!(model, "hello-world");
            assert_eq!(method, "destroy");
            assert_eq!(id, "model-id");
        },
        _ => panic!("expected a recheck"),
    }
    let mut changed = details("destroy");
    changed.id = "other-id".to_string();
    let mut effects = Vec::new();
    app.rechecked("hello-world".to_string(), "destroy".to_string(), "model-id".to_string(), Ok(changed), &mut effects);
    assert!(effects.is_empty());
    assert_eq!(app.error.as_deref(), Some("The model changed after review; refresh and review again"));
    let mut effects = Vec::new();
    app.rechecked(
        "hello-world".to_string(),
        "destroy".to_string(),
        "model-id".to_string(),
        Ok(details("destroy")),
        &mut effects,
    );
    assert!(matches!(effects.as_slice(), [Effect::Run { .. }]));
}

fn artifact(size: u64) -> DataArtifact {
    DataArtifact {
        id: "a1".to_string(),
        name: "result".to_string(),
        model_id: "model-id".to_string(),
        model_name: "hello-world".to_string(),
        version: 3,
        content_type: "application/json".to_string(),
        data_type: "resource".to_string(),
        streaming: false,
        size,
        created_at: "2024-01-01T00:00:00Z".to_string(),
        lifetime: String::new(),
        owner_type: String::new(),
        tags: Tags::new(),
    }
}

#[test]
fn large_content_needs_confirmation() {
    let mut app = browser("execute");
    app.tab = Tab::Data;
    app.artifacts = vec![artifact(4096)];
    assert!(app.handle_key(key(KeyCode::Enter)).is_empty());
    assert!(matches!(app.mode, InputMode::LargeConfirm(_)));
    let effects = app.handle_key(key(KeyCode::Char('y')));
    match effects.as_slice() {
        [Effect::FetchLatest { model, name }] => {
            assert_eq!(model, "hello-world");
            assert_eq!(name, "result");
        },
        _ => panic!("expected a fetch"),
    }
}

#[test]
fn small_content_loads_at_once() {
    let mut app = browser("execute");
    app.tab = Tab::Data;
    app.artifacts = vec![artifact(10)];
    let effects = app.handle_key(key(KeyCode::Enter));
    assert!(matches!(effects.as_slice(), [Effect::FetchLatest { .. }]));
    assert!(matches!(app.mode, InputMode::Normal));
}

#[test]
fn help_opens_and_closes() {
    let mut app = App::new(1024);
    app.handle_key(key(KeyCode::Char('?')));
    assert!(matches!(app.mode, InputMode::Help));
    app.handle_key(key(KeyCode::Esc));
    assert!(matches!(app.mode, InputMode::Normal));
    app.handle_key(key(KeyCode::Char('q')));
    assert!(app.should_quit);
}

#[test]
fn search_filters_models_by_name_or_type() {
    let mut app = App::new(1024);
    app.models = vec![
        ModelSummary {
            id: "1".to_string(),
            name: "alpha".to_string(),
            model_type: "command/shell".to_string(),
            global_arguments_schema: None,
            methods: Vec::new(),
        },
        ModelSummary {
            id: "2".to_string(),
            name: "beta".to_string(),
            model_type: "aws/ec2".to_string(),
            global_arguments_schema: None,
            methods: Vec::new(),
        },
    ];
    app.apply_filter();
    assert_eq!(app.filtered_models, vec![0, 1]);
    app.handle_key(key(KeyCode::Char('/')));
    assert!(matches!(app.mode, InputMode::Search));
    for c in "EC2".chars() {
        app.handle_key(key(KeyCode::Char(c)));
    }
    assert_eq!(app.filtered_models, vec![1]);
    app.handle_key(key(KeyCode::Esc));
    assert_eq!(app.filtered_models, vec![0, 1]);
}

#[test]
fn run_log_keeps_the_newest_lines() {
    let mut app = App::new(1024);
    let events: Vec<lazyswamp::swamp::RunEvent> =
        (0..2005).map(|i| lazyswamp::swamp::RunEvent::Log(format!("line {i}"))).collect();
    let mut effects = Vec::new();
    app.run_events(events, &mut effects);
    assert_eq!(app.run_logs.len(), 2000);
    assert_eq!(app.run_logs[0], "line 5");
    assert_eq!(app.run_logs[1999], "line 2004");
    assert!(effects.is_empty());
}

#[test]
fn a_finished_run_refreshes_its_data() {
    let mut app = browser("execute");
    app.run_active = true;
    app.running_model = Some("hello-world".to_string());
    let mut effects = Vec::new();
    app.run_events(
        vec![lazyswamp::swamp::RunEvent::Finished {
            success: true,
            lock_contended: false,
            message: "Method completed successfully".to_string(),
        }],
        &mut effects,
    );
    assert!(!app.run_active);
    assert_eq!(app.status, "Loading data for hello-world…");
    assert!(effects.iter().any(|e| matches!(e, Effect::FetchData { name, delay_ms: 0 } if name == "hello-world")));
}

#[test]
fn number_keys_open_overview_methods_data_and_workflows() {
    let mut app = browser("execute");
    app.handle_key(key(KeyCode::Char('3')));
    assert!(matches!(app.tab, Tab::Data));
    app.handle_key(key(KeyCode::Char('4')));
    assert!(matches!(app.tab, Tab::Workflows));
    app.handle_key(key(KeyCode::Char('2')));
    assert!(matches!(app.tab, Tab::Overview));
    assert!(matches!(app.focus, Focus::Content));
    app.handle_key(key(KeyCode::Char('3')));
    app.handle_key(key(KeyCode::Char('1')));
    assert!(matches!(app.tab, Tab::Overview));
}
