use lazyswamp::swamp::Tags;
use lazyswamp::app::cycle_field;
use lazyswamp::cache::Cache;
use lazyswamp::content::{step_details_text, workflow_summary_text};
use lazyswamp::dag::{dag_layout, dag_nodes, label_for};
use lazyswamp::diff::{display_content, json_diff, text_diff};
use lazyswamp::error::Error;
use lazyswamp::grid::{draw_horizontal, put_route, route_edge};
use lazyswamp::json::{json_eq, JsonNumber, JsonValue};
use lazyswamp::panels::{centered_rect, dialog, Area};
use lazyswamp::schema::{form_for, parse_field, validate, FieldKind, FormField, FormMode};
use lazyswamp::state::App;
use lazyswamp::swamp::data::{
    first_result, listed_artifacts, sort_newest_first, versions_highest_first, DataGroup, DataListResponse,
    QueryResponse, VersionsResponse,
};
use lazyswamp::swamp::process::{
    command_error, invocation, run_finished, trimmed, Envelope, Query,
};
use lazyswamp::swamp::workflow::{
    WorkflowJob, WorkflowJobDependency, WorkflowStep, WorkflowStepDependency, WorkflowTask,
};
use lazyswamp::swamp::{DataArtifact, DataContent, DataVersion, RunEvent, WorkflowDefinition};
use lazyswamp::ui::{format_global_arguments, format_schema_arguments, is_secret_name, value_kind, Piece};

fn s(t: &str) -> JsonValue {
    JsonValue::String(t.to_string())
}

fn n(v: u64) -> JsonValue {
    JsonValue::Number(JsonNumber::PosInt(v))
}

fn f(t: &str) -> JsonValue {
    JsonValue::Number(JsonNumber::Float(t.to_string()))
}

fn arr(items: Vec<JsonValue>) -> JsonValue {
    JsonValue::Array(items)
}

fn obj(members: Vec<(&str, JsonValue)>) -> JsonValue {
    let mut ms: Vec<(String, JsonValue)> = members.into_iter().map(|(k, v)| (k.to_string(), v)).collect();
    ms.sort_by(|a, b| a.0.cmp(&b.0));
    JsonValue::Object(ms)
}

fn texts(lines: &[Vec<Piece>]) -> Vec<String> {
    lines.iter().map(|l| l.iter().map(|p| p.text.clone()).collect::<String>()).collect()
}

fn field(label: &str, kind: FieldKind, value: &str) -> FormField {
    FormField {
        path: vec![label.to_string()],
        label: label.to_string(),
        description: String::new(),
        required: false,
        secret: false,
        kind,
        value: value.to_string(),
    }
}

fn artifact(name: &str, created_at: &str) -> DataArtifact {
    DataArtifact {
        id: name.to_string(),
        name: name.to_string(),
        model_id: String::new(),
        model_name: String::new(),
        version: 1,
        content_type: "text/plain".to_string(),
        data_type: String::new(),
        streaming: false,
        size: 1,
        created_at: created_at.to_string(),
        lifetime: String::new(),
        owner_type: String::new(),
        tags: Tags::new(),
    }
}

fn version(v: u64) -> DataVersion {
    DataVersion { version: v, created_at: String::new(), size: 1, checksum: String::new(), is_latest: false }
}

#[test]
fn identical_json_has_no_differences() {
    let v = obj(vec![("a", n(1)), ("b", arr(vec![s("x")]))]);
    assert_eq!(json_diff(&v, &v), "No differences");
}

#[test]
fn json_diff_walks_arrays_by_index() {
    let out = json_diff(&arr(vec![n(1), n(2)]), &arr(vec![n(1), n(3), n(4)]));
    assert_eq!(out, "~ $[1]: 2 -> 3\n+ $[2] = 4");
}

#[test]
fn json_diff_with_sides_exchanged_mirrors_each_line() {
    let before = obj(vec![("a", n(1)), ("gone", s("x")), ("list", arr(vec![n(1)]))]);
    let after = obj(vec![("a", n(2)), ("list", arr(vec![n(1), n(5)])), ("new", n(7))]);
    assert_eq!(
        json_diff(&before, &after),
        "~ $.a: 1 -> 2\n- $.gone = \"x\"\n+ $.list[1] = 5\n+ $.new = 7"
    );
    assert_eq!(
        json_diff(&after, &before),
        "~ $.a: 2 -> 1\n+ $.gone = \"x\"\n- $.list[1] = 5\n- $.new = 7"
    );
}

#[test]
fn text_diff_of_equal_texts_keeps_every_line() {
    assert_eq!(text_diff("a", "x\ny", "b", "x\ny"), "--- a\n+++ b\n x\n y");
}

#[test]
fn content_is_shown_by_type() {
    assert_eq!(display_content("text/plain", &s("hello")), Some("hello".to_string()));
    assert_eq!(display_content("application/json", &obj(vec![("a", n(1))])), Some("{\n  \"a\": 1\n}".to_string()));
    assert_eq!(display_content("application/octet-stream", &s("AAEC")), None);
}

#[test]
fn error_messages() {
    let e = Error::Command { status: "exit status: 2".to_string(), message: "boom".to_string(), code: Some("E1".to_string()) };
    assert_eq!(e.message(), "swamp command failed (exit status: 2, E1): boom");
    assert_eq!(Error::VersionNotFound.message(), "no matching historical data version was returned");
    assert_eq!(Error::Validation("x".to_string()).message(), "invalid method input: x");
    assert_eq!(Error::Incomplete("run stdout".to_string()).message(), "swamp returned an incomplete run stdout response");
    assert_eq!(
        Error::Spawn { program: "swamp".to_string(), source: "not found".to_string() }.message(),
        "could not start `swamp`: not found"
    );
    assert_eq!(
        Error::Json { context: "data list".to_string(), source: "eof".to_string() }.message(),
        "swamp returned incompatible JSON for data list: eof"
    );
}

#[test]
fn command_error_prefers_the_error_object() {
    let e = command_error(
        "exit status: 1".to_string(),
        None,
        Some(Envelope { error: "locked".to_string(), code: Some("LOCK".to_string()) }),
        &Vec::new(),
        &b"{}".to_vec(),
    );
    match e {
        Error::Command { status, message, code } => {
            assert_eq!(status, "exit status: 1");
            assert_eq!(message, "locked");
            assert_eq!(code.as_deref(), Some("LOCK"));
        },
        _ => panic!("expected a command error"),
    }
}

#[test]
fn command_error_falls_back_to_trimmed_stderr() {
    let e = command_error("exit status: 1".to_string(), None, None, &b"out".to_vec(), &b"  bad \xff input\n".to_vec());
    match e {
        Error::Command { message, code, .. } => {
            assert_eq!(message, "bad \u{FFFD} input");
            assert_eq!(code, None);
        },
        _ => panic!("expected a command error"),
    }
    let e = command_error("exit status: 1".to_string(), None, None, &b" only stdout ".to_vec(), &Vec::new());
    match e {
        Error::Command { message, .. } => assert_eq!(message, "only stdout"),
        _ => panic!("expected a command error"),
    }
}

#[test]
fn trims_unicode_white_space() {
    assert_eq!(trimmed("\u{3000} x y \t\n"), "x y");
}

#[test]
fn run_endings() {
    let done = |e: RunEvent| match e {
        RunEvent::Finished { success, lock_contended, message } => (success, lock_contended, message),
        RunEvent::Log(_) => panic!("expected an ending"),
    };
    assert_eq!(done(run_finished(true, Some(0), "exit status: 0")), (true, false, "Method completed successfully".to_string()));
    assert_eq!(
        done(run_finished(false, Some(75), "exit status: 75")),
        (false, true, "The model is locked by another run; retry later".to_string())
    );
    assert_eq!(done(run_finished(false, Some(2), "exit status: 2")), (false, false, "Method exited with exit status: 2".to_string()));
}

#[test]
fn command_lines() {
    let i = invocation(&Query::Model("m".to_string()));
    assert_eq!(i.args, vec!["--no-color", "model", "get", "m"]);
    assert!(i.repo_dir && i.json && !i.stdin);
    let i = invocation(&Query::Version);
    assert_eq!(i.args, vec!["--no-color", "--version"]);
    assert!(!i.repo_dir && !i.json);
    let i = invocation(&Query::DescribeType("command/shell".to_string()));
    assert_eq!(i.args, vec!["--no-color", "model", "type", "describe", "command/shell"]);
    assert!(!i.repo_dir && i.json);
    let i = invocation(&Query::Run { model: "m".to_string(), method: "go".to_string() });
    assert_eq!(i.args, vec!["--no-color", "model", "method", "run", "m", "go", "--stdin"]);
    assert!(i.repo_dir && !i.json && i.stdin);
    let i = invocation(&Query::DataVersion { model: "m".to_string(), name: "n".to_string(), version: 4 });
    assert_eq!(i.args, vec!["--no-color", "data", "query", "modelName == \"m\" && name == \"n\" && version == 4"]);
}

#[test]
fn artifacts_sorted_newest_first() {
    let sorted = sort_newest_first(vec![artifact("a", "2024-01-02"), artifact("b", "2024-03-01"), artifact("c", "2023-12-31")]);
    let names: Vec<&str> = sorted.iter().map(|a| a.name.as_str()).collect();
    assert_eq!(names, vec!["b", "a", "c"]);
}

#[test]
fn listed_artifacts_inherit_group_and_model() {
    let response = DataListResponse {
        model_id: "mid".to_string(),
        model_name: "mname".to_string(),
        groups: vec![DataGroup { data_type: "resource".to_string(), items: vec![artifact("a", "2024-01-01")] }],
    };
    let out = listed_artifacts(response);
    assert_eq!(out.len(), 1);
    assert_eq!(out[0].model_id, "mid");
    assert_eq!(out[0].model_name, "mname");
    assert_eq!(out[0].data_type, "resource");
}

#[test]
fn versions_highest_first_and_missing_version() {
    let out = versions_highest_first(VersionsResponse { versions: vec![version(2), version(5), version(1)] });
    let vs: Vec<u64> = out.iter().map(|v| v.version).collect();
    assert_eq!(vs, vec![5, 2, 1]);
    assert!(matches!(first_result(QueryResponse { results: Vec::new() }), Err(Error::VersionNotFound)));
}

#[test]
fn validation_checks_bounds_and_patterns() {
    let schema = obj(vec![
        ("type", s("object")),
        (
            "properties",
            obj(vec![
                ("size", obj(vec![("type", s("number")), ("minimum", f("1.5"))])),
                ("code", obj(vec![("type", s("string")), ("pattern", s("^[a-z]+$"))])),
            ]),
        ),
    ]);
    let errors = validate(&schema, &obj(vec![("size", n(1)), ("code", s("ABC"))]));
    assert!(errors.contains(&"$.size violates minimum 1.5".to_string()));
    assert!(errors.contains(&"$.code does not match ^[a-z]+$".to_string()));
    assert!(validate(&schema, &obj(vec![("size", f("2.5")), ("code", s("abc"))])).is_empty());
}

#[test]
fn number_fields_read_decimal_text() {
    let v = parse_field(&field("ratio", FieldKind::Number, "2.5"));
    match v {
        Ok(JsonValue::Number(JsonNumber::Float(t))) => assert_eq!(t, "2.5"),
        _ => panic!("expected a number"),
    }
    assert!(matches!(parse_field(&field("ratio", FieldKind::Number, "abc")), Err(Error::Validation(_))));
    match parse_field(&field("count", FieldKind::Integer, "-4")) {
        Ok(JsonValue::Number(JsonNumber::NegInt(-4))) => {},
        _ => panic!("expected an integer"),
    }
}

#[test]
fn complex_schemas_fall_back_to_raw_json() {
    let schema = obj(vec![("$ref", s("#/defs/x"))]);
    assert!(matches!(form_for(&schema), FormMode::RawJson(ref t) if t == "{}"));
}

#[test]
fn boolean_fields_cycle() {
    let mut b = field("on", FieldKind::Boolean, "false");
    cycle_field(&mut b);
    assert_eq!(b.value, "true");
    let mut e = field("mode", FieldKind::Enum(vec!["a".to_string(), "b".to_string()]), "b");
    cycle_field(&mut e);
    assert_eq!(e.value, "a");
}

#[test]
fn cache_keeps_the_last_value_per_name() {
    let mut c: Cache<String> = Cache::new();
    c.insert("a".to_string(), "1".to_string());
    c.insert("b".to_string(), "2".to_string());
    c.insert("a".to_string(), "3".to_string());
    assert_eq!(c.get("a"), Some(&"3".to_string()));
    assert_eq!(c.get("b"), Some(&"2".to_string()));
    assert!(!c.contains_key("c"));
    c.clear();
    assert!(c.get("a").is_none());
}

fn step(name: &str, deps: &[&str]) -> WorkflowStep {
    WorkflowStep {
        name: name.to_string(),
        description: String::new(),
        depends_on: deps
            .iter()
            .map(|d| WorkflowStepDependency { step: d.to_string(), condition: obj(vec![("type", s("succeeded"))]) })
            .collect(),
        task: WorkflowTask { task_type: "model_method".to_string(), fields: vec![("methodName".to_string(), s("run"))] },
    }
}

fn workflow() -> WorkflowDefinition {
    WorkflowDefinition {
        id: "w".to_string(),
        name: "pipeline".to_string(),
        description: "Two jobs".to_string(),
        version: Some(2),
        tags: obj(vec![]),
        jobs: vec![
            WorkflowJob {
                name: "build".to_string(),
                description: String::new(),
                depends_on: Vec::new(),
                steps: vec![step("compile", &[]), step("package", &["compile"])],
            },
            WorkflowJob {
                name: "ship".to_string(),
                description: String::new(),
                depends_on: vec![WorkflowJobDependency { job: "build".to_string(), condition: obj(vec![]) }],
                steps: vec![step("upload", &[])],
            },
        ],
        path: String::new(),
    }
}

#[test]
fn workflow_steps_are_layered_by_dependencies() {
    let w = workflow();
    let nodes = w.nodes();
    let layers: Vec<(String, usize)> = nodes.iter().map(|n| (n.step.name.clone(), n.layer)).collect();
    assert_eq!(layers, vec![("compile".to_string(), 0), ("package".to_string(), 1), ("upload".to_string(), 2)]);
    let dag = dag_nodes(&nodes);
    assert_eq!(dag[1].dependencies, vec![0]);
    assert_eq!(dag[2].dependencies, vec![1]);
}

#[test]
fn steps_listed_before_their_dependencies_are_layered_after_them() {
    let mut w = workflow();
    w.jobs[0].steps = vec![step("package", &["compile"]), step("compile", &[])];
    let nodes = w.nodes();
    let layers: Vec<(String, usize)> = nodes.iter().map(|n| (n.step.name.clone(), n.layer)).collect();
    assert_eq!(layers, vec![("package".to_string(), 1), ("compile".to_string(), 0), ("upload".to_string(), 2)]);
}

#[test]
fn workflow_texts() {
    let mut app = App::new(1024);
    app.workflow = Some(workflow());
    assert_eq!(workflow_summary_text(&app), "pipeline · v2 · 2 job(s) · 3 step(s)\nTwo jobs");
    let w = workflow();
    let nodes = w.nodes();
    assert_eq!(
        step_details_text(&nodes[1]),
        "Job: build · Step: package\nTask: model_method · Layer: 1\nMethod: run\nDepends on: compile (succeeded)\nInputs: None\n"
    );
}

#[test]
fn dag_drawing_places_layers_left_to_right() {
    let w = workflow();
    let nodes = dag_nodes(&w.nodes());
    let picture = dag_layout(&nodes, 1, 40, 5).unwrap();
    assert_eq!(picture.labels.len(), 3);
    assert!(picture.labels[0].x < picture.labels[1].x);
    assert!(picture.labels[1].x < picture.labels[2].x);
    assert!(picture.labels[1].selected);
    assert!(!picture.more_left && !picture.more_right);
    assert!(dag_layout(&nodes, 0, 4, 5).is_none());
    assert!(dag_layout(&Vec::new(), 0, 40, 5).is_none());
}

#[test]
fn labels_are_cut_with_an_ellipsis() {
    assert_eq!(label_for("compile", 9), "[compile]");
    assert_eq!(label_for("packaging", 7), "[pack…]");
    assert_eq!(label_for("ab", 6), "[ab  ]");
}

#[test]
fn routes_are_drawn_on_the_grid() {
    let mut grid = vec![vec![' '; 6]; 3];
    draw_horizontal(&mut grid, 0, 3, 1);
    put_route(&mut grid, 3, 1, '▶');
    assert_eq!(grid[1].iter().collect::<String>(), "───▶  ");
    let mut grid = vec![vec![' '; 6]; 3];
    route_edge(&mut grid, 0, 0, 5, 2);
    let rows: Vec<String> = grid.iter().map(|r| r.iter().collect()).collect();
    assert_eq!(rows, vec!["──┼   ", "  │   ", "  ┼─▶ "]);
    put_route(&mut grid, 10, 10, 'x');
    assert_eq!(grid[2].iter().collect::<String>(), "  ┼─▶ ");
}

#[test]
fn secret_looking_names() {
    assert!(is_secret_name("API_KEY"));
    assert!(is_secret_name("githubToken"));
    assert!(!is_secret_name("region"));
}

#[test]
fn global_arguments_mask_secrets_but_not_expressions() {
    let lines = texts(&format_global_arguments(&obj(vec![
        ("apiKey", s("hunter2")),
        ("password", s("${{ vault.pw }}")),
        ("region", s("eu")),
        ("count", n(3)),
    ])));
    assert_eq!(
        lines,
        vec![
            "  apiKey <string> = ••••••••",
            "  count <integer> = 3",
            "  password <string> = ${{ vault.pw }}",
            "  region <string> = eu",
        ]
    );
    assert_eq!(texts(&format_global_arguments(&n(5))), vec!["  5"]);
    assert_eq!(value_kind(&f("1.5")), "number");
}

#[test]
fn schema_arguments_nest_and_note() {
    let schema = obj(vec![(
        "properties",
        obj(vec![
            (
                "outer",
                obj(vec![
                    ("type", s("object")),
                    ("default", obj(vec![])),
                    ("properties", obj(vec![("inner", obj(vec![("enum", arr(vec![s("a")]))]))])),
                    ("required", arr(vec![s("inner")])),
                ]),
            ),
            ("any", obj(vec![("oneOf", arr(vec![]))])),
        ]),
    )]);
    assert_eq!(
        texts(&format_schema_arguments(&schema)),
        vec!["  any <JSON value>", "  outer <object> (default: {})", "    inner <enum> (required)"]
    );
    assert_eq!(texts(&format_schema_arguments(&obj(vec![("properties", obj(vec![]))]))), vec!["  None"]);
    assert_eq!(texts(&format_schema_arguments(&obj(vec![]))), vec!["  JSON value (complex schema)"]);
}

#[test]
fn dialogs_are_centred() {
    let r = centered_rect(50, 200, Area { x: 10, y: 0, width: 100, height: 40 });
    assert_eq!((r.x, r.y, r.width, r.height), (35, 0, 50, 40));
}

#[test]
fn large_content_dialog_names_the_limit() {
    let mut app = App::new(2048);
    app.mode = lazyswamp::app::InputMode::LargeConfirm(lazyswamp::app::LargeAction::Latest);
    let d = dialog(&app).unwrap();
    assert_eq!(d.title, " Large content ");
    assert!(d.text.starts_with("This operation exceeds the 2048 byte preview threshold."));
    app.mode = lazyswamp::app::InputMode::Normal;
    assert!(dialog(&app).is_none());
}

#[test]
fn content_owner_and_artifact() {
    let content = DataContent {
        id: "i".to_string(),
        name: "n".to_string(),
        model_id: String::new(),
        model_name: String::new(),
        version: 1,
        content_type: "text/plain".to_string(),
        data_type: String::new(),
        size: 1,
        created_at: String::new(),
        lifetime: String::new(),
        streaming: false,
        tags: Tags::new(),
        owner_type: String::new(),
        owner_definition: Some(lazyswamp::swamp::OwnerDefinition {
            owner_type: "model".to_string(),
            owner_ref: "r".to_string(),
        }),
        content: s("x"),
    };
    assert_eq!(content.effective_owner_type(), "model");
    assert_eq!(content.into_artifact().owner_type, "model");
}

#[test]
fn equal_numbers_compare_equal() {
    assert!(json_eq(&f("0.0"), &f("-0.0")));
    assert!(!json_eq(&n(1), &f("1.0")));
}

#[test]
fn unusable_patterns_are_not_enforced() {
    let schema = obj(vec![("type", s("string")), ("pattern", s("(")), ("maxLength", n(3))]);
    assert_eq!(validate(&schema, &s("abcd")), vec!["$ is longer than 3 characters".to_string()]);
    assert!(validate(&schema, &s("ab")).is_empty());
}

#[test]
fn io_errors_show_their_text() {
    assert_eq!(Error::Io("broken pipe".to_string()).message(), "broken pipe");
}

#[test]
fn version_output_is_decoded_and_trimmed() {
    assert_eq!(lazyswamp::swamp::process::version_text(&b" swamp 1.2.3\n".to_vec()), "swamp 1.2.3");
}

#[test]
fn tags_keep_each_key_once_in_ascending_order() {
    let mut t = Tags::new();
    t.insert("zone".to_string(), "eu".to_string());
    t.insert("app".to_string(), "web".to_string());
    t.insert("env".to_string(), "dev".to_string());
    t.insert("env".to_string(), "prod".to_string());
    let pairs: Vec<(String, String)> = t.entries().clone();
    assert_eq!(
        pairs,
        vec![
            ("app".to_string(), "web".to_string()),
            ("env".to_string(), "prod".to_string()),
            ("zone".to_string(), "eu".to_string()),
        ]
    );
}

#[test]
fn json_and_enum_fields_are_read_as_json() {
    match parse_field(&field("list", FieldKind::Json, "[1, true]")) {
        Ok(v) => assert!(json_eq(&v, &JsonValue::Array(vec![n(1), JsonValue::Bool(true)]))),
        Err(_) => panic!("expected an array"),
    }
    match parse_field(&field("list", FieldKind::Json, "[1,")) {
        Err(Error::Validation(m)) => assert_eq!(m, "list must be valid JSON"),
        _ => panic!("expected a rejection"),
    }
    let levels = FieldKind::Enum(vec!["3".to_string(), "high".to_string()]);
    match parse_field(&field("level", levels, "3")) {
        Ok(v) => assert!(json_eq(&v, &n(3))),
        Err(_) => panic!("expected a number"),
    }
    let levels = FieldKind::Enum(vec!["3".to_string(), "high".to_string()]);
    match parse_field(&field("level", levels, "high")) {
        Ok(v) => assert!(json_eq(&v, &s("high"))),
        Err(_) => panic!("expected the text"),
    }
}
