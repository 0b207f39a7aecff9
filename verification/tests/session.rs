use lazyswamp::swamp::Tags;
use lazyswamp::app::{Focus, InputMode, Tab};
use lazyswamp::config::DEFAULT_PREVIEW_LIMIT;
use lazyswamp::json::{JsonNumber, JsonValue};
use lazyswamp::schema::FormMode;
use lazyswamp::state::{App, Effect, Key, KeyCode, PreloadEvent, PreloadRequest};
use lazyswamp::swamp::workflow::{WorkflowJob, WorkflowStep, WorkflowTask};
use lazyswamp::swamp::{
    DataArtifact, DataContent, DataVersion, MethodSpec, ModelDetails, ModelSummary, RunEvent, TypeDescription,
    TypeName, WorkflowDefinition, WorkflowSummary,
};

fn s(t: &str) -> JsonValue {
    JsonValue::String(t.to_string())
}

fn n(v: u64) -> JsonValue {
    JsonValue::Number(JsonNumber::PosInt(v))
}

fn obj(members: Vec<(&str, JsonValue)>) -> JsonValue {
    let mut ms: Vec<(String, JsonValue)> = members.into_iter().map(|(k, v)| (k.to_string(), v)).collect();
    ms.sort_by(|a, b| a.0.cmp(&b.0));
    JsonValue::Object(ms)
}

fn key(code: KeyCode) -> Key {
    Key { code, ctrl: false }
}

fn method() -> MethodSpec {
    MethodSpec {
        name: "execute".to_owned(),
        description: "Execute".to_owned(),
        arguments: obj(vec![
            ("type", s("object")),
            ("properties", obj(vec![("run", obj(vec![("type", s("string")), ("minLength", n(1))]))])),
            ("required", JsonValue::Array(vec![s("run")])),
            ("additionalProperties", JsonValue::Bool(false)),
        ]),
    }
}

fn models() -> Vec<ModelSummary> {
    vec![
        ModelSummary {
            id: "model-id".to_owned(),
            name: "hello-world".to_owned(),
            model_type: "command/shell".to_owned(),
            global_arguments_schema: Some(obj(vec![("type", s("object"))])),
            methods: vec![method()],
        },
        ModelSummary {
            id: "second-model-id".to_owned(),
            name: "second-world".to_owned(),
            model_type: "command/shell".to_owned(),
            global_arguments_schema: Some(obj(vec![("type", s("object"))])),
            methods: vec![method()],
        },
    ]
}

fn details() -> ModelDetails {
    ModelDetails {
        id: "model-id".to_owned(),
        name: "hello-world".to_owned(),
        model_type: "command/shell".to_owned(),
        version: Some(1),
        type_version: Some("1".to_owned()),
        tags: obj(vec![]),
        global_arguments: obj(vec![]),
        methods: vec![method()],
    }
}

fn description() -> TypeDescription {
    TypeDescription {
        model_type: TypeName { raw: "command/shell".to_owned(), normalized: "command/shell".to_owned() },
        version: "1".to_owned(),
        methods: vec![method()],
        data_output_specs: Vec::new(),
    }
}

fn workflows() -> Vec<WorkflowSummary> {
    vec![WorkflowSummary {
        id: "workflow-id".to_owned(),
        name: "hello-flow".to_owned(),
        description: "Run hello".to_owned(),
        job_count: 1,
        has_inputs: false,
    }]
}

fn workflow() -> WorkflowDefinition {
    WorkflowDefinition {
        id: "workflow-id".to_owned(),
        name: "hello-flow".to_owned(),
        description: "Run hello".to_owned(),
        version: Some(1),
        tags: obj(vec![]),
        jobs: vec![WorkflowJob {
            name: "main".to_owned(),
            description: String::new(),
            depends_on: Vec::new(),
            steps: vec![WorkflowStep {
                name: "hello".to_owned(),
                description: String::new(),
                depends_on: Vec::new(),
                task: WorkflowTask { task_type: "model_method".to_owned(), fields: Vec::new() },
            }],
        }],
        path: String::new(),
    }
}

fn version(number: u64) -> DataVersion {
    DataVersion { version: number, created_at: "now".to_owned(), size: 10, checksum: String::new(), is_latest: number == 2 }
}

fn artifact() -> DataArtifact {
    DataArtifact {
        id: "data-id".to_owned(),
        name: "result".to_owned(),
        model_id: "model-id".to_owned(),
        model_name: "hello-world".to_owned(),
        version: 2,
        content_type: "application/json".to_owned(),
        data_type: "resource".to_owned(),
        streaming: false,
        size: 10,
        created_at: "now".to_owned(),
        lifetime: "infinite".to_owned(),
        owner_type: "model-method".to_owned(),
        tags: Tags::new(),
    }
}

fn content(version: u64) -> DataContent {
    DataContent {
        id: format!("data-{version}"),
        name: "result".to_owned(),
        model_id: "model-id".to_owned(),
        model_name: "hello-world".to_owned(),
        version,
        content_type: "application/json".to_owned(),
        data_type: "resource".to_owned(),
        size: 10,
        created_at: "now".to_owned(),
        lifetime: "infinite".to_owned(),
        streaming: false,
        tags: Tags::new(),
        owner_type: "model-method".to_owned(),
        owner_definition: None,
        content: obj(vec![("value", n(version))]),
    }
}

/// Answers the browser's requests the way a Swamp repository holding these
/// models, data and workflows would, recording what was asked.
struct Swamp {
    calls: Vec<String>,
    run_output: Vec<RunEvent>,
}

impl Swamp {
    fn new() -> Self {
        Swamp { calls: Vec::new(), run_output: Vec::new() }
    }

    fn serve(&mut self, app: &mut App, effects: Vec<Effect>) {
        let mut queue = effects;
        while !queue.is_empty() {
            let mut next = Vec::new();
            for effect in queue {
                match effect {
                    Effect::StartLoad => {
                        for call in ["version", "models", "all_data", "workflows"] {
                            self.calls.push(call.to_owned());
                        }
                        app.startup_done(
                            Ok("swamp test".to_owned()),
                            Ok(models()),
                            Ok(vec![artifact()]),
                            Ok(workflows()),
                            &mut next,
                        );
                    },
                    Effect::FetchModel { name, .. } => {
                        self.calls.push("model".to_owned());
                        app.model_done(name, Ok(details()));
                    },
                    Effect::FetchType { model_type, .. } => {
                        self.calls.push("describe".to_owned());
                        app.type_done(model_type, Ok(description()));
                    },
                    Effect::FetchData { name, .. } => {
                        self.calls.push("data".to_owned());
                        app.data_done(name, Ok(vec![artifact()]));
                    },
                    Effect::FetchWorkflow { name, .. } => {
                        self.calls.push("workflow".to_owned());
                        app.workflow_done(name, Ok(workflow()));
                    },
                    Effect::Preload { requests } => {
                        let events = requests
                            .into_iter()
                            .map(|r| match r {
                                PreloadRequest::Type(t) => {
                                    self.calls.push("describe".to_owned());
                                    PreloadEvent::Type(t, Ok(description()))
                                },
                                PreloadRequest::Workflow(w) => {
                                    self.calls.push("workflow".to_owned());
                                    PreloadEvent::Workflow(w, Ok(workflow()))
                                },
                            })
                            .collect();
                        app.preload_done(events);
                    },
                    Effect::Validate { payload, .. } => {
                        self.calls.push("validate".to_owned());
                        app.validated(payload, Ok(()));
                    },
                    Effect::Run { model, method, .. } => {
                        self.calls.push("run".to_owned());
                        app.run_started(model, method, Ok(()));
                        self.run_output.push(RunEvent::Finished {
                            success: true,
                            lock_contended: false,
                            message: "done".to_owned(),
                        });
                    },
                    Effect::FetchLatest { name, .. } => {
                        app.latest_loaded(&name, Ok(content(2)), Ok(vec![version(2), version(1)]));
                    },
                    Effect::FetchVersion { name, version, .. } => {
                        app.version_loaded(&name, version, Ok(content(version)));
                    },
                    Effect::FetchDiff { content_type, a, b, .. } => {
                        app.diff_loaded(&content_type, a, b, Ok(content(a)), Ok(content(b)));
                    },
                    Effect::CancelRun { .. } => app.cancel_done(Ok(())),
                    Effect::Recheck { model, method, id } => {
                        app.rechecked(model, method, id, Ok(details()), &mut next);
                    },
                    Effect::Abort(_) => {},
                }
            }
            queue = next;
        }
    }

    /// Hands over what the running method reported.
    fn tick(&mut self, app: &mut App) {
        let events = std::mem::take(&mut self.run_output);
        if !events.is_empty() {
            let mut effects = Vec::new();
            app.run_events(events, &mut effects);
            self.serve(app, effects);
        }
    }

    fn press(&mut self, app: &mut App, code: KeyCode) {
        let effects = app.handle_key(key(code));
        self.serve(app, effects);
    }
}

#[test]
fn model_method_and_data_flow() {
    let mut swamp = Swamp::new();
    let mut app = App::new(DEFAULT_PREVIEW_LIMIT);
    let mut effects = Vec::new();
    app.begin_load(&mut effects);
    swamp.serve(&mut app, effects);
    assert_eq!(app.selected_model().unwrap().name, "hello-world");
    assert_eq!(app.artifacts.len(), 1);

    app.focus = Focus::Content;
    app.tab = Tab::Overview;
    swamp.press(&mut app, KeyCode::Enter);
    let FormMode::Fields(fields) = &mut app.form.as_mut().unwrap().mode else {
        panic!("expected form fields")
    };
    fields[0].value = "echo hello".to_owned();
    swamp.press(&mut app, KeyCode::Enter);
    assert!(matches!(app.mode, InputMode::Review));
    swamp.press(&mut app, KeyCode::Enter);
    swamp.tick(&mut app);
    assert!(swamp.calls.contains(&"run".to_owned()));
    assert!(app.run_log_matches_selection());
    assert!(app.run_log_visible);
    app.run_logs.push("finished".to_owned());
    swamp.press(&mut app, KeyCode::Esc);
    assert!(!app.run_log_visible);
    app.type_description.as_mut().unwrap().methods.push(MethodSpec {
        name: "other".to_owned(),
        description: String::new(),
        arguments: obj(vec![]),
    });
    app.method_index = 1;
    assert!(!app.run_log_matches_selection());
    app.run_log_visible = true;
    swamp.press(&mut app, KeyCode::Esc);
    assert!(app.run_log_visible);
    app.method_index = 0;

    app.type_description.as_mut().unwrap().data_output_specs =
        vec![obj(vec![("specName", s("first"))]), obj(vec![("specName", s("second"))])];
    app.output_index = 0;
    app.expanded_output = None;
    app.focus = Focus::Outputs;
    swamp.press(&mut app, KeyCode::Char(']'));
    assert_eq!(app.output_index, 1);
    swamp.press(&mut app, KeyCode::Char(' '));
    assert_eq!(app.expanded_output, Some(1));
    swamp.press(&mut app, KeyCode::Char(' '));
    assert_eq!(app.expanded_output, None);

    app.tab = Tab::Data;
    swamp.press(&mut app, KeyCode::Enter);
    assert_eq!(app.versions.len(), 2);
    swamp.press(&mut app, KeyCode::Char('a'));
    swamp.press(&mut app, KeyCode::Char(']'));
    swamp.press(&mut app, KeyCode::Char('b'));
    assert!(app.diff.as_deref().is_some_and(|diff| diff.contains("$.value")));
}

#[test]
fn startup_fetches_the_selected_model_once() {
    let mut swamp = Swamp::new();
    let mut app = App::new(DEFAULT_PREVIEW_LIMIT);
    let mut effects = Vec::new();
    app.begin_load(&mut effects);
    swamp.serve(&mut app, effects);
    assert_eq!(app.models.len(), 2);
    assert!(app.selected_method().is_some());
    assert!(app.type_description.is_some());
    assert_eq!(app.artifacts.len(), 1);
    assert!(app.detail.is_some());
    for call in ["version", "models", "all_data", "workflows", "describe", "workflow"] {
        assert!(swamp.calls.contains(&call.to_owned()), "{call} was not asked");
    }
    assert_eq!(swamp.calls.iter().filter(|c| c.as_str() == "model").count(), 1);
    assert!(!swamp.calls.contains(&"data".to_owned()));

    let mut effects = Vec::new();
    app.activate_tab(Tab::Data, &mut effects);
    swamp.serve(&mut app, effects);
    assert_eq!(app.artifacts.len(), 1);
    assert!(!swamp.calls.contains(&"data".to_owned()));

    let mut effects = Vec::new();
    app.activate_tab(Tab::Workflows, &mut effects);
    swamp.serve(&mut app, effects);
    assert_eq!(app.workflow_nodes().len(), 1);
    assert_eq!(app.selected_workflow_node().unwrap().step.name, "hello");
}
