//! The text of the content panels: the type interface, the data browser and
//! the workflow inspector.
use vstd::prelude::*;
use crate::diff::{display_content, display_content_spec};
use crate::json::{get_str, wf, Json, JsonValue};
use crate::json_text::{json_compact, compact_text, nat_text, u64_text};
use crate::schema::{get_str_of, input_text};
use crate::state::{node_count, selected_method_of, selected_model_of, App, AppView};
use crate::swamp::data::{tag_views, ArtifactView, ContentView, DataArtifact, Tags, VersionView};
use crate::swamp::model::{MethodView, MethodSpec};
use crate::swamp::workflow::{node_layer, step_positions, step_view, StepView, WorkflowNode, WorkflowStep};
use crate::swamp::model::ModelSummary;
use crate::text::{join, join_strings, split_lines, str_eq, text_lines, views};
use crate::ui::{
    cat, format_output_specifications, format_schema_arguments, lines_view, one, output_lines, push_line,
    schema_argument_lines, single, LineV, Piece, Tone, line_view,
};
use crate::swamp::model::json_views;

verus! {

/// The methods the type interface lists: the type's, else the
/// definition's, else the listing's.
pub open spec fn panel_methods(s: AppView) -> Seq<MethodView> {
    match s.type_description {
        Some(t) => t.methods,
        None => match s.detail {
            Some(d) => d.methods,
            None => match selected_model_of(s) {
                Some(m) => m.methods,
                None => Seq::empty(),
            },
        },
    }
}

/// The run log is shown: it is wanted, it belongs to the selection, and
/// there is output or a run going on.
pub open spec fn run_log_shown(s: AppView) -> bool {
    &&& s.run_log_visible
    &&& s.run_log_model == match selected_model_of(s) {
        Some(m) => Some(m.name),
        None => None::<Seq<char>>,
    }
    &&& s.run_log_method == match selected_method_of(s) {
        Some(m) => Some(m.name),
        None => None::<Seq<char>>,
    }
    &&& (s.run_logs.len() > 0 || s.run_active)
}

/// The title of the right-hand panel of the interface.
pub open spec fn method_panel_title(s: AppView) -> Seq<char> {
    if run_log_shown(s) && s.run_active {
        " Method run output (c to cancel) "@
    } else if run_log_shown(s) {
        " Method run output "@
    } else {
        " Type interface "@
    }
}

/// The body of the right-hand panel: the run log; or the selected method's
/// description, arguments and the type's output specifications; or a note
/// that there are no methods.
pub open spec fn method_panel_lines(s: AppView) -> Seq<LineV> {
    if run_log_shown(s) {
        if s.run_logs.len() == 0 {
            seq![one("Running…"@, Tone::Plain)]
        } else {
            let ls = text_lines(join(s.run_logs, "\n"@));
            Seq::new(ls.len(), |i: int| one(ls[i], Tone::Plain))
        }
    } else {
        match selected_method_of(s) {
            Some(m) => seq![one(m.description, Tone::Plain), Seq::empty(), one("Arguments"@, Tone::Bold)]
                + schema_argument_lines(m.arguments) + seq![
                Seq::empty(),
                one("Type output specifications"@, Tone::Bold),
            ] + match s.type_description {
                Some(t) => output_lines(t.data_output_specs, s.output_index as int, s.expanded_output),
                None => seq![one("  None declared"@, Tone::Dim)],
            },
            None => seq![one("This type exposes no methods."@, Tone::Plain)],
        }
    }
}

/// The JSON values the interface reads are well formed.
pub open spec fn interface_wf(s: AppView) -> bool {
    &&& (selected_method_of(s) matches Some(m) ==> wf(m.arguments))
    &&& (s.type_description matches Some(t) ==> forall|i: int|
        0 <= i < t.data_output_specs.len() ==> wf(#[trigger] t.data_output_specs[i]))
}

/// An artifact in the data list: its name and version; its type, content
/// type and size, dim.
pub open spec fn artifact_item(a: ArtifactView) -> Seq<LineV> {
    seq![
        one(a.name + "  v"@ + nat_text(a.version as nat), Tone::Plain),
        one(a.data_type + " · "@ + a.content_type + " · "@ + nat_text(a.size as nat) + " B"@, Tone::Dim),
    ]
}

/// The owner type of loaded content: its own, else its owner definition's.
pub open spec fn content_owner(c: ContentView) -> Seq<char> {
    if c.owner_type.len() == 0 {
        match c.owner_definition {
            Some((t, _)) => t,
            None => Seq::empty(),
        }
    } else {
        c.owner_type
    }
}

pub open spec fn or_unknown(t: Seq<char>) -> Seq<char> {
    if t.len() == 0 {
        "unknown"@
    } else {
        t
    }
}

/// Tags as a JSON object of strings, in the order held.
pub open spec fn tags_json(tags: Seq<(Seq<char>, Seq<char>)>) -> Json {
    Json::Object(Seq::new(tags.len(), |i: int| (tags[i].0, Json::Str(tags[i].1))))
}

pub open spec fn bool_text(b: bool) -> Seq<char> {
    if b {
        "true"@
    } else {
        "false"@
    }
}

/// The metadata of the selected artifact, with the lifetime, owner,
/// streaming flag and tags of its content once loaded.
pub open spec fn data_metadata(s: AppView) -> Seq<char> {
    if s.artifact_index < s.artifacts.len() {
        let a = s.artifacts[s.artifact_index as int];
        let base = "Name: "@ + a.name + "\nVersion: "@ + nat_text(a.version as nat) + "\nKind: "@ + a.data_type
            + "\nContent: "@ + a.content_type + "\nSize: "@ + nat_text(a.size as nat) + " B · Created: "@
            + a.created_at;
        match s.content {
            Some(c) => if c.meta.name == a.name {
                base + "\nLifetime: "@ + or_unknown(c.meta.lifetime) + " · Owner: "@ + or_unknown(content_owner(c))
                    + " · Streaming: "@ + bool_text(c.meta.streaming) + "\nTags: "@ + json_compact(
                    tags_json(c.meta.tags),
                )
            } else {
                base
            },
            None => base,
        }
    } else {
        "No data produced by this model."@
    }
}

/// A version in the version strip: the cursor, the two comparison marks,
/// the number.
pub open spec fn version_entry(s: AppView, i: int) -> Seq<char> {
    (if i == s.version_cursor {
        "›"@
    } else {
        " "@
    }) + (if s.compare_a == Some(i as usize) {
        "A"@
    } else {
        " "@
    }) + (if s.compare_b == Some(i as usize) {
        "B"@
    } else {
        " "@
    }) + " v"@ + nat_text(s.versions[i].version as nat)
}

pub open spec fn version_entries(s: AppView) -> Seq<Seq<char>> {
    Seq::new(s.versions.len(), |i: int| version_entry(s, i))
}

/// The content panel: the diff, else the content as text, else a note;
/// under the version strip when there are versions.
pub open spec fn data_body(s: AppView) -> Seq<char> {
    let body = match s.diff {
        Some(d) => d,
        None => match s.content {
            Some(c) => match display_content_spec(c.meta.content_type, c.content) {
                Some(t) => t,
                None => "Binary content is not previewed."@,
            },
            None => "Enter loads content and version history."@,
        },
    };
    if s.versions.len() > 0 {
        "Versions: "@ + join(version_entries(s), "  "@) + "\n[ ] select · a/b compare · Enter load\n\n"@ + body
    } else {
        body
    }
}

/// The summary of the shown workflow: its name, version, job and step
/// counts, then its description.
pub open spec fn workflow_summary(s: AppView) -> Seq<char> {
    match s.workflow {
        Some(w) => w.name + " · v"@ + (match w.version {
            Some(v) => nat_text(v as nat),
            None => "?"@,
        }) + " · "@ + nat_text(w.jobs.len()) + " job(s) · "@ + nat_text(node_count(s)) + " step(s)\n"@
            + w.description,
        None => "Select a workflow to inspect its dependency graph."@,
    }
}

/// The label a task field is shown under.
pub open spec fn field_label(name: Seq<char>) -> Seq<char> {
    if name == "modelIdOrName"@ {
        "Target"@
    } else if name == "modelType"@ {
        "Type"@
    } else if name == "modelName"@ {
        "Model"@
    } else if name == "methodName"@ {
        "Method"@
    } else if name == "workflowIdOrName"@ {
        "Workflow"@
    } else if name == "globalArgs"@ {
        "Global arguments"@
    } else if name == "prompt"@ {
        "Prompt"@
    } else if name == "timeout"@ {
        "Timeout"@
    } else if name == "expr"@ {
        "Expression"@
    } else if name == "message"@ {
        "Message"@
    } else if name == "severity"@ {
        "Severity"@
    } else {
        name
    }
}

/// The task fields other than `inputs`, each as `label: value`.
pub open spec fn task_field_entries(fs: Seq<(Seq<char>, Json)>) -> Seq<Seq<char>>
    decreases fs.len(),
{
    if fs.len() == 0 {
        Seq::empty()
    } else {
        task_field_entries(fs.drop_last()) + if fs.last().0 == "inputs"@ {
            Seq::empty()
        } else {
            seq![field_label(fs.last().0) + ": "@ + input_text(fs.last().1)]
        }
    }
}

/// The first field with the given name.
pub open spec fn first_field(fs: Seq<(Seq<char>, Json)>, name: Seq<char>) -> Option<Json>
    decreases fs.len(),
{
    if fs.len() == 0 {
        None
    } else if fs[0].0 == name {
        Some(fs[0].1)
    } else {
        first_field(fs.drop_first(), name)
    }
}

/// A step dependency as the details show it: the step and its condition's
/// type.
pub open spec fn dependency_entry(d: (Seq<char>, Json)) -> Seq<char> {
    d.0 + " ("@ + (match get_str(d.1, "type"@) {
        Some(t) => t,
        None => "condition"@,
    }) + ")"@
}

/// The details of the selected step.
pub open spec fn step_details(job: Seq<char>, step: StepView, layer: usize) -> Seq<char> {
    let deps = if step.depends_on.len() == 0 {
        "None"@
    } else {
        join(Seq::new(step.depends_on.len(), |i: int| dependency_entry(step.depends_on[i])), ", "@)
    };
    let inputs = match first_field(step.task_fields, "inputs"@) {
        Some(v) => json_compact(v),
        None => "None"@,
    };
    "Job: "@ + job + " · Step: "@ + step.name + "\nTask: "@ + step.task_type + " · Layer: "@ + nat_text(layer as nat)
        + "\n"@ + join(task_field_entries(step.task_fields), " · "@) + "\nDepends on: "@ + deps + "\nInputs: "@
        + inputs + "\n"@ + step.description
}

} // verus!

verus! {

/// The names of the methods the interface lists (`panel_methods`).
pub fn method_names(app: &App) -> (r: Vec<String>)
    ensures
        views(r@) == Seq::new(panel_methods(app@).len(), |i: int| panel_methods(app@)[i].name),
{
    let methods: &Vec<MethodSpec> = match &app.type_description {
        Some(t) => &t.methods,
        None => match &app.detail {
            Some(d) => &d.methods,
            None => match app.selected_model() {
                Some(m) => &m.methods,
                None => {
                    let ghost e = Seq::<MethodView>::empty();
                    let mut names: Vec<String> = Vec::new();
                    proof {
                        assert(views(names@) =~= Seq::new(panel_methods(app@).len(), |i: int| panel_methods(app@)[i].name));
                    }
                    return names;
                },
            },
        },
    };
    let mut names: Vec<String> = Vec::new();
    let mut i: usize = 0;
    while i < methods.len()
        invariant
            i <= methods.len(),
            panel_methods(app@) == Seq::new(methods@.len(), |k: int| methods@[k]@),
            views(names@) == Seq::new(i as nat, |k: int| methods@[k]@.name),
        decreases methods.len() - i,
    {
        let ghost before = views(names@);
        names.push(methods[i].name.clone());
        proof {
            assert(views(names@) =~= before.push(methods@[i as int]@.name));
            assert(views(names@) =~= Seq::new((i + 1) as nat, |k: int| methods@[k]@.name));
        }
        i = i + 1;
    }
    proof {
        assert(views(names@) =~= Seq::new(panel_methods(app@).len(), |k: int| panel_methods(app@)[k].name));
    }
    names
}

/// Whether the run log takes the interface's right-hand panel
/// (`run_log_shown`).
pub fn shows_run_log(app: &App) -> (r: bool)
    ensures
        r == run_log_shown(app@),
{
    app.run_log_visible && app.run_log_matches_selection() && (app.run_logs.len() > 0 || app.run_active)
}

/// The title of the interface's right-hand panel (`method_panel_title`).
pub fn method_panel_title_text(app: &App) -> (r: &'static str)
    ensures
        r@ == method_panel_title(app@),
{
    let shown = shows_run_log(app);
    if shown && app.run_active {
        " Method run output (c to cancel) "
    } else if shown {
        " Method run output "
    } else {
        " Type interface "
    }
}

/// The body of the interface's right-hand panel (`method_panel_lines`).
pub fn method_panel(app: &App) -> (r: Vec<Vec<Piece>>)
    requires
        interface_wf(app@),
    ensures
        lines_view(r@) == method_panel_lines(app@),
{
    let mut lines: Vec<Vec<Piece>> = Vec::new();
    if shows_run_log(app) {
        if app.run_logs.len() == 0 {
            push_line(&mut lines, single(String::from_str("Running…"), Tone::Plain));
            proof {
                assert(lines_view(lines@) =~= method_panel_lines(app@));
            }
            return lines;
        }
        let text = join_strings(&app.run_logs, "\n");
        let parts = split_lines(text.as_str());
        let ghost ls = views(parts@);
        let mut i: usize = 0;
        while i < parts.len()
            invariant
                i <= parts.len(),
                ls == views(parts@),
                lines_view(lines@) == Seq::new(i as nat, |k: int| one(ls[k], Tone::Plain)),
            decreases parts.len() - i,
        {
            let ghost before = lines_view(lines@);
            push_line(&mut lines, single(parts[i].clone(), Tone::Plain));
            proof {
                assert(lines_view(lines@) =~= Seq::new((i + 1) as nat, |k: int| one(ls[k], Tone::Plain)));
            }
            i = i + 1;
        }
        proof {
            assert(lines_view(lines@) =~= method_panel_lines(app@));
        }
        return lines;
    }
    match app.selected_method() {
        Some(m) => {
            push_line(&mut lines, single(m.description.clone(), Tone::Plain));
            push_line(&mut lines, Vec::new());
            push_line(&mut lines, single(String::from_str("Arguments"), Tone::Bold));
            let ghost head = lines_view(lines@);
            crate::ui::append_lines(&mut lines, format_schema_arguments(&m.arguments));
            push_line(&mut lines, Vec::new());
            push_line(&mut lines, single(String::from_str("Type output specifications"), Tone::Bold));
            let ghost mid = lines_view(lines@);
            match &app.type_description {
                Some(t) => {
                    proof {
                        assert(app@.type_description == Some(t@));
                        assert forall|i: int| 0 <= i < t.data_output_specs@.len() implies wf(
                            #[trigger] t.data_output_specs@[i]@,
                        ) by {
                            assert(t@.data_output_specs[i] == t.data_output_specs@[i]@);
                        }
                    }
                    crate::ui::append_lines(
                        &mut lines,
                        format_output_specifications(&t.data_output_specs, app.output_index, app.expanded_output),
                    );
                },
                None => {
                    push_line(&mut lines, single(String::from_str("  None declared"), Tone::Dim));
                },
            }
            proof {
                assert(line_view(Seq::<Piece>::empty()) =~= Seq::empty());
                assert(lines_view(lines@) =~= method_panel_lines(app@));
            }
        },
        None => {
            push_line(&mut lines, single(String::from_str("This type exposes no methods."), Tone::Plain));
            proof {
                assert(lines_view(lines@) =~= method_panel_lines(app@));
            }
        },
    }
    lines
}

/// An artifact's entry in the data list (`artifact_item`).
pub fn artifact_item_lines(a: &DataArtifact) -> (r: Vec<Vec<Piece>>)
    ensures
        lines_view(r@) == artifact_item(a@),
{
    let mut lines: Vec<Vec<Piece>> = Vec::new();
    push_line(&mut lines, single(cat(cat(a.name.as_str(), "  v").as_str(), u64_text(a.version).as_str()), Tone::Plain));
    let t1 = cat(cat(cat(a.data_type.as_str(), " · ").as_str(), a.content_type.as_str()).as_str(), " · ");
    push_line(&mut lines, single(cat(cat(t1.as_str(), u64_text(a.size).as_str()).as_str(), " B"), Tone::Dim));
    proof {
        assert(lines_view(lines@) =~= artifact_item(a@));
    }
    lines
}

fn tags_value(tags: &Tags) -> (r: JsonValue)
    ensures
        r@ == tags_json(tags@),
{
    let es = tags.entries();
    let ghost tv = tags@;
    let mut members: Vec<(String, JsonValue)> = Vec::new();
    let mut i: usize = 0;
    while i < es.len()
        invariant
            i <= es.len(),
            tv == tag_views(es@),
            members@.len() == i,
            forall|k: int| 0 <= k < i ==> (#[trigger] members@[k]).0@ == tv[k].0 && members@[k].1@ == Json::Str(tv[k].1),
        decreases es.len() - i,
    {
        members.push((es[i].0.clone(), JsonValue::String(es[i].1.clone())));
        i = i + 1;
    }
    let r = JsonValue::Object(members);
    proof {
        assert(r@->Object_0 =~= tags_json(tv)->Object_0);
        assert(r@ == tags_json(tv));
    }
    r
}

/// The metadata of the selected artifact (`data_metadata`).
pub fn data_metadata_text(app: &App) -> (r: String)
    ensures
        r@ == data_metadata(app@),
{
    match app.selected_artifact() {
        Some(a) => {
            let t1 = cat(cat(cat("Name: ", a.name.as_str()).as_str(), "\nVersion: ").as_str(), u64_text(a.version).as_str());
            let t2 = cat(cat(cat(t1.as_str(), "\nKind: ").as_str(), a.data_type.as_str()).as_str(), "\nContent: ");
            let t3 = cat(cat(cat(t2.as_str(), a.content_type.as_str()).as_str(), "\nSize: ").as_str(), u64_text(a.size).as_str());
            let base = cat(cat(t3.as_str(), " B · Created: ").as_str(), a.created_at.as_str());
            proof {
                assert(a@ == app@.artifacts[app.artifact_index as int]);
            }
            match &app.content {
                Some(c) => {
                    if crate::text::str_eq(c.name.as_str(), a.name.as_str()) {
                        let lifetime = if c.lifetime.as_str().is_empty() {
                            "unknown"
                        } else {
                            c.lifetime.as_str()
                        };
                        let owner0 = c.effective_owner_type();
                        let owner = if owner0.is_empty() {
                            "unknown"
                        } else {
                            owner0
                        };
                        let streaming = if c.streaming {
                            "true"
                        } else {
                            "false"
                        };
                        let tags = compact_text(&tags_value(&c.tags));
                        let u1 = cat(cat(cat(base.as_str(), "\nLifetime: ").as_str(), lifetime).as_str(), " · Owner: ");
                        let u2 = cat(cat(cat(u1.as_str(), owner).as_str(), " · Streaming: ").as_str(), streaming);
                        let r = cat(cat(u2.as_str(), "\nTags: ").as_str(), tags.as_str());
                        proof {
                            assert(owner0@ == content_owner(c@));
                        }
                        r
                    } else {
                        base
                    }
                },
                None => base,
            }
        },
        None => String::from_str("No data produced by this model."),
    }
}

/// The content panel's text (`data_body`).
pub fn data_body_text(app: &App) -> (r: String)
    ensures
        r@ == data_body(app@),
{
    let body = match &app.diff {
        Some(d) => d.clone(),
        None => match &app.content {
            Some(c) => match display_content(c.content_type.as_str(), &c.content) {
                Some(t) => t,
                None => String::from_str("Binary content is not previewed."),
            },
            None => String::from_str("Enter loads content and version history."),
        },
    };
    if app.versions.len() == 0 {
        return body;
    }
    let mut entries: Vec<String> = Vec::new();
    let mut i: usize = 0;
    while i < app.versions.len()
        invariant
            i <= app.versions.len(),
            views(entries@) == version_entries(app@).take(i as int),
        decreases app.versions.len() - i,
    {
        let cursor = if i == app.version_cursor {
            "›"
        } else {
            " "
        };
        let a = if app.compare_a == Some(i) {
            "A"
        } else {
            " "
        };
        let b = if app.compare_b == Some(i) {
            "B"
        } else {
            " "
        };
        let e = cat(cat(cat(cat(cursor, a).as_str(), b).as_str(), " v").as_str(), u64_text(app.versions[i].version).as_str());
        let ghost before = views(entries@);
        entries.push(e);
        proof {
            assert(app@.versions[i as int].version == app.versions@[i as int].version);
            assert(views(entries@) =~= before.push(version_entry(app@, i as int)));
            assert(version_entries(app@).take(i as int + 1) =~= version_entries(app@).take(i as int).push(
                version_entry(app@, i as int),
            ));
        }
        i = i + 1;
    }
    proof {
        assert(version_entries(app@).take(i as int) =~= version_entries(app@));
    }
    let strip = cat("Versions: ", join_strings(&entries, "  ").as_str());
    cat(cat(strip.as_str(), "\n[ ] select · a/b compare · Enter load\n\n").as_str(), body.as_str())
}

/// The summary of the shown workflow (`workflow_summary`).
pub fn workflow_summary_text(app: &App) -> (r: String)
    ensures
        r@ == workflow_summary(app@),
{
    match &app.workflow {
        Some(w) => {
            let version = match w.version {
                Some(v) => u64_text(v),
                None => String::from_str("?"),
            };
            let steps = app.workflow_nodes().len();
            let t1 = cat(cat(cat(w.name.as_str(), " · v").as_str(), version.as_str()).as_str(), " · ");
            let t2 = cat(cat(t1.as_str(), u64_text(w.jobs.len() as u64).as_str()).as_str(), " job(s) · ");
            let t3 = cat(cat(t2.as_str(), u64_text(steps as u64).as_str()).as_str(), " step(s)\n");
            cat(t3.as_str(), w.description.as_str())
        },
        None => String::from_str("Select a workflow to inspect its dependency graph."),
    }
}

} // verus!

verus! {

fn field_label_text(name: &str) -> (r: &str)
    ensures
        r@ == field_label(name@),
{
    if str_eq(name, "modelIdOrName") {
        "Target"
    } else if str_eq(name, "modelType") {
        "Type"
    } else if str_eq(name, "modelName") {
        "Model"
    } else if str_eq(name, "methodName") {
        "Method"
    } else if str_eq(name, "workflowIdOrName") {
        "Workflow"
    } else if str_eq(name, "globalArgs") {
        "Global arguments"
    } else if str_eq(name, "prompt") {
        "Prompt"
    } else if str_eq(name, "timeout") {
        "Timeout"
    } else if str_eq(name, "expr") {
        "Expression"
    } else if str_eq(name, "message") {
        "Message"
    } else if str_eq(name, "severity") {
        "Severity"
    } else {
        name
    }
}

/// The details of the selected step (`step_details`).
pub fn step_details_text(node: &WorkflowNode) -> (r: String)
    requires
        forall|i: int| 0 <= i < node.step.depends_on@.len() ==> wf(#[trigger] node.step.depends_on@[i].condition@),
    ensures
        r@ == step_details(node.job.name@, step_view(*node.step), node.layer),
{
    let step = node.step;
    let sv = Ghost(step_view(*step));
    let fields = &step.task.fields;
    let ghost fv = sv@.task_fields;
    let mut entries: Vec<String> = Vec::new();
    let mut inputs: Option<String> = None;
    let mut i: usize = 0;
    proof {
        assert(fv.take(0) =~= Seq::<(Seq<char>, Json)>::empty());
        assert(fv.skip(0) =~= fv);
    }
    while i < fields.len()
        invariant
            i <= fields.len(),
            fv == step_view(*step).task_fields,
            fv == Seq::new(fields@.len(), |k: int| (fields@[k].0@, fields@[k].1@)),
            fv.len() == fields@.len(),
            views(entries@) == task_field_entries(fv.take(i as int)),
            match inputs {
                Some(t) => first_field(fv, "inputs"@) == Some(first_field(fv, "inputs"@)->Some_0) && t@ == json_compact(
                    first_field(fv, "inputs"@)->Some_0,
                ),
                None => first_field(fv, "inputs"@) == first_field(fv.skip(i as int), "inputs"@),
            },
        decreases fields.len() - i,
    {
        let name = &fields[i].0;
        let value = &fields[i].1;
        proof {
            assert(fv[i as int] == (name@, value@));
            assert(fv.take(i as int + 1).drop_last() =~= fv.take(i as int));
        }
        let ghost before = views(entries@);
        if crate::text::str_eq(name.as_str(), "inputs") {
            if inputs.is_none() {
                proof {
                    assert(fv.skip(i as int)[0] == fv[i as int]);
                }
                inputs = Some(compact_text(value));
            }
        } else {
            let label = field_label_text(name.as_str());
            entries.push(cat(cat(label, ": ").as_str(), crate::schema::input_text_of(value).as_str()));
            proof {
                if inputs.is_none() {
                    assert(fv.skip(i as int).drop_first() =~= fv.skip(i as int + 1));
                }
            }
        }
        proof {
            assert(views(entries@) =~= task_field_entries(fv.take(i as int + 1)));
            if inputs.is_none() {
                assert(fv.skip(i as int).drop_first() =~= fv.skip(i as int + 1));
            }
        }
        i = i + 1;
    }
    proof {
        assert(fv.take(i as int) =~= fv);
        if inputs.is_none() {
            assert(fv.skip(i as int).len() == 0);
        }
    }
    let inputs_text = match inputs {
        Some(t) => t,
        None => String::from_str("None"),
    };
    let deps_text = if step.depends_on.len() == 0 {
        String::from_str("None")
    } else {
        let mut deps: Vec<String> = Vec::new();
        let mut k: usize = 0;
        while k < step.depends_on.len()
            invariant
                k <= step.depends_on.len(),
                forall|q: int| 0 <= q < step.depends_on@.len() ==> wf(#[trigger] step.depends_on@[q].condition@),
                sv@ == step_view(*step),
                views(deps@) == Seq::new(k as nat, |q: int| dependency_entry(sv@.depends_on[q])),
            decreases step.depends_on.len() - k,
        {
            let d = &step.depends_on[k];
            let kind = match get_str_of(&d.condition, "type") {
                Some(t) => t.as_str(),
                None => "condition",
            };
            let ghost before = views(deps@);
            let e = cat(cat(cat(d.step.as_str(), " (").as_str(), kind).as_str(), ")");
            deps.push(e);
            proof {
                assert(sv@.depends_on[k as int] == (d.step@, d.condition@));
                assert(e@ == dependency_entry(sv@.depends_on[k as int]));
                assert(views(deps@) =~= before.push(e@));
                assert(views(deps@) =~= Seq::new((k + 1) as nat, |q: int| dependency_entry(sv@.depends_on[q])));
            }
            k = k + 1;
        }
        join_strings(&deps, ", ")
    };
    let t1 = cat(cat(cat("Job: ", node.job.name.as_str()).as_str(), " · Step: ").as_str(), step.name.as_str());
    let t2 = cat(cat(cat(t1.as_str(), "\nTask: ").as_str(), step.task.task_type.as_str()).as_str(), " · Layer: ");
    let t3 = cat(cat(cat(t2.as_str(), u64_text(node.layer as u64).as_str()).as_str(), "\n").as_str(), join_strings(&entries, " · ").as_str());
    let t4 = cat(cat(cat(t3.as_str(), "\nDepends on: ").as_str(), deps_text.as_str()).as_str(), "\nInputs: ");
    let r = cat(cat(cat(t4.as_str(), inputs_text.as_str()).as_str(), "\n").as_str(), step.description.as_str());
    proof {
        assert(r@ =~= step_details(node.job.name@, step_view(*node.step), node.layer));
    }
    r
}

} // verus!

verus! {

/// The entries of `xs` at the positions listed in `idx` that lie in range,
/// in the order listed.
pub open spec fn kept<T>(xs: Seq<T>, idx: Seq<usize>) -> Seq<T>
    decreases idx.len(),
{
    if idx.len() == 0 {
        Seq::empty()
    } else {
        kept(xs, idx.drop_last()) + if (idx.last() as int) < xs.len() {
            seq![xs[idx.last() as int]]
        } else {
            Seq::empty()
        }
    }
}

impl App {
    /// The definitions the filter lets through, in list order.
    pub fn visible_models(&self) -> (r: Vec<&ModelSummary>)
        ensures
            Seq::new(r@.len(), |i: int| (*r@[i])@) == kept(self@.models, self@.filtered_models),
    {
        let mut out: Vec<&ModelSummary> = Vec::new();
        let mut i: usize = 0;
        while i < self.filtered_models.len()
            invariant
                i <= self.filtered_models.len(),
                Seq::new(out@.len(), |k: int| (*out@[k])@) == kept(self@.models, self@.filtered_models.take(i as int)),
            decreases self.filtered_models.len() - i,
        {
            let ghost before = Seq::new(out@.len(), |k: int| (*out@[k])@);
            let p = self.filtered_models[i];
            proof {
                assert(self@.filtered_models.take(i as int + 1).drop_last() =~= self@.filtered_models.take(i as int));
            }
            if p < self.models.len() {
                out.push(&self.models[p]);
                proof {
                    assert(Seq::new(out@.len(), |k: int| (*out@[k])@) =~= before.push(self@.models[p as int]));
                }
            } else {
                proof {
                    assert(Seq::new(out@.len(), |k: int| (*out@[k])@) =~= before);
                }
            }
            proof {
                assert(kept(self@.models, self@.filtered_models.take(i as int + 1)) == kept(
                    self@.models,
                    self@.filtered_models.take(i as int),
                ) + if (p as int) < self@.models.len() {
                    seq![self@.models[p as int]]
                } else {
                    Seq::empty()
                });
            }
            i = i + 1;
        }
        proof {
            assert(self@.filtered_models.take(i as int) =~= self@.filtered_models);
        }
        out
    }

    /// The workflows the filter lets through, in list order.
    pub fn visible_workflows(&self) -> (r: Vec<&crate::swamp::workflow::WorkflowSummary>)
        ensures
            Seq::new(r@.len(), |i: int| (*r@[i])@) == kept(self@.workflows, self@.filtered_workflows),
    {
        let mut out: Vec<&crate::swamp::workflow::WorkflowSummary> = Vec::new();
        let mut i: usize = 0;
        while i < self.filtered_workflows.len()
            invariant
                i <= self.filtered_workflows.len(),
                Seq::new(out@.len(), |k: int| (*out@[k])@) == kept(
                    self@.workflows,
                    self@.filtered_workflows.take(i as int),
                ),
            decreases self.filtered_workflows.len() - i,
        {
            let ghost before = Seq::new(out@.len(), |k: int| (*out@[k])@);
            let p = self.filtered_workflows[i];
            proof {
                assert(self@.filtered_workflows.take(i as int + 1).drop_last() =~= self@.filtered_workflows.take(
                    i as int,
                ));
            }
            if p < self.workflows.len() {
                out.push(&self.workflows[p]);
                proof {
                    assert(Seq::new(out@.len(), |k: int| (*out@[k])@) =~= before.push(self@.workflows[p as int]));
                }
            } else {
                proof {
                    assert(Seq::new(out@.len(), |k: int| (*out@[k])@) =~= before);
                }
            }
            proof {
                assert(kept(self@.workflows, self@.filtered_workflows.take(i as int + 1)) == kept(
                    self@.workflows,
                    self@.filtered_workflows.take(i as int),
                ) + if (p as int) < self@.workflows.len() {
                    seq![self@.workflows[p as int]]
                } else {
                    Seq::empty()
                });
            }
            i = i + 1;
        }
        proof {
            assert(self@.filtered_workflows.take(i as int) =~= self@.filtered_workflows);
        }
        out
    }

    /// The step under the cursor in the workflow's graph.
    pub fn selected_workflow_node(&self) -> (r: Option<WorkflowNode<'_>>)
        ensures
            match &self.workflow {
                Some(w) => match r {
                    Some(n) => self.workflow_node_index < step_positions(w.jobs@).len() && {
                        let (j, s) = step_positions(w.jobs@)[self.workflow_node_index as int];
                        &&& *n.job == w.jobs@[j]
                        &&& *n.step == w.jobs@[j].steps@[s]
                        &&& n.layer as nat == node_layer(w.jobs@, j, s)
                    },
                    None => self.workflow_node_index >= step_positions(w.jobs@).len(),
                },
                None => r is None,
            },
    {
        let mut nodes = self.workflow_nodes();
        if self.workflow_node_index < nodes.len() {
            let n = nodes.remove(self.workflow_node_index);
            Some(n)
        } else {
            None
        }
    }

    /// The loaded content as text (`display_content`), if it has a textual
    /// form.
    pub fn content_text(&self) -> (r: Option<String>)
        ensures
            match r {
                Some(t) => self@.content matches Some(c) && display_content_spec(c.meta.content_type, c.content)
                    == Some(t@),
                None => self@.content matches Some(c) ==> display_content_spec(c.meta.content_type, c.content) is None,
            },
    {
        match &self.content {
            Some(c) => display_content(c.content_type.as_str(), &c.content),
            None => None,
        }
    }

    /// The payload under review, with the values its schema marks secret
    /// redacted.
    pub fn redacted_pending(&self) -> (r: Option<JsonValue>)
        requires
            self.form matches Some(f) ==> wf(f.method.arguments@),
        ensures
            match (self@.form, self@.pending_payload) {
                (Some(f), Some(p)) => r matches Some(v) && v@ == crate::schema::redacted(f.method.arguments, p),
                _ => r is None,
            },
    {
        match (&self.form, &self.pending_payload) {
            (Some(f), Some(p)) => Some(crate::schema::redacted_payload(p, &f.method.arguments)),
            _ => None,
        }
    }
}

} // verus!
