//! The browser's state: what is listed, selected, shown and loading, with
//! the decisions taken on keys and on replies. A decision changes the state
//! and returns the outside work to start (`Effect`); the replies of that
//! work come back through the methods named after them.
use vstd::prelude::*;
use vstd::string::*;
use crate::app::{cycled_view, first_position, moved_index, Focus, InputMode, LargeAction, Tab};
use crate::cache::Cache;
use crate::startup::{lemma_preload_then_select, preload_then_select};
use crate::json::{key_lt, lemma_key_lt_asymmetric, lemma_key_lt_irreflexive, lemma_key_lt_total, Json, JsonValue};
use crate::json_text::{nat_text, u64_text};
use crate::schema::{form_for_spec, is_destructive, form_readings, payload_outcome, FieldView, FormMode, KindView, ModeView};
use crate::diff::{diff_lines, diff_report, text_diff_spec};
use crate::json::wf;
use crate::swamp::data::{
    artifact_views, newest_first, version_views, ArtifactView, ContentView, DataArtifact, DataContent, DataVersion,
    VersionView,
};
use crate::swamp::process::RunEvent;
use crate::swamp::model::{DetailsView, MethodSpec, MethodView, ModelDetails, ModelSummary, SummaryView, TypeDescription, TypeView};
use crate::swamp::workflow::{
    job_view, node_layer, sat, step_positions, JobView, WorkflowDefinition, WorkflowJob, WorkflowNode, WorkflowSummary,
    WorkflowSummaryView, WorkflowView,
};
use crate::text::{chars_of, contains, contains_chars, views};

verus! {

/// The artifacts kept for a model.
pub struct Artifacts {
    pub items: Vec<DataArtifact>,
}

impl View for Artifacts {
    type V = Seq<ArtifactView>;

    open spec fn view(&self) -> Seq<ArtifactView> {
        artifact_views(self.items@)
    }
}

/// A method's input form being filled in.
pub struct MethodForm {
    pub method: MethodSpec,
    pub mode: FormMode,
    pub selected_field: usize,
}

pub struct FormState {
    pub method: MethodView,
    pub mode: ModeView,
    pub selected_field: usize,
}

impl View for MethodForm {
    type V = FormState;

    open spec fn view(&self) -> FormState {
        FormState { method: self.method@, mode: self.mode@, selected_field: self.selected_field }
    }
}

/// Model of the input mode.
pub enum ModeState {
    Normal,
    Search,
    MethodForm,
    Review,
    DestructiveConfirm(Seq<char>),
    LargeConfirm(LargeAction),
    Help,
}

impl View for InputMode {
    type V = ModeState;

    open spec fn view(&self) -> ModeState {
        match self {
            InputMode::Normal => ModeState::Normal,
            InputMode::Search => ModeState::Search,
            InputMode::MethodForm => ModeState::MethodForm,
            InputMode::Review => ModeState::Review,
            InputMode::DestructiveConfirm(t) => ModeState::DestructiveConfirm(t@),
            InputMode::LargeConfirm(a) => ModeState::LargeConfirm(*a),
            InputMode::Help => ModeState::Help,
        }
    }
}

pub open spec fn opt_str(o: Option<String>) -> Option<Seq<char>> {
    match o {
        Some(s) => Some(s@),
        None => None,
    }
}

pub open spec fn opt_view<T: View>(o: Option<T>) -> Option<T::V> {
    match o {
        Some(s) => Some(s@),
        None => None,
    }
}

/// The work running in the background that the state knows of.
pub struct Pending {
    pub startup: bool,
    pub model: Option<Seq<char>>,
    pub model_type: Option<Seq<char>>,
    pub data: Option<Seq<char>>,
    pub workflow: Option<Seq<char>>,
    pub preload: bool,
}

/// Model of the browser's state.
pub struct AppView {
    pub preview_limit: u64,
    pub swamp_version: Seq<char>,
    pub models: Seq<SummaryView>,
    pub filtered_models: Seq<usize>,
    pub model_index: usize,
    pub workflows: Seq<WorkflowSummaryView>,
    pub filtered_workflows: Seq<usize>,
    pub workflow_index: usize,
    pub workflow: Option<WorkflowView>,
    pub workflow_node_index: usize,
    pub detail: Option<DetailsView>,
    pub type_description: Option<TypeView>,
    pub method_index: usize,
    pub output_index: usize,
    pub expanded_output: Option<usize>,
    pub artifacts: Seq<ArtifactView>,
    pub artifact_index: usize,
    pub content: Option<ContentView>,
    pub versions: Seq<VersionView>,
    pub version_cursor: usize,
    pub compare_a: Option<usize>,
    pub compare_b: Option<usize>,
    pub diff: Option<Seq<char>>,
    pub tab: Tab,
    pub focus: Focus,
    pub mode: ModeState,
    pub search: Seq<char>,
    pub form: Option<FormState>,
    pub pending_payload: Option<Json>,
    pub status: Seq<char>,
    pub error: Option<Seq<char>>,
    pub run_logs: Seq<Seq<char>>,
    pub run_active: bool,
    pub running_model: Option<Seq<char>>,
    pub run_log_model: Option<Seq<char>>,
    pub run_log_method: Option<Seq<char>>,
    pub run_log_visible: bool,
    pub should_quit: bool,
    pub refresh_after_run: bool,
    pub model_cache: Map<Seq<char>, DetailsView>,
    pub type_cache: Map<Seq<char>, TypeView>,
    pub data_cache: Map<Seq<char>, Seq<ArtifactView>>,
    pub workflow_cache: Map<Seq<char>, WorkflowView>,
    pub preloading_types: Set<Seq<char>>,
    pub preloading_workflows: Set<Seq<char>>,
    pub preload_total: usize,
    pub preload_complete: usize,
    pub pending: Pending,
}

/// The browser's state.
pub struct App {
    pub preview_limit: u64,
    pub swamp_version: String,
    pub models: Vec<ModelSummary>,
    pub filtered_models: Vec<usize>,
    pub model_index: usize,
    pub workflows: Vec<WorkflowSummary>,
    pub filtered_workflows: Vec<usize>,
    pub workflow_index: usize,
    pub workflow: Option<WorkflowDefinition>,
    pub workflow_node_index: usize,
    pub detail: Option<ModelDetails>,
    pub type_description: Option<TypeDescription>,
    pub method_index: usize,
    pub output_index: usize,
    pub expanded_output: Option<usize>,
    pub artifacts: Vec<DataArtifact>,
    pub artifact_index: usize,
    pub content: Option<DataContent>,
    pub versions: Vec<DataVersion>,
    pub version_cursor: usize,
    pub compare_a: Option<usize>,
    pub compare_b: Option<usize>,
    pub diff: Option<String>,
    pub tab: Tab,
    pub focus: Focus,
    pub mode: InputMode,
    pub search: String,
    pub form: Option<MethodForm>,
    pub pending_payload: Option<JsonValue>,
    pub status: String,
    pub error: Option<String>,
    pub run_logs: Vec<String>,
    pub run_active: bool,
    pub running_model: Option<String>,
    pub run_log_model: Option<String>,
    pub run_log_method: Option<String>,
    pub run_log_visible: bool,
    pub should_quit: bool,
    pub refresh_after_run: bool,
    pub model_cache: Cache<ModelDetails>,
    pub type_cache: Cache<TypeDescription>,
    pub data_cache: Cache<Artifacts>,
    pub workflow_cache: Cache<WorkflowDefinition>,
    pub preloading_types: Vec<String>,
    pub preloading_workflows: Vec<String>,
    pub preload_total: usize,
    pub preload_complete: usize,
    pub startup_pending: bool,
    pub model_task: Option<String>,
    pub type_task: Option<String>,
    pub data_task: Option<String>,
    pub workflow_task: Option<String>,
    pub preload_pending: bool,
}

pub open spec fn name_set(v: Seq<String>) -> Set<Seq<char>> {
    Set::new(|k: Seq<char>| exists|i: int| 0 <= i < v.len() && (#[trigger] v[i])@ == k)
}

pub open spec fn summary_views(s: Seq<ModelSummary>) -> Seq<SummaryView> {
    Seq::new(s.len(), |i: int| s[i]@)
}

pub open spec fn workflow_summary_views(s: Seq<WorkflowSummary>) -> Seq<WorkflowSummaryView> {
    Seq::new(s.len(), |i: int| s[i]@)
}

impl View for App {
    type V = AppView;

    open spec fn view(&self) -> AppView {
        AppView {
            preview_limit: self.preview_limit,
            swamp_version: self.swamp_version@,
            models: summary_views(self.models@),
            filtered_models: self.filtered_models@,
            model_index: self.model_index,
            workflows: workflow_summary_views(self.workflows@),
            filtered_workflows: self.filtered_workflows@,
            workflow_index: self.workflow_index,
            workflow: opt_view(self.workflow),
            workflow_node_index: self.workflow_node_index,
            detail: opt_view(self.detail),
            type_description: opt_view(self.type_description),
            method_index: self.method_index,
            output_index: self.output_index,
            expanded_output: self.expanded_output,
            artifacts: artifact_views(self.artifacts@),
            artifact_index: self.artifact_index,
            content: opt_view(self.content),
            versions: version_views(self.versions@),
            version_cursor: self.version_cursor,
            compare_a: self.compare_a,
            compare_b: self.compare_b,
            diff: opt_str(self.diff),
            tab: self.tab,
            focus: self.focus,
            mode: self.mode@,
            search: self.search@,
            form: opt_view(self.form),
            pending_payload: opt_view(self.pending_payload),
            status: self.status@,
            error: opt_str(self.error),
            run_logs: views(self.run_logs@),
            run_active: self.run_active,
            running_model: opt_str(self.running_model),
            run_log_model: opt_str(self.run_log_model),
            run_log_method: opt_str(self.run_log_method),
            run_log_visible: self.run_log_visible,
            should_quit: self.should_quit,
            refresh_after_run: self.refresh_after_run,
            model_cache: self.model_cache.kept(),
            type_cache: self.type_cache.kept(),
            data_cache: self.data_cache.kept(),
            workflow_cache: self.workflow_cache.kept(),
            preloading_types: name_set(self.preloading_types@),
            preloading_workflows: name_set(self.preloading_workflows@),
            preload_total: self.preload_total,
            preload_complete: self.preload_complete,
            pending: Pending {
                startup: self.startup_pending,
                model: opt_str(self.model_task),
                model_type: opt_str(self.type_task),
                data: opt_str(self.data_task),
                workflow: opt_str(self.workflow_task),
                preload: self.preload_pending,
            },
        }
    }
}

impl App {
    /// The state's invariant: the caches keep each name once, and the
    /// filtered lists point into the lists.
    pub open spec fn inv(&self) -> bool {
        &&& self.model_cache.wf()
        &&& self.type_cache.wf()
        &&& self.data_cache.wf()
        &&& self.workflow_cache.wf()
        &&& forall|i: int| 0 <= i < self.filtered_models@.len() ==> #[trigger] self.filtered_models@[i] < self.models@.len()
        &&& forall|i: int| 0 <= i < self.filtered_workflows@.len() ==> #[trigger] self.filtered_workflows@[i]
            < self.workflows@.len()
        &&& (self.form matches Some(f) ==> form_ok(f))
    }
}

} // verus!

verus! {

/// ASCII letters lowered (`to_ascii_lowercase`).
pub open spec fn ascii_lower(s: Seq<char>) -> Seq<char> {
    Seq::new(s.len(), |i: int| if 'A' <= s[i] <= 'Z' { ((s[i] as u32) + 32) as char } else { s[i] })
}

pub(crate) fn lower_chars(s: &str) -> (r: Vec<char>)
    ensures
        r@ == ascii_lower(s@),
{
    let cs = chars_of(s);
    let mut out: Vec<char> = Vec::new();
    let mut i: usize = 0;
    while i < cs.len()
        invariant
            i <= cs.len(),
            cs@ == s@,
            out@ == ascii_lower(s@).take(i as int),
        decreases cs.len() - i,
    {
        let c = cs[i];
        let l = if 'A' <= c && c <= 'Z' {
            ((c as u8) + 32) as char
        } else {
            c
        };
        proof {
            if 'A' <= c && c <= 'Z' {
                assert(((c as u8) + 32) as char == ((c as u32) + 32) as char);
            }
        }
        out.push(l);
        proof {
            assert(out@ =~= ascii_lower(s@).take(i as int + 1));
        }
        i = i + 1;
    }
    proof {
        assert(ascii_lower(s@).take(i as int) =~= ascii_lower(s@));
    }
    out
}

/// The index clamped to a list of `len` (the last entry, or 0).
pub open spec fn clamped(i: usize, len: nat) -> usize {
    let last: int = if len == 0 {
        0
    } else {
        len - 1
    };
    if i > last {
        last as usize
    } else {
        i
    }
}

/// Whether a model matches the lowered search text: by name or type.
pub open spec fn model_matches(m: SummaryView, needle: Seq<char>) -> bool {
    needle.len() == 0 || contains(ascii_lower(m.name), needle) || contains(ascii_lower(m.model_type), needle)
}

/// Whether a workflow matches the lowered search text: by name or description.
pub open spec fn workflow_matches(w: WorkflowSummaryView, needle: Seq<char>) -> bool {
    needle.len() == 0 || contains(ascii_lower(w.name), needle) || contains(ascii_lower(w.description), needle)
}

/// The positions of the models that match, in order.
pub open spec fn matching_models(ms: Seq<SummaryView>, needle: Seq<char>) -> Seq<usize>
    decreases ms.len(),
{
    if ms.len() == 0 {
        Seq::empty()
    } else {
        matching_models(ms.drop_last(), needle) + if model_matches(ms.last(), needle) {
            seq![(ms.len() - 1) as usize]
        } else {
            Seq::empty()
        }
    }
}

/// The positions of the workflows that match, in order.
pub open spec fn matching_workflows(ws: Seq<WorkflowSummaryView>, needle: Seq<char>) -> Seq<usize>
    decreases ws.len(),
{
    if ws.len() == 0 {
        Seq::empty()
    } else {
        matching_workflows(ws.drop_last(), needle) + if workflow_matches(ws.last(), needle) {
            seq![(ws.len() - 1) as usize]
        } else {
            Seq::empty()
        }
    }
}

/// The state after filtering both lists by the search text, each selection
/// kept within its list.
pub open spec fn filtered(s: AppView) -> AppView {
    let needle = ascii_lower(s.search);
    let fm = matching_models(s.models, needle);
    let fw = matching_workflows(s.workflows, needle);
    AppView {
        filtered_models: fm,
        model_index: clamped(s.model_index, fm.len()),
        filtered_workflows: fw,
        workflow_index: clamped(s.workflow_index, fw.len()),
        ..s
    }
}

/// The model selected in the filtered list.
pub open spec fn selected_model_of(s: AppView) -> Option<SummaryView> {
    if s.model_index < s.filtered_models.len() && s.filtered_models[s.model_index as int] < s.models.len() {
        Some(s.models[s.filtered_models[s.model_index as int] as int])
    } else {
        None
    }
}

/// The workflow selected in the filtered list.
pub open spec fn selected_workflow_of(s: AppView) -> Option<WorkflowSummaryView> {
    if s.workflow_index < s.filtered_workflows.len() && s.filtered_workflows[s.workflow_index as int]
        < s.workflows.len() {
        Some(s.workflows[s.filtered_workflows[s.workflow_index as int] as int])
    } else {
        None
    }
}

/// The selected method: from the type description, else the model's
/// definition, else the model's listing.
pub open spec fn selected_method_of(s: AppView) -> Option<MethodView> {
    let i = s.method_index as int;
    match s.type_description {
        Some(t) if i < t.methods.len() => Some(t.methods[i]),
        _ => match s.detail {
            Some(d) if i < d.methods.len() => Some(d.methods[i]),
            _ => match selected_model_of(s) {
                Some(m) if i < m.methods.len() => Some(m.methods[i]),
                _ => None,
            },
        },
    }
}

/// The state with a failure reported.
pub open spec fn failed(s: AppView, message: Seq<char>) -> AppView {
    AppView { status: "Operation failed"@, error: Some(message), ..s }
}

/// The state with the loaded content, versions, comparison and diff cleared.
pub open spec fn data_view_cleared(s: AppView) -> AppView {
    AppView {
        content: None,
        versions: Seq::empty(),
        version_cursor: 0,
        compare_a: None,
        compare_b: None,
        diff: None,
        ..s
    }
}

fn matches_text(text: &str, needle: &Vec<char>) -> (r: bool)
    ensures
        r == contains(ascii_lower(text@), needle@),
{
    let t = lower_chars(text);
    contains_chars(&t, needle)
}

impl App {
    /// A fresh state: nothing listed or loaded, status `Starting…`.
    pub fn new(preview_limit: u64) -> (r: Self)
        ensures
            r.inv(),
            r@.preview_limit == preview_limit,
            r@.status == "Starting…"@,
            r@.models.len() == 0,
            r@.workflows.len() == 0,
            r@.tab == Tab::Overview,
            r@.focus == Focus::Models,
            r@.mode == ModeState::Normal,
    {
        App {
            preview_limit,
            swamp_version: String::new(),
            models: Vec::new(),
            filtered_models: Vec::new(),
            model_index: 0,
            workflows: Vec::new(),
            filtered_workflows: Vec::new(),
            workflow_index: 0,
            workflow: None,
            workflow_node_index: 0,
            detail: None,
            type_description: None,
            method_index: 0,
            output_index: 0,
            expanded_output: None,
            artifacts: Vec::new(),
            artifact_index: 0,
            content: None,
            versions: Vec::new(),
            version_cursor: 0,
            compare_a: None,
            compare_b: None,
            diff: None,
            tab: Tab::Overview,
            focus: Focus::Models,
            mode: InputMode::Normal,
            search: String::new(),
            form: None,
            pending_payload: None,
            status: String::from_str("Starting…"),
            error: None,
            run_logs: Vec::new(),
            run_active: false,
            running_model: None,
            run_log_model: None,
            run_log_method: None,
            run_log_visible: false,
            should_quit: false,
            refresh_after_run: false,
            model_cache: Cache::new(),
            type_cache: Cache::new(),
            data_cache: Cache::new(),
            workflow_cache: Cache::new(),
            preloading_types: Vec::new(),
            preloading_workflows: Vec::new(),
            preload_total: 0,
            preload_complete: 0,
            startup_pending: false,
            model_task: None,
            type_task: None,
            data_task: None,
            workflow_task: None,
            preload_pending: false,
        }
    }

    /// The model selected in the filtered list.
    pub fn selected_model(&self) -> (r: Option<&ModelSummary>)
        ensures
            opt_view(match r {
                Some(m) => Some(*m),
                None => None,
            }) == selected_model_of(self@),
    {
        if self.model_index < self.filtered_models.len() {
            let i = self.filtered_models[self.model_index];
            if i < self.models.len() {
                return Some(&self.models[i]);
            }
        }
        None
    }

    /// The workflow selected in the filtered list.
    pub fn selected_workflow(&self) -> (r: Option<&WorkflowSummary>)
        ensures
            opt_view(match r {
                Some(m) => Some(*m),
                None => None,
            }) == selected_workflow_of(self@),
    {
        if self.workflow_index < self.filtered_workflows.len() {
            let i = self.filtered_workflows[self.workflow_index];
            if i < self.workflows.len() {
                return Some(&self.workflows[i]);
            }
        }
        None
    }

    /// The selected method: from the type description, else the model's
    /// definition, else the model's listing.
    pub fn selected_method(&self) -> (r: Option<&MethodSpec>)
        ensures
            opt_view(match r {
                Some(m) => Some(*m),
                None => None,
            }) == selected_method_of(self@),
    {
        let i = self.method_index;
        if let Some(t) = &self.type_description {
            if i < t.methods.len() {
                return Some(&t.methods[i]);
            }
        }
        if let Some(d) = &self.detail {
            if i < d.methods.len() {
                return Some(&d.methods[i]);
            }
        }
        match self.selected_model() {
            Some(m) => if i < m.methods.len() {
                Some(&m.methods[i])
            } else {
                None
            },
            None => None,
        }
    }

    /// The selected artifact.
    pub fn selected_artifact(&self) -> (r: Option<&DataArtifact>)
        ensures
            match r {
                Some(a) => self.artifact_index < self.artifacts.len() && *a == self.artifacts@[self.artifact_index as int],
                None => self.artifact_index >= self.artifacts.len(),
            },
    {
        if self.artifact_index < self.artifacts.len() {
            Some(&self.artifacts[self.artifact_index])
        } else {
            None
        }
    }

    /// Whether the run log shown belongs to the selected model and method.
    pub fn run_log_matches_selection(&self) -> (r: bool)
        ensures
            r == (self@.run_log_model == match selected_model_of(self@) {
                Some(m) => Some(m.name),
                None => None::<Seq<char>>,
            } && self@.run_log_method == match selected_method_of(self@) {
                Some(m) => Some(m.name),
                None => None::<Seq<char>>,
            }),
    {
        let model_ok = match (&self.run_log_model, self.selected_model()) {
            (Some(a), Some(m)) => crate::text::str_eq(a.as_str(), m.name.as_str()),
            (None, None) => true,
            _ => false,
        };
        let method_ok = match (&self.run_log_method, self.selected_method()) {
            (Some(a), Some(m)) => crate::text::str_eq(a.as_str(), m.name.as_str()),
            (None, None) => true,
            _ => false,
        };
        model_ok && method_ok
    }

    /// Filters the model and workflow lists by the search text (letters
    /// compared without case), keeping each selection within its list.
    pub fn apply_filter(&mut self)
        requires
            old(self).inv(),
        ensures
            final(self).inv(),
            final(self)@ == filtered(old(self)@),
    {
        let needle = lower_chars(self.search.as_str());
        let ghost nv = ascii_lower(self.search@);
        let ghost ms = summary_views(self.models@);
        let mut fm: Vec<usize> = Vec::new();
        let mut i: usize = 0;
        while i < self.models.len()
            invariant
                i <= self.models.len(),
                needle@ == nv,
                ms == summary_views(self.models@),
                fm@ == matching_models(ms.take(i as int), nv),
                forall|k: int| 0 <= k < fm@.len() ==> #[trigger] fm@[k] < i,
            decreases self.models.len() - i,
        {
            proof {
                assert(ms.take(i as int + 1).drop_last() =~= ms.take(i as int));
                assert(ms.take(i as int + 1).last() == self.models@[i as int]@);
            }
            let m = &self.models[i];
            if needle.len() == 0 || matches_text(m.name.as_str(), &needle) || matches_text(m.model_type.as_str(), &needle) {
                fm.push(i);
                proof {
                    assert(fm@ =~= matching_models(ms.take(i as int), nv) + seq![i]);
                }
            }
            i = i + 1;
        }
        proof {
            assert(ms.take(i as int) =~= ms);
        }
        let ghost ws = workflow_summary_views(self.workflows@);
        let mut fw: Vec<usize> = Vec::new();
        let mut j: usize = 0;
        while j < self.workflows.len()
            invariant
                j <= self.workflows.len(),
                needle@ == nv,
                ws == workflow_summary_views(self.workflows@),
                fw@ == matching_workflows(ws.take(j as int), nv),
                forall|k: int| 0 <= k < fw@.len() ==> #[trigger] fw@[k] < j,
            decreases self.workflows.len() - j,
        {
            proof {
                assert(ws.take(j as int + 1).drop_last() =~= ws.take(j as int));
                assert(ws.take(j as int + 1).last() == self.workflows@[j as int]@);
            }
            let w = &self.workflows[j];
            if needle.len() == 0 || matches_text(w.name.as_str(), &needle) || matches_text(
                w.description.as_str(),
                &needle,
            ) {
                fw.push(j);
                proof {
                    assert(fw@ =~= matching_workflows(ws.take(j as int), nv) + seq![j]);
                }
            }
            j = j + 1;
        }
        proof {
            assert(ws.take(j as int) =~= ws);
        }
        let last_m: usize = if fm.len() == 0 {
            0
        } else {
            fm.len() - 1
        };
        let last_w: usize = if fw.len() == 0 {
            0
        } else {
            fw.len() - 1
        };
        self.filtered_models = fm;
        if self.model_index > last_m {
            self.model_index = last_m;
        }
        self.filtered_workflows = fw;
        if self.workflow_index > last_w {
            self.workflow_index = last_w;
        }
    }

    /// Reports a failure: status `Operation failed`, and the message.
    pub fn fail(&mut self, message: String)
        ensures
            final(self)@ == failed(old(self)@, message@),
            final(self).inv() == old(self).inv(),
    {
        self.status = String::from_str("Operation failed");
        self.error = Some(message);
    }

    /// Clears the loaded content, its versions, comparison and diff.
    pub fn clear_data_view(&mut self)
        ensures
            final(self)@ == data_view_cleared(old(self)@),
            final(self).inv() == old(self).inv(),
    {
        self.content = None;
        self.versions = Vec::new();
        self.version_cursor = 0;
        self.compare_a = None;
        self.compare_b = None;
        self.diff = None;
        proof {
            assert(version_views(self.versions@) =~= Seq::<VersionView>::empty());
        }
    }
}

} // verus!

verus! {

/// Background work the state knows of.
#[derive(Clone, Copy, PartialEq, Eq, Debug, Structural)]
pub enum Task {
    Startup,
    Model,
    Type,
    Data,
    Workflow,
    Preload,
}

/// A description to fetch ahead of being asked for.
pub enum PreloadRequest {
    Type(String),
    Workflow(String),
}

/// Outside work that a decision asks for. Each reply comes back through
/// the state method named after it.
pub enum Effect {
    /// Stop background work.
    Abort(Task),
    /// Fetch the version, models, all data and workflows (`startup_done`).
    StartLoad,
    /// Fetch a model's definition after a delay (`model_done`).
    FetchModel { name: String, delay_ms: u64 },
    /// Fetch a type's description after a delay (`type_done`).
    FetchType { model_type: String, delay_ms: u64 },
    /// Fetch a model's data after a delay (`data_done`).
    FetchData { name: String, delay_ms: u64 },
    /// Fetch a workflow after a delay (`workflow_done`).
    FetchWorkflow { name: String, delay_ms: u64 },
    /// Fetch these descriptions in the background (`preload_done`).
    Preload { requests: Vec<PreloadRequest> },
    /// Ask `swamp` to validate a method (`validated`).
    Validate { model: String, method: String, payload: JsonValue },
    /// Fetch a model's definition to re-check a destructive target (`rechecked`).
    Recheck { model: String, method: String, id: String },
    /// Run a method (`run_started`).
    Run { model: String, method: String, payload: JsonValue },
    /// Cancel the running method (`cancel_done`).
    CancelRun { model: String },
    /// Fetch an artifact's latest content and versions (`latest_loaded`).
    FetchLatest { model: String, name: String },
    /// Fetch one version of an artifact (`version_loaded`).
    FetchVersion { model: String, name: String, version: u64 },
    /// Fetch two versions to compare (`diff_loaded`).
    FetchDiff { model: String, name: String, content_type: String, a: u64, b: u64 },
}

pub enum PreloadView {
    Type(Seq<char>),
    Workflow(Seq<char>),
}

pub enum EffectView {
    Abort(Task),
    StartLoad,
    FetchModel(Seq<char>, u64),
    FetchType(Seq<char>, u64),
    FetchData(Seq<char>, u64),
    FetchWorkflow(Seq<char>, u64),
    Preload(Seq<PreloadView>),
    Validate(Seq<char>, Seq<char>, Json),
    Recheck(Seq<char>, Seq<char>, Seq<char>),
    Run(Seq<char>, Seq<char>, Json),
    CancelRun(Seq<char>),
    FetchLatest(Seq<char>, Seq<char>),
    FetchVersion(Seq<char>, Seq<char>, u64),
    FetchDiff(Seq<char>, Seq<char>, Seq<char>, u64, u64),
}

impl View for PreloadRequest {
    type V = PreloadView;

    open spec fn view(&self) -> PreloadView {
        match self {
            PreloadRequest::Type(t) => PreloadView::Type(t@),
            PreloadRequest::Workflow(w) => PreloadView::Workflow(w@),
        }
    }
}

pub open spec fn preload_views(s: Seq<PreloadRequest>) -> Seq<PreloadView> {
    Seq::new(s.len(), |i: int| s[i]@)
}

impl View for Effect {
    type V = EffectView;

    open spec fn view(&self) -> EffectView {
        match self {
            Effect::Abort(t) => EffectView::Abort(*t),
            Effect::StartLoad => EffectView::StartLoad,
            Effect::FetchModel { name, delay_ms } => EffectView::FetchModel(name@, *delay_ms),
            Effect::FetchType { model_type, delay_ms } => EffectView::FetchType(model_type@, *delay_ms),
            Effect::FetchData { name, delay_ms } => EffectView::FetchData(name@, *delay_ms),
            Effect::FetchWorkflow { name, delay_ms } => EffectView::FetchWorkflow(name@, *delay_ms),
            Effect::Preload { requests } => EffectView::Preload(preload_views(requests@)),
            Effect::Validate { model, method, payload } => EffectView::Validate(model@, method@, payload@),
            Effect::Recheck { model, method, id } => EffectView::Recheck(model@, method@, id@),
            Effect::Run { model, method, payload } => EffectView::Run(model@, method@, payload@),
            Effect::CancelRun { model } => EffectView::CancelRun(model@),
            Effect::FetchLatest { model, name } => EffectView::FetchLatest(model@, name@),
            Effect::FetchVersion { model, name, version } => EffectView::FetchVersion(model@, name@, *version),
            Effect::FetchDiff { model, name, content_type, a, b } => EffectView::FetchDiff(
                model@,
                name@,
                content_type@,
                *a,
                *b,
            ),
        }
    }
}

pub open spec fn effect_views(s: Seq<Effect>) -> Seq<EffectView> {
    Seq::new(s.len(), |i: int| s[i]@)
}

/// A state and the work it asks for.
pub type Step = (AppView, Seq<EffectView>);

/// The delay before fetching what the selection asks for: none when forced.
pub open spec fn delay(force: bool) -> u64 {
    if force {
        0
    } else {
        120
    }
}

/// Stops a pending fetch of a model's definition.
pub open spec fn abort_model(s: AppView) -> Step {
    if s.pending.model is Some {
        (AppView { pending: Pending { model: None, ..s.pending }, ..s }, seq![EffectView::Abort(Task::Model)])
    } else {
        (s, Seq::empty())
    }
}

pub open spec fn abort_type(s: AppView) -> Step {
    if s.pending.model_type is Some {
        (AppView { pending: Pending { model_type: None, ..s.pending }, ..s }, seq![EffectView::Abort(Task::Type)])
    } else {
        (s, Seq::empty())
    }
}

pub open spec fn abort_data(s: AppView) -> Step {
    if s.pending.data is Some {
        (AppView { pending: Pending { data: None, ..s.pending }, ..s }, seq![EffectView::Abort(Task::Data)])
    } else {
        (s, Seq::empty())
    }
}

pub open spec fn abort_workflow(s: AppView) -> Step {
    if s.pending.workflow is Some {
        (AppView { pending: Pending { workflow: None, ..s.pending }, ..s }, seq![EffectView::Abort(Task::Workflow)])
    } else {
        (s, Seq::empty())
    }
}

/// Fetching the selected model's definition: from the cache unless forced,
/// else in the background, replacing a pending fetch.
pub open spec fn schedule_model(s: AppView, force: bool) -> Step {
    match selected_model_of(s) {
        None => (s, Seq::empty()),
        Some(m) => if !force && s.model_cache.contains_key(m.name) {
            (AppView { detail: Some(s.model_cache[m.name]), ..s }, Seq::empty())
        } else {
            let (s1, e1) = abort_model(s);
            (
                AppView {
                    status: "Loading "@ + m.name + "…"@,
                    pending: Pending { model: Some(m.name), ..s1.pending },
                    ..s1
                },
                e1.push(EffectView::FetchModel(m.name, delay(force))),
            )
        },
    }
}

/// Fetching the selected model's type description: from the cache unless
/// forced; not while it is being preloaded unless forced; else in the
/// background, replacing a pending fetch.
pub open spec fn schedule_type(s: AppView, force: bool) -> Step {
    match selected_model_of(s) {
        None => (s, Seq::empty()),
        Some(m) => if !force && s.type_cache.contains_key(m.model_type) {
            (AppView { type_description: Some(s.type_cache[m.model_type]), ..s }, Seq::empty())
        } else if !force && s.preloading_types.contains(m.model_type) {
            (s, Seq::empty())
        } else {
            let (s1, e1) = abort_type(s);
            (
                AppView { pending: Pending { model_type: Some(m.model_type), ..s1.pending }, ..s1 },
                e1.push(EffectView::FetchType(m.model_type, delay(force))),
            )
        },
    }
}

/// Fetching the selected model's data: from the cache unless forced, else
/// in the background, replacing a pending fetch.
pub open spec fn schedule_data(s: AppView, force: bool) -> Step {
    match selected_model_of(s) {
        None => (s, Seq::empty()),
        Some(m) => if !force && s.data_cache.contains_key(m.name) {
            (AppView { artifacts: s.data_cache[m.name], ..s }, Seq::empty())
        } else {
            let (s1, e1) = abort_data(s);
            (
                AppView {
                    status: "Loading data for "@ + m.name + "…"@,
                    pending: Pending { data: Some(m.name), ..s1.pending },
                    ..s1
                },
                e1.push(EffectView::FetchData(m.name, delay(force))),
            )
        },
    }
}

/// Fetching the selected workflow: from the cache unless forced; not while
/// it is being preloaded unless forced; else in the background, replacing a
/// pending fetch.
pub open spec fn schedule_workflow(s: AppView, force: bool) -> Step {
    match selected_workflow_of(s) {
        None => (s, Seq::empty()),
        Some(w) => if !force && s.workflow_cache.contains_key(w.name) {
            (AppView { workflow: Some(s.workflow_cache[w.name]), ..s }, Seq::empty())
        } else if !force && s.preloading_workflows.contains(w.name) {
            (AppView { status: "Preloading workflow "@ + w.name + "…"@, ..s }, Seq::empty())
        } else {
            let (s1, e1) = abort_workflow(s);
            (
                AppView {
                    status: "Loading workflow "@ + w.name + "…"@,
                    pending: Pending { workflow: Some(w.name), ..s1.pending },
                    ..s1
                },
                e1.push(EffectView::FetchWorkflow(w.name, delay(force))),
            )
        },
    }
}

/// Two steps one after the other.
pub open spec fn then(a: Step, f: spec_fn(AppView) -> Step) -> Step {
    let (s2, e2) = f(a.0);
    (s2, a.1 + e2)
}

} // verus!

verus! {

/// `prefix`, `mid` and `suffix` joined.
pub fn framed(prefix: &str, mid: &str, suffix: &str) -> (r: String)
    ensures
        r@ == prefix@ + mid@ + suffix@,
{
    let mut s = String::from_str(prefix);
    s.append(mid);
    s.append(suffix);
    s
}

impl App {
    fn abort_model_task(&mut self, effects: &mut Vec<Effect>)
        ensures
            ({
                let (s, e) = abort_model(old(self)@);
                final(self)@ == s && effect_views(final(effects)@) == effect_views(old(effects)@) + e
            }),
            final(self).inv() == old(self).inv(),
    {
        if self.model_task.is_some() {
            self.model_task = None;
            effects.push(Effect::Abort(Task::Model));
        }
        proof {
            assert(effect_views(effects@) =~= effect_views(old(effects)@) + abort_model(old(self)@).1);
        }
    }

    fn abort_type_task(&mut self, effects: &mut Vec<Effect>)
        ensures
            ({
                let (s, e) = abort_type(old(self)@);
                final(self)@ == s && effect_views(final(effects)@) == effect_views(old(effects)@) + e
            }),
            final(self).inv() == old(self).inv(),
    {
        if self.type_task.is_some() {
            self.type_task = None;
            effects.push(Effect::Abort(Task::Type));
        }
        proof {
            assert(effect_views(effects@) =~= effect_views(old(effects)@) + abort_type(old(self)@).1);
        }
    }

    fn abort_data_task(&mut self, effects: &mut Vec<Effect>)
        ensures
            ({
                let (s, e) = abort_data(old(self)@);
                final(self)@ == s && effect_views(final(effects)@) == effect_views(old(effects)@) + e
            }),
            final(self).inv() == old(self).inv(),
    {
        if self.data_task.is_some() {
            self.data_task = None;
            effects.push(Effect::Abort(Task::Data));
        }
        proof {
            assert(effect_views(effects@) =~= effect_views(old(effects)@) + abort_data(old(self)@).1);
        }
    }

    fn abort_workflow_task(&mut self, effects: &mut Vec<Effect>)
        ensures
            ({
                let (s, e) = abort_workflow(old(self)@);
                final(self)@ == s && effect_views(final(effects)@) == effect_views(old(effects)@) + e
            }),
            final(self).inv() == old(self).inv(),
    {
        if self.workflow_task.is_some() {
            self.workflow_task = None;
            effects.push(Effect::Abort(Task::Workflow));
        }
        proof {
            assert(effect_views(effects@) =~= effect_views(old(effects)@) + abort_workflow(old(self)@).1);
        }
    }

    /// `schedule_model`.
    #[verifier::rlimit(60)]
    #[verifier::spinoff_prover]
    pub fn schedule_model(&mut self, force: bool, effects: &mut Vec<Effect>)
        requires
            old(self).inv(),
        ensures
            final(self).inv(),
            ({
                let (s, e) = schedule_model(old(self)@, force);
                final(self)@ == s && effect_views(final(effects)@) == effect_views(old(effects)@) + e
            }),
    {
        let name = match self.selected_model() {
            Some(m) => m.name.clone(),
            None => {
                proof {
                    assert(effect_views(effects@) =~= effect_views(old(effects)@) + Seq::<EffectView>::empty());
                }
                return ;
            },
        };
        if !force {
            match self.model_cache.get(name.as_str()) {
                Some(d) => {
                    self.detail = Some(d.copy());
                    proof {
                        assert(effect_views(effects@) =~= effect_views(old(effects)@) + Seq::<EffectView>::empty());
                    }
                    return ;
                },
                None => {},
            }
        }
        self.abort_model_task(effects);
        self.status = framed("Loading ", name.as_str(), "…");
        self.model_task = Some(name.clone());
        let ghost before = effects@;
        effects.push(Effect::FetchModel { name, delay_ms: if force { 0 } else { 120 } });
        proof {
            assert(effect_views(effects@) =~= effect_views(before).push(effects@.last()@));
        }
    }

    /// `schedule_type`.
    #[verifier::rlimit(60)]
    #[verifier::spinoff_prover]
    pub fn schedule_type(&mut self, force: bool, effects: &mut Vec<Effect>)
        requires
            old(self).inv(),
        ensures
            final(self).inv(),
            ({
                let (s, e) = schedule_type(old(self)@, force);
                final(self)@ == s && effect_views(final(effects)@) == effect_views(old(effects)@) + e
            }),
    {
        proof {
            assert(effect_views(effects@) =~= effect_views(old(effects)@) + Seq::<EffectView>::empty());
        }
        let model_type = match self.selected_model() {
            Some(m) => m.model_type.clone(),
            None => {
                return ;
            },
        };
        if !force {
            match self.type_cache.get(model_type.as_str()) {
                Some(t) => {
                    self.type_description = Some(t.copy());
                    return ;
                },
                None => {},
            }
            if contains_name(&self.preloading_types, model_type.as_str()) {
                return ;
            }
        }
        self.abort_type_task(effects);
        self.type_task = Some(model_type.clone());
        let ghost before = effects@;
        effects.push(Effect::FetchType { model_type, delay_ms: if force { 0 } else { 120 } });
        proof {
            assert(effect_views(effects@) =~= effect_views(before).push(effects@.last()@));
        }
    }

    /// `schedule_data`.
    #[verifier::rlimit(60)]
    #[verifier::spinoff_prover]
    pub fn schedule_data(&mut self, force: bool, effects: &mut Vec<Effect>)
        requires
            old(self).inv(),
        ensures
            final(self).inv(),
            ({
                let (s, e) = schedule_data(old(self)@, force);
                final(self)@ == s && effect_views(final(effects)@) == effect_views(old(effects)@) + e
            }),
    {
        proof {
            assert(effect_views(effects@) =~= effect_views(old(effects)@) + Seq::<EffectView>::empty());
        }
        let name = match self.selected_model() {
            Some(m) => m.name.clone(),
            None => {
                return ;
            },
        };
        if !force {
            match self.data_cache.get(name.as_str()) {
                Some(list) => {
                    self.artifacts = crate::swamp::data::copy_artifacts(&list.items);
                    return ;
                },
                None => {},
            }
        }
        self.abort_data_task(effects);
        self.status = framed("Loading data for ", name.as_str(), "…");
        self.data_task = Some(name.clone());
        let ghost before = effects@;
        effects.push(Effect::FetchData { name, delay_ms: if force { 0 } else { 120 } });
        proof {
            assert(effect_views(effects@) =~= effect_views(before).push(effects@.last()@));
        }
    }

    /// `schedule_workflow`.
    #[verifier::rlimit(60)]
    #[verifier::spinoff_prover]
    pub fn schedule_workflow(&mut self, force: bool, effects: &mut Vec<Effect>)
        requires
            old(self).inv(),
        ensures
            final(self).inv(),
            ({
                let (s, e) = schedule_workflow(old(self)@, force);
                final(self)@ == s && effect_views(final(effects)@) == effect_views(old(effects)@) + e
            }),
    {
        proof {
            assert(effect_views(effects@) =~= effect_views(old(effects)@) + Seq::<EffectView>::empty());
        }
        let name = match self.selected_workflow() {
            Some(w) => w.name.clone(),
            None => {
                return ;
            },
        };
        if !force {
            match self.workflow_cache.get(name.as_str()) {
                Some(w) => {
                    self.workflow = Some(w.copy());
                    return ;
                },
                None => {},
            }
            if contains_name(&self.preloading_workflows, name.as_str()) {
                self.status = framed("Preloading workflow ", name.as_str(), "…");
                return ;
            }
        }
        self.abort_workflow_task(effects);
        self.status = framed("Loading workflow ", name.as_str(), "…");
        self.workflow_task = Some(name.clone());
        let ghost before = effects@;
        effects.push(Effect::FetchWorkflow { name, delay_ms: if force { 0 } else { 120 } });
        proof {
            assert(effect_views(effects@) =~= effect_views(before).push(effects@.last()@));
        }
    }
}

/// Whether a name is among the names.
pub fn contains_name(names: &Vec<String>, name: &str) -> (r: bool)
    ensures
        r == name_set(names@).contains(name@),
{
    let mut i: usize = 0;
    while i < names.len()
        invariant
            i <= names.len(),
            forall|j: int| 0 <= j < i ==> (#[trigger] names@[j])@ != name@,
        decreases names.len() - i,
    {
        if crate::text::str_eq(names[i].as_str(), name) {
            proof {
                assert(name_set(names@).contains(name@)) by {
                    assert(names@[i as int]@ == name@);
                }
            }
            return true;
        }
        i = i + 1;
    }
    false
}

} // verus!

verus! {

/// The value kept under a name, if any.
pub open spec fn cached<V>(m: Map<Seq<char>, V>, k: Seq<char>) -> Option<V> {
    if m.contains_key(k) {
        Some(m[k])
    } else {
        None
    }
}

pub open spec fn abort_startup(s: AppView) -> Step {
    if s.pending.startup {
        (AppView { pending: Pending { startup: false, ..s.pending }, ..s }, seq![EffectView::Abort(Task::Startup)])
    } else {
        (s, Seq::empty())
    }
}

pub open spec fn abort_preload(s: AppView) -> Step {
    if s.pending.preload {
        (AppView { pending: Pending { preload: false, ..s.pending }, ..s }, seq![EffectView::Abort(Task::Preload)])
    } else {
        (s, Seq::empty())
    }
}

/// All background work stopped.
pub open spec fn abort_all(s: AppView) -> Step {
    then(
        then(
            then(
                then(then(abort_startup(s), |x: AppView| abort_model(x)), |x: AppView| abort_type(x)),
                |x: AppView| abort_data(x),
            ),
            |x: AppView| abort_workflow(x),
        ),
        |x: AppView| abort_preload(x),
    )
}

/// Reloading the repository: all background work stopped, preloading
/// forgotten, and the startup fetch started.
pub open spec fn begin_load(s: AppView) -> Step {
    let (s1, e1) = abort_all(s);
    (
        AppView {
            preloading_types: Set::empty(),
            preloading_workflows: Set::empty(),
            status: "Loading repository…"@,
            pending: Pending { startup: true, ..s1.pending },
            ..s1
        },
        e1.push(EffectView::StartLoad),
    )
}

/// Reloading what the current tab shows, bypassing the caches.
pub open spec fn refresh_current(s: AppView) -> Step {
    match s.tab {
        Tab::Overview => then(schedule_model(s, true), |x: AppView| schedule_type(x, true)),
        Tab::Data => schedule_data(s, true),
        Tab::Workflows => schedule_workflow(s, true),
    }
}

/// Opening the overview: data work stopped, the model and its type fetched.
pub open spec fn open_overview(s: AppView) -> Step {
    then(then(abort_data(s), |x: AppView| schedule_model(x, false)), |x: AppView| schedule_type(x, false))
}

/// Opening the data tab: type work stopped, the data fetched.
pub open spec fn open_data(s: AppView) -> Step {
    then(abort_type(s), |x: AppView| schedule_data(x, false))
}

/// Opening the workflows tab: model work stopped, the workflow fetched.
pub open spec fn open_workflows(s: AppView) -> Step {
    then(
        then(then(abort_model(s), |x: AppView| abort_type(x)), |x: AppView| abort_data(x)),
        |x: AppView| schedule_workflow(x, false),
    )
}

/// Opening a tab: focus leaves the outputs outside the overview; the
/// tab's content is fetched and work for other tabs stopped.
pub open spec fn activate_tab(s: AppView, tab: Tab) -> Step {
    let s1 = AppView {
        tab: tab,
        focus: if tab != Tab::Overview && s.focus == Focus::Outputs {
            Focus::Content
        } else {
            s.focus
        },
        ..s
    };
    match tab {
        Tab::Overview => open_overview(s1),
        Tab::Data => open_data(s1),
        Tab::Workflows => open_workflows(s1),
    }
}

/// The selections under a model reset and the data view cleared.
pub open spec fn selection_reset(s: AppView) -> AppView {
    data_view_cleared(AppView { method_index: 0, output_index: 0, expanded_output: None, artifact_index: 0, ..s })
}

/// What is cached for a model shown.
pub open spec fn show_cached(s: AppView, name: Seq<char>, model_type: Seq<char>) -> AppView {
    AppView {
        detail: cached(s.model_cache, name),
        type_description: cached(s.type_cache, model_type),
        artifacts: match cached(s.data_cache, name) {
            Some(a) => a,
            None => Seq::empty(),
        },
        ..s
    }
}

/// The selected model's definition fetched, and what the tab shows.
pub open spec fn selection_fetch(s: AppView) -> Step {
    then(
        schedule_model(s, false),
        |x: AppView|
            match x.tab {
                Tab::Overview => then(abort_data(x), |y: AppView| schedule_type(y, false)),
                Tab::Data => then(abort_type(x), |y: AppView| schedule_data(y, false)),
                Tab::Workflows => (x, Seq::empty()),
            },
    )
}

/// After the selected model changes: method, output and artifact
/// selections reset, the data view cleared, what is cached shown, and the
/// model (and the tab's content) fetched.
pub open spec fn selection_changed(s: AppView) -> Step {
    let s1 = selection_reset(s);
    match selected_model_of(s1) {
        None => (
            AppView {
                detail: None,
                type_description: None,
                artifacts: Seq::empty(),
                status: "No models found"@,
                ..s1
            },
            Seq::empty(),
        ),
        Some(m) => selection_fetch(show_cached(s1, m.name, m.model_type)),
    }
}

/// After the selected workflow changes: the step selection reset, the
/// cached definition shown, and the workflow fetched.
pub open spec fn workflow_selection_changed(s: AppView) -> Step {
    let s1 = AppView { workflow_node_index: 0, ..s };
    match selected_workflow_of(s1) {
        None => (AppView { workflow: None, status: "No workflows found"@, ..s1 }, Seq::empty()),
        Some(w) => schedule_workflow(AppView { workflow: cached(s1.workflow_cache, w.name), ..s1 }, false),
    }
}

} // verus!

verus! {

impl App {
    fn abort_startup_task(&mut self, effects: &mut Vec<Effect>)
        ensures
            ({
                let (s, e) = abort_startup(old(self)@);
                final(self)@ == s && effect_views(final(effects)@) == effect_views(old(effects)@) + e
            }),
            final(self).inv() == old(self).inv(),
    {
        if self.startup_pending {
            self.startup_pending = false;
            effects.push(Effect::Abort(Task::Startup));
        }
        proof {
            assert(effect_views(effects@) =~= effect_views(old(effects)@) + abort_startup(old(self)@).1);
        }
    }

    fn abort_preload_task(&mut self, effects: &mut Vec<Effect>)
        ensures
            ({
                let (s, e) = abort_preload(old(self)@);
                final(self)@ == s && effect_views(final(effects)@) == effect_views(old(effects)@) + e
            }),
            final(self).inv() == old(self).inv(),
    {
        if self.preload_pending {
            self.preload_pending = false;
            effects.push(Effect::Abort(Task::Preload));
        }
        proof {
            assert(effect_views(effects@) =~= effect_views(old(effects)@) + abort_preload(old(self)@).1);
        }
    }

    fn abort_all_tasks(&mut self, effects: &mut Vec<Effect>)
        ensures
            ({
                let (s, e) = abort_all(old(self)@);
                final(self)@ == s && effect_views(final(effects)@) == effect_views(old(effects)@) + e
            }),
            final(self).inv() == old(self).inv(),
    {
        self.abort_startup_task(effects);
        self.abort_model_task(effects);
        self.abort_type_task(effects);
        self.abort_data_task(effects);
        self.abort_workflow_task(effects);
        self.abort_preload_task(effects);
    }

    /// Reloads the repository (`begin_load`).
    pub fn begin_load(&mut self, effects: &mut Vec<Effect>)
        requires
            old(self).inv(),
        ensures
            final(self).inv(),
            ({
                let (s, e) = begin_load(old(self)@);
                final(self)@ == s && effect_views(final(effects)@) == effect_views(old(effects)@) + e
            }),
    {
        self.abort_all_tasks(effects);
        let ghost e1 = effect_views(effects@);
        self.preloading_types = Vec::new();
        self.preloading_workflows = Vec::new();
        self.status = String::from_str("Loading repository…");
        self.startup_pending = true;
        effects.push(Effect::StartLoad);
        proof {
            assert(name_set(self.preloading_types@) =~= Set::<Seq<char>>::empty());
            assert(name_set(self.preloading_workflows@) =~= Set::<Seq<char>>::empty());
            assert(effect_views(effects@) =~= e1.push(EffectView::StartLoad));
        }
    }

    /// Reloads what the current tab shows (`refresh_current`).
    #[verifier::rlimit(60)]
    #[verifier::spinoff_prover]
    pub fn refresh_current(&mut self, effects: &mut Vec<Effect>)
        requires
            old(self).inv(),
        ensures
            final(self).inv(),
            ({
                let (s, e) = refresh_current(old(self)@);
                final(self)@ == s && effect_views(final(effects)@) == effect_views(old(effects)@) + e
            }),
    {
        match self.tab {
            Tab::Overview => {
                self.schedule_model(true, effects);
                self.schedule_type(true, effects);
            },
            Tab::Data => self.schedule_data(true, effects),
            Tab::Workflows => self.schedule_workflow(true, effects),
        }
    }

    #[verifier::rlimit(60)]
    #[verifier::spinoff_prover]
    fn open_overview(&mut self, effects: &mut Vec<Effect>)
        requires
            old(self).inv(),
        ensures
            final(self).inv(),
            ({
                let (s, e) = open_overview(old(self)@);
                final(self)@ == s && effect_views(final(effects)@) == effect_views(old(effects)@) + e
            }),
    {
        self.abort_data_task(effects);
        self.schedule_model(false, effects);
        self.schedule_type(false, effects);
    }

    #[verifier::rlimit(60)]
    #[verifier::spinoff_prover]
    fn open_data(&mut self, effects: &mut Vec<Effect>)
        requires
            old(self).inv(),
        ensures
            final(self).inv(),
            ({
                let (s, e) = open_data(old(self)@);
                final(self)@ == s && effect_views(final(effects)@) == effect_views(old(effects)@) + e
            }),
    {
        self.abort_type_task(effects);
        self.schedule_data(false, effects);
    }

    #[verifier::rlimit(60)]
    #[verifier::spinoff_prover]
    fn open_workflows(&mut self, effects: &mut Vec<Effect>)
        requires
            old(self).inv(),
        ensures
            final(self).inv(),
            ({
                let (s, e) = open_workflows(old(self)@);
                final(self)@ == s && effect_views(final(effects)@) == effect_views(old(effects)@) + e
            }),
    {
        self.abort_model_task(effects);
        self.abort_type_task(effects);
        self.abort_data_task(effects);
        self.schedule_workflow(false, effects);
    }

    /// Opens a tab (`activate_tab`).
    #[verifier::rlimit(60)]
    #[verifier::spinoff_prover]
    pub fn activate_tab(&mut self, tab: Tab, effects: &mut Vec<Effect>)
        requires
            old(self).inv(),
        ensures
            final(self).inv(),
            ({
                let (s, e) = activate_tab(old(self)@, tab);
                final(self)@ == s && effect_views(final(effects)@) == effect_views(old(effects)@) + e
            }),
    {
        self.tab = tab;
        if tab != Tab::Overview && self.focus == Focus::Outputs {
            self.focus = Focus::Content;
        }
        match tab {
            Tab::Overview => self.open_overview(effects),
            Tab::Data => self.open_data(effects),
            Tab::Workflows => self.open_workflows(effects),
        }
    }

    fn selection_reset(&mut self)
        ensures
            final(self)@ == selection_reset(old(self)@),
            final(self).inv() == old(self).inv(),
    {
        self.method_index = 0;
        self.output_index = 0;
        self.expanded_output = None;
        self.artifact_index = 0;
        self.clear_data_view();
    }

    fn show_cached(&mut self, name: &str, model_type: &str)
        requires
            old(self).inv(),
        ensures
            final(self).inv(),
            final(self)@ == show_cached(old(self)@, name@, model_type@),
    {
        self.detail = match self.model_cache.get(name) {
            Some(d) => Some(d.copy()),
            None => None,
        };
        self.type_description = match self.type_cache.get(model_type) {
            Some(t) => Some(t.copy()),
            None => None,
        };
        self.artifacts = match self.data_cache.get(name) {
            Some(list) => crate::swamp::data::copy_artifacts(&list.items),
            None => Vec::new(),
        };
        proof {
            if !self.data_cache.kept().contains_key(name@) {
                assert(artifact_views(self.artifacts@) =~= Seq::<ArtifactView>::empty());
            }
        }
    }

    #[verifier::rlimit(60)]
    #[verifier::spinoff_prover]
    fn selection_fetch(&mut self, effects: &mut Vec<Effect>)
        requires
            old(self).inv(),
        ensures
            final(self).inv(),
            ({
                let (s, e) = selection_fetch(old(self)@);
                final(self)@ == s && effect_views(final(effects)@) == effect_views(old(effects)@) + e
            }),
    {
        self.schedule_model(false, effects);
        match self.tab {
            Tab::Overview => {
                self.abort_data_task(effects);
                self.schedule_type(false, effects);
            },
            Tab::Data => {
                self.abort_type_task(effects);
                self.schedule_data(false, effects);
            },
            Tab::Workflows => {
                proof {
                    assert(effect_views(effects@) =~= effect_views(effects@) + Seq::<EffectView>::empty());
                }
            },
        }
    }

    /// Follows a change of the selected model (`selection_changed`).
    #[verifier::rlimit(60)]
    #[verifier::spinoff_prover]
    pub fn selection_changed(&mut self, effects: &mut Vec<Effect>)
        requires
            old(self).inv(),
        ensures
            final(self).inv(),
            ({
                let (s, e) = selection_changed(old(self)@);
                final(self)@ == s && effect_views(final(effects)@) == effect_views(old(effects)@) + e
            }),
    {
        self.selection_reset();
        let (name, model_type) = match self.selected_model() {
            Some(m) => (m.name.clone(), m.model_type.clone()),
            None => {
                self.detail = None;
                self.type_description = None;
                self.artifacts = Vec::new();
                self.status = String::from_str("No models found");
                proof {
                    assert(artifact_views(self.artifacts@) =~= Seq::<ArtifactView>::empty());
                    assert(effect_views(effects@) =~= effect_views(old(effects)@) + Seq::<EffectView>::empty());
                }
                return ;
            },
        };
        self.show_cached(name.as_str(), model_type.as_str());
        self.selection_fetch(effects);
    }

    /// Follows a change of the selected workflow (`workflow_selection_changed`).
    #[verifier::rlimit(40)]
    pub fn workflow_selection_changed(&mut self, effects: &mut Vec<Effect>)
        requires
            old(self).inv(),
        ensures
            final(self).inv(),
            ({
                let (s, e) = workflow_selection_changed(old(self)@);
                final(self)@ == s && effect_views(final(effects)@) == effect_views(old(effects)@) + e
            }),
    {
        self.workflow_node_index = 0;
        let name = match self.selected_workflow() {
            Some(w) => w.name.clone(),
            None => {
                self.workflow = None;
                self.status = String::from_str("No workflows found");
                proof {
                    assert(effect_views(effects@) =~= effect_views(old(effects)@) + Seq::<EffectView>::empty());
                }
                return ;
            },
        };
        self.workflow = match self.workflow_cache.get(name.as_str()) {
            Some(w) => Some(w.copy()),
            None => None,
        };
        self.schedule_workflow(false, effects);
    }
}

} // verus!

verus! {

/// How many steps the jobs have in all.
pub open spec fn step_count(jobs: Seq<JobView>) -> nat
    decreases jobs.len(),
{
    if jobs.len() == 0 {
        0
    } else {
        step_count(jobs.drop_last()) + jobs.last().steps.len()
    }
}

proof fn lemma_step_count(jobs: Seq<WorkflowJob>)
    ensures
        step_positions(jobs).len() == step_count(Seq::new(jobs.len(), |i: int| job_view(jobs[i]))),
    decreases jobs.len(),
{
    if jobs.len() > 0 {
        lemma_step_count(jobs.drop_last());
        assert(Seq::new(jobs.len(), |i: int| job_view(jobs[i])).drop_last() =~= Seq::new(
            jobs.drop_last().len(),
            |i: int| job_view(jobs.drop_last()[i]),
        ));
    } else {
        assert(Seq::new(jobs.len(), |i: int| job_view(jobs[i])).len() == 0);
    }
}

/// How many steps the shown workflow has.
pub open spec fn node_count(s: AppView) -> nat {
    match s.workflow {
        Some(w) => step_count(w.jobs),
        None => 0,
    }
}

/// How many methods the selection offers: the type's, else the
/// definition's, else the listing's.
pub open spec fn method_count(s: AppView) -> nat {
    match s.type_description {
        Some(t) => t.methods.len(),
        None => match s.detail {
            Some(d) => d.methods.len(),
            None => match selected_model_of(s) {
                Some(m) => m.methods.len(),
                None => 0,
            },
        },
    }
}

/// How many output specifications the type has.
pub open spec fn output_count(s: AppView) -> nat {
    match s.type_description {
        Some(t) => t.data_output_specs.len(),
        None => 0,
    }
}

pub open spec fn dir(down: bool) -> int {
    if down {
        1
    } else {
        -1
    }
}

/// Moving the output selection.
pub open spec fn move_output(s: AppView, down: bool) -> AppView {
    AppView { output_index: moved_index(s.output_index as int, output_count(s) as int, dir(down)) as usize, ..s }
}

/// Expanding the selected output specification, or folding it when it is
/// expanded; nothing without one.
pub open spec fn toggle_output(s: AppView) -> AppView {
    if s.type_description is Some && s.output_index < output_count(s) {
        AppView {
            expanded_output: if s.expanded_output != Some(s.output_index) {
                Some(s.output_index)
            } else {
                None
            },
            ..s
        }
    } else {
        s
    }
}

/// Moving the version cursor.
pub open spec fn move_version(s: AppView, down: bool) -> AppView {
    AppView { version_cursor: moved_index(s.version_cursor as int, s.versions.len() as int, dir(down)) as usize, ..s }
}

/// Moving the active selection: the model or workflow list when it has
/// focus, else the method, output, artifact or workflow step.
pub open spec fn move_selection(s: AppView, down: bool) -> Step {
    let d = dir(down);
    if s.focus == Focus::Models {
        if s.tab == Tab::Workflows {
            let i = moved_index(s.workflow_index as int, s.filtered_workflows.len() as int, d) as usize;
            let s1 = AppView { workflow_index: i, ..s };
            if i != s.workflow_index {
                workflow_selection_changed(s1)
            } else {
                (s1, Seq::empty())
            }
        } else {
            let i = moved_index(s.model_index as int, s.filtered_models.len() as int, d) as usize;
            let s1 = AppView { model_index: i, ..s };
            if i != s.model_index {
                selection_changed(s1)
            } else {
                (s1, Seq::empty())
            }
        }
    } else {
        match s.tab {
            Tab::Overview => if s.focus == Focus::Outputs {
                (move_output(s, down), Seq::empty())
            } else {
                let i = moved_index(s.method_index as int, method_count(s) as int, d) as usize;
                if i != s.method_index {
                    (AppView { method_index: i, output_index: 0, expanded_output: None, ..s }, Seq::empty())
                } else {
                    (s, Seq::empty())
                }
            },
            Tab::Data => (
                data_view_cleared(
                    AppView { artifact_index: moved_index(s.artifact_index as int, s.artifacts.len() as int, d) as usize, ..s },
                ),
                Seq::empty(),
            ),
            Tab::Workflows => (
                AppView {
                    workflow_node_index: moved_index(s.workflow_node_index as int, node_count(s) as int, d) as usize,
                    ..s
                },
                Seq::empty(),
            ),
        }
    }
}

/// One step up or down in a list (`move_index` by one).
pub fn step_index(current: usize, length: usize, down: bool) -> (r: usize)
    ensures
        r == moved_index(current as int, length as int, dir(down)),
{
    if length == 0 {
        0
    } else if down {
        if current >= length - 1 {
            length - 1
        } else {
            current + 1
        }
    } else if current == 0 {
        0
    } else {
        current - 1
    }
}

impl App {
    /// The steps of the shown workflow with their layers.
    pub fn workflow_nodes(&self) -> (r: Vec<WorkflowNode<'_>>)
        ensures
            r.len() == node_count(self@),
            match &self.workflow {
                Some(w) => r.len() == step_positions(w.jobs@).len() && forall|k: int|
                    0 <= k < r.len() ==> {
                        let (j, s) = #[trigger] step_positions(w.jobs@)[k];
                        &&& *r@[k].job == w.jobs@[j]
                        &&& *r@[k].step == w.jobs@[j].steps@[s]
                        &&& r@[k].layer as nat == node_layer(w.jobs@, j, s)
                    },
                None => r.len() == 0,
            },
    {
        match &self.workflow {
            Some(w) => {
                proof {
                    lemma_step_count(w.jobs@);
                }
                w.nodes()
            },
            None => Vec::new(),
        }
    }

    fn method_count(&self) -> (r: usize)
        ensures
            r == method_count(self@),
    {
        match &self.type_description {
            Some(t) => t.methods.len(),
            None => match &self.detail {
                Some(d) => d.methods.len(),
                None => match self.selected_model() {
                    Some(m) => m.methods.len(),
                    None => 0,
                },
            },
        }
    }

    /// Moves the output selection (`move_output`).
    pub fn move_output(&mut self, down: bool)
        ensures
            final(self)@ == move_output(old(self)@, down),
            final(self).inv() == old(self).inv(),
    {
        let length = match &self.type_description {
            Some(t) => t.data_output_specs.len(),
            None => 0,
        };
        self.output_index = step_index(self.output_index, length, down);
    }

    /// Expands or folds the selected output specification (`toggle_output`).
    pub fn toggle_output(&mut self)
        ensures
            final(self)@ == toggle_output(old(self)@),
            final(self).inv() == old(self).inv(),
    {
        let has_output = match &self.type_description {
            Some(t) => self.output_index < t.data_output_specs.len(),
            None => false,
        };
        if !has_output {
            return ;
        }
        self.expanded_output = if self.expanded_output != Some(self.output_index) {
            Some(self.output_index)
        } else {
            None
        };
    }

    /// Moves the version cursor (`move_version`).
    pub fn move_version(&mut self, down: bool)
        ensures
            final(self)@ == move_version(old(self)@, down),
            final(self).inv() == old(self).inv(),
    {
        self.version_cursor = step_index(self.version_cursor, self.versions.len(), down);
    }

    /// Moves the active selection (`move_selection`).
    #[verifier::rlimit(60)]
    #[verifier::spinoff_prover]
    pub fn move_selection(&mut self, down: bool, effects: &mut Vec<Effect>)
        requires
            old(self).inv(),
        ensures
            final(self).inv(),
            ({
                let (s, e) = move_selection(old(self)@, down);
                final(self)@ == s && effect_views(final(effects)@) == effect_views(old(effects)@) + e
            }),
    {
        proof {
            assert(effect_views(effects@) =~= effect_views(old(effects)@) + Seq::<EffectView>::empty());
        }
        if self.focus == Focus::Models {
            if self.tab == Tab::Workflows {
                let previous = self.workflow_index;
                self.workflow_index = step_index(self.workflow_index, self.filtered_workflows.len(), down);
                if previous != self.workflow_index {
                    self.workflow_selection_changed(effects);
                }
                return ;
            }
            let previous = self.model_index;
            self.model_index = step_index(self.model_index, self.filtered_models.len(), down);
            if previous != self.model_index {
                self.selection_changed(effects);
            }
            return ;
        }
        match self.tab {
            Tab::Overview => {
                if self.focus == Focus::Outputs {
                    self.move_output(down);
                    return ;
                }
                let length = self.method_count();
                let previous = self.method_index;
                self.method_index = step_index(self.method_index, length, down);
                if previous != self.method_index {
                    self.output_index = 0;
                    self.expanded_output = None;
                }
            },
            Tab::Data => {
                self.artifact_index = step_index(self.artifact_index, self.artifacts.len(), down);
                self.clear_data_view();
            },
            Tab::Workflows => {
                let count = self.workflow_nodes().len();
                self.workflow_node_index = step_index(self.workflow_node_index, count, down);
            },
        }
    }
}

} // verus!

verus! {

pub open spec fn result_view<T: View>(r: Result<T, String>) -> Result<T::V, Seq<char>> {
    match r {
        Ok(v) => Ok(v@),
        Err(e) => Err(e@),
    }
}

/// Whether the selected model has this name.
pub open spec fn model_selected(s: AppView, name: Seq<char>) -> bool {
    selected_model_of(s) matches Some(m) && m.name == name
}

/// Whether the selected model has this type.
pub open spec fn type_selected(s: AppView, model_type: Seq<char>) -> bool {
    selected_model_of(s) matches Some(m) && m.model_type == model_type
}

/// Whether the selected workflow has this name.
pub open spec fn workflow_selected(s: AppView, name: Seq<char>) -> bool {
    selected_workflow_of(s) matches Some(w) && w.name == name
}

/// A model's definition arrived: it is cached, and shown when the model is
/// still selected; a failure is reported only then.
pub open spec fn model_done(s: AppView, name: Seq<char>, r: Result<DetailsView, Seq<char>>) -> AppView {
    let s0 = AppView { pending: Pending { model: None, ..s.pending }, ..s };
    match r {
        Ok(d) => {
            let s1 = AppView { model_cache: s0.model_cache.insert(name, d), ..s0 };
            if model_selected(s1, name) {
                AppView { detail: Some(d), status: "Loaded "@ + name, ..s1 }
            } else {
                s1
            }
        },
        Err(e) => if model_selected(s0, name) {
            failed(s0, e)
        } else {
            s0
        },
    }
}

/// A type's description arrived: it is cached, and shown when the selected
/// model has that type; a failure is reported only then.
pub open spec fn type_done(s: AppView, model_type: Seq<char>, r: Result<TypeView, Seq<char>>) -> AppView {
    let s0 = AppView { pending: Pending { model_type: None, ..s.pending }, ..s };
    match r {
        Ok(t) => {
            let s1 = AppView { type_cache: s0.type_cache.insert(model_type, t), ..s0 };
            if type_selected(s1, model_type) {
                AppView { type_description: Some(t), ..s1 }
            } else {
                s1
            }
        },
        Err(e) => if type_selected(s0, model_type) {
            failed(s0, e)
        } else {
            s0
        },
    }
}

/// A model's data arrived: cached, and shown when the model is still
/// selected (the artifact selection kept within the list).
pub open spec fn data_done(s: AppView, name: Seq<char>, r: Result<Seq<ArtifactView>, Seq<char>>) -> AppView {
    let s0 = AppView { pending: Pending { data: None, ..s.pending }, ..s };
    match r {
        Ok(a) => {
            let s1 = AppView { data_cache: s0.data_cache.insert(name, a), ..s0 };
            if model_selected(s1, name) {
                AppView {
                    artifacts: a,
                    artifact_index: clamped(s1.artifact_index, a.len()),
                    status: "Loaded data for "@ + name,
                    ..s1
                }
            } else {
                s1
            }
        },
        Err(e) => if model_selected(s0, name) {
            failed(s0, e)
        } else {
            s0
        },
    }
}

/// A workflow arrived: cached, and shown when it is still selected (the
/// step selection kept within its steps).
pub open spec fn workflow_done(s: AppView, name: Seq<char>, r: Result<WorkflowView, Seq<char>>) -> AppView {
    let s0 = AppView { pending: Pending { workflow: None, ..s.pending }, ..s };
    match r {
        Ok(w) => {
            let s1 = AppView { workflow_cache: s0.workflow_cache.insert(name, w), ..s0 };
            if workflow_selected(s1, name) {
                AppView {
                    workflow: Some(w),
                    workflow_node_index: clamped(s1.workflow_node_index, step_count(w.jobs)),
                    status: "Loaded workflow "@ + name,
                    ..s1
                }
            } else {
                s1
            }
        },
        Err(e) => if workflow_selected(s0, name) {
            failed(s0, e)
        } else {
            s0
        },
    }
}

/// A background fetch ended without a reply: reported unless it was stopped.
pub open spec fn task_failed(s: AppView, what: Seq<char>, error: Seq<char>, cancelled: bool) -> AppView {
    if cancelled {
        s
    } else {
        failed(s, what + " loading task failed: "@ + error)
    }
}

proof fn lemma_kept_insert<T: View>(before: Cache<T>, after: Cache<T>, k: Seq<char>, v: T)
    requires
        after.lookup(k) == Some(v),
        forall|o: Seq<char>| o != k ==> #[trigger] after.lookup(o) == before.lookup(o),
    ensures
        after.kept() == before.kept().insert(k, v@),
{
    assert(after.kept() =~= before.kept().insert(k, v@));
}

fn clamp_to(i: usize, len: usize) -> (r: usize)
    ensures
        r == clamped(i, len as nat),
{
    let last = if len == 0 {
        0
    } else {
        len - 1
    };
    if i > last {
        last
    } else {
        i
    }
}

impl App {
    pub(crate) fn model_selected(&self, name: &str) -> (r: bool)
        ensures
            r == model_selected(self@, name@),
    {
        match self.selected_model() {
            Some(m) => crate::text::str_eq(m.name.as_str(), name),
            None => false,
        }
    }

    fn type_selected(&self, model_type: &str) -> (r: bool)
        ensures
            r == type_selected(self@, model_type@),
    {
        match self.selected_model() {
            Some(m) => crate::text::str_eq(m.model_type.as_str(), model_type),
            None => false,
        }
    }

    fn workflow_selected(&self, name: &str) -> (r: bool)
        ensures
            r == workflow_selected(self@, name@),
    {
        match self.selected_workflow() {
            Some(w) => crate::text::str_eq(w.name.as_str(), name),
            None => false,
        }
    }

    /// A model's definition arrived (`model_done`).
    pub fn model_done(&mut self, name: String, result: Result<ModelDetails, String>)
        requires
            old(self).inv(),
        ensures
            final(self).inv(),
            final(self)@ == model_done(old(self)@, name@, result_view(result)),
    {
        self.model_task = None;
        match result {
            Ok(detail) => {
                let ghost before = self.model_cache;
                let ghost dv = detail@;
                let copy = detail.copy();
                self.model_cache.insert(name.clone(), copy);
                proof {
                    lemma_kept_insert(before, self.model_cache, name@, copy);
                }
                if self.model_selected(name.as_str()) {
                    self.detail = Some(detail);
                    self.status = framed("Loaded ", name.as_str(), "");
                    proof {
                        reveal_strlit("");
                        assert("Loaded "@ + name@ + ""@ =~= "Loaded "@ + name@);
                    }
                }
            },
            Err(e) => {
                if self.model_selected(name.as_str()) {
                    self.fail(e);
                }
            },
        }
    }

    /// A type's description arrived (`type_done`).
    pub fn type_done(&mut self, model_type: String, result: Result<TypeDescription, String>)
        requires
            old(self).inv(),
        ensures
            final(self).inv(),
            final(self)@ == type_done(old(self)@, model_type@, result_view(result)),
    {
        self.type_task = None;
        match result {
            Ok(description) => {
                let ghost before = self.type_cache;
                let copy = description.copy();
                self.type_cache.insert(model_type.clone(), copy);
                proof {
                    lemma_kept_insert(before, self.type_cache, model_type@, copy);
                }
                if self.type_selected(model_type.as_str()) {
                    self.type_description = Some(description);
                }
            },
            Err(e) => {
                if self.type_selected(model_type.as_str()) {
                    self.fail(e);
                }
            },
        }
    }

    /// A model's data arrived (`data_done`).
    pub fn data_done(&mut self, name: String, result: Result<Vec<DataArtifact>, String>)
        requires
            old(self).inv(),
        ensures
            final(self).inv(),
            final(self)@ == data_done(
                old(self)@,
                name@,
                match result {
                    Ok(a) => Ok(artifact_views(a@)),
                    Err(e) => Err(e@),
                },
            ),
    {
        self.data_task = None;
        match result {
            Ok(artifacts) => {
                let ghost before = self.data_cache;
                let copy = Artifacts { items: crate::swamp::data::copy_artifacts(&artifacts) };
                self.data_cache.insert(name.clone(), copy);
                proof {
                    lemma_kept_insert(before, self.data_cache, name@, copy);
                }
                if self.model_selected(name.as_str()) {
                    let n = artifacts.len();
                    self.artifacts = artifacts;
                    self.artifact_index = clamp_to(self.artifact_index, n);
                    self.status = framed("Loaded data for ", name.as_str(), "");
                    proof {
                        reveal_strlit("");
                        assert("Loaded data for "@ + name@ + ""@ =~= "Loaded data for "@ + name@);
                    }
                }
            },
            Err(e) => {
                if self.model_selected(name.as_str()) {
                    self.fail(e);
                }
            },
        }
    }

    /// A workflow arrived (`workflow_done`).
    #[verifier::rlimit(40)]
    pub fn workflow_done(&mut self, name: String, result: Result<WorkflowDefinition, String>)
        requires
            old(self).inv(),
        ensures
            final(self).inv(),
            final(self)@ == workflow_done(old(self)@, name@, result_view(result)),
    {
        self.workflow_task = None;
        match result {
            Ok(workflow) => {
                let ghost before = self.workflow_cache;
                let copy = workflow.copy();
                self.workflow_cache.insert(name.clone(), copy);
                proof {
                    lemma_kept_insert(before, self.workflow_cache, name@, copy);
                }
                if self.workflow_selected(name.as_str()) {
                    self.workflow = Some(workflow);
                    let count = self.workflow_nodes().len();
                    self.workflow_node_index = clamp_to(self.workflow_node_index, count);
                    self.status = framed("Loaded workflow ", name.as_str(), "");
                    proof {
                        reveal_strlit("");
                        assert("Loaded workflow "@ + name@ + ""@ =~= "Loaded workflow "@ + name@);
                    }
                }
            },
            Err(e) => {
                if self.workflow_selected(name.as_str()) {
                    self.fail(e);
                }
            },
        }
    }

    /// A background fetch of `task` ended without a reply (`task_failed`):
    /// `error` is why, `cancelled` whether it was stopped.
    pub fn task_failed(&mut self, task: Task, error: String, cancelled: bool)
        requires
            old(self).inv(),
        ensures
            final(self).inv(),
            final(self)@ == match task {
                Task::Model => task_failed(
                    AppView { pending: Pending { model: None, ..old(self)@.pending }, ..old(self)@ },
                    "Model"@,
                    error@,
                    cancelled,
                ),
                Task::Type => task_failed(
                    AppView { pending: Pending { model_type: None, ..old(self)@.pending }, ..old(self)@ },
                    "Type"@,
                    error@,
                    cancelled,
                ),
                Task::Data => task_failed(
                    AppView { pending: Pending { data: None, ..old(self)@.pending }, ..old(self)@ },
                    "Data"@,
                    error@,
                    cancelled,
                ),
                Task::Workflow => task_failed(
                    AppView { pending: Pending { workflow: None, ..old(self)@.pending }, ..old(self)@ },
                    "Workflow"@,
                    error@,
                    cancelled,
                ),
                Task::Startup => failed(
                    AppView { pending: Pending { startup: false, ..old(self)@.pending }, ..old(self)@ },
                    "Startup task failed: "@ + error@,
                ),
                Task::Preload => AppView { pending: Pending { preload: false, ..old(self)@.pending }, ..old(self)@ },
            },
    {
        let what = match task {
            Task::Model => {
                self.model_task = None;
                "Model"
            },
            Task::Type => {
                self.type_task = None;
                "Type"
            },
            Task::Data => {
                self.data_task = None;
                "Data"
            },
            Task::Workflow => {
                self.workflow_task = None;
                "Workflow"
            },
            Task::Startup => {
                self.startup_pending = false;
                let m = framed("Startup task failed: ", error.as_str(), "");
                proof {
                    reveal_strlit("");
                    assert("Startup task failed: "@ + error@ + ""@ =~= "Startup task failed: "@ + error@);
                }
                self.fail(m);
                return ;
            },
            Task::Preload => {
                self.preload_pending = false;
                return ;
            },
        };
        if !cancelled {
            let m = framed(what, " loading task failed: ", error.as_str());
            self.fail(m);
        }
    }
}

} // verus!

verus! {

/// The first model with an id, or -1.
pub open spec fn model_with_id(ms: Seq<SummaryView>, id: Seq<char>) -> int
    decreases ms.len(),
{
    if ms.len() == 0 {
        -1
    } else {
        let r = model_with_id(ms.drop_last(), id);
        if r >= 0 {
            r
        } else if ms.last().id == id {
            ms.len() - 1
        } else {
            -1
        }
    }
}

/// The model an artifact belongs to: its own model name, or else the name
/// of the first model with its model id.
pub open spec fn owner_name(ms: Seq<SummaryView>, a: ArtifactView) -> Option<Seq<char>> {
    if a.model_name.len() == 0 {
        let i = model_with_id(ms, a.model_id);
        if i >= 0 {
            Some(ms[i].name)
        } else {
            None
        }
    } else {
        Some(a.model_name)
    }
}

/// The artifacts that belong to a model, each with its model's name.
pub open spec fn owned_artifacts(ms: Seq<SummaryView>, arts: Seq<ArtifactView>) -> Seq<ArtifactView>
    decreases arts.len(),
{
    if arts.len() == 0 {
        Seq::empty()
    } else {
        owned_artifacts(ms, arts.drop_last()) + match owner_name(ms, arts.last()) {
            Some(n) => seq![ArtifactView { model_name: n, ..arts.last() }],
            None => Seq::empty(),
        }
    }
}

/// The artifacts of one model.
pub open spec fn artifacts_of(arts: Seq<ArtifactView>, name: Seq<char>) -> Seq<ArtifactView>
    decreases arts.len(),
{
    if arts.len() == 0 {
        Seq::empty()
    } else {
        artifacts_of(arts.drop_last(), name) + if arts.last().model_name == name {
            seq![arts.last()]
        } else {
            Seq::empty()
        }
    }
}

/// The data cache built from all data: every model has an entry, and
/// every model that owns artifacts has them, newest first.
pub open spec fn all_data_cache(ms: Seq<SummaryView>, arts: Seq<ArtifactView>) -> Map<Seq<char>, Seq<ArtifactView>> {
    let owned = owned_artifacts(ms, arts);
    Map::new(
        |k: Seq<char>|
            (exists|i: int| 0 <= i < ms.len() && (#[trigger] ms[i]).name == k) || (exists|i: int|
                0 <= i < owned.len() && (#[trigger] owned[i]).model_name == k),
        |k: Seq<char>| newest_first(artifacts_of(owned, k)),
    )
}

fn model_with_id_exec(models: &Vec<ModelSummary>, id: &str) -> (r: Option<usize>)
    ensures
        match r {
            Some(i) => i < models.len() && i as int == model_with_id(summary_views(models@), id@),
            None => model_with_id(summary_views(models@), id@) == -1,
        },
{
    let ghost ms = summary_views(models@);
    let mut i: usize = 0;
    while i < models.len()
        invariant
            i <= models.len(),
            ms == summary_views(models@),
            model_with_id(ms.take(i as int), id@) == -1,
        decreases models.len() - i,
    {
        proof {
            assert(ms.take(i as int + 1).drop_last() =~= ms.take(i as int));
        }
        if crate::text::str_eq(models[i].id.as_str(), id) {
            proof {
                lemma_model_with_id_prefix(ms, id@, i as int + 1);
            }
            return Some(i);
        }
        i = i + 1;
    }
    proof {
        assert(ms.take(i as int) =~= ms);
    }
    None
}

proof fn lemma_model_with_id_prefix(ms: Seq<SummaryView>, id: Seq<char>, k: int)
    requires
        0 < k <= ms.len(),
        model_with_id(ms.take(k), id) >= 0,
    ensures
        model_with_id(ms, id) == model_with_id(ms.take(k), id),
    decreases ms.len(),
{
    if k < ms.len() {
        assert(ms.drop_last().take(k) =~= ms.take(k));
        lemma_model_with_id_prefix(ms.drop_last(), id, k);
    } else {
        assert(ms.take(k) =~= ms);
    }
}

impl App {
    /// Fills the data cache from all data (`all_data_cache`).
    pub fn cache_all_data(&mut self, artifacts: Vec<DataArtifact>)
        requires
            old(self).inv(),
        ensures
            final(self).inv(),
            final(self)@ == (AppView {
                data_cache: all_data_cache(old(self)@.models, artifact_views(artifacts@)),
                ..old(self)@
            }),
    {
        let ghost ms = summary_views(self.models@);
        let ghost arts = artifact_views(artifacts@);
        let mut owned: Vec<DataArtifact> = Vec::new();
        let mut pending = artifacts;
        let mut k: usize = 0;
        let n0 = pending.len();
        proof {
            assert(arts.len() == n0);
            assert(pending@ =~= artifacts@.skip(0));
        }
        while pending.len() > 0
            invariant
                k <= arts.len(),
                arts.len() <= usize::MAX,
                arts == artifact_views(artifacts@),
                ms == summary_views(self.models@),
                pending@ == artifacts@.skip(k as int),
                artifact_views(owned@) == owned_artifacts(ms, arts.take(k as int)),
            decreases pending.len(),
        {
            let ghost before = pending@;
            let mut a = pending.remove(0);
            proof {
                assert(pending@ =~= artifacts@.skip(k as int + 1));
                assert(a == artifacts@[k as int]) by {
                    assert(before[0] == artifacts@.skip(k as int)[0]);
                }
                assert(arts.take(k as int + 1).drop_last() =~= arts.take(k as int));
                assert(arts.take(k as int + 1).last() == a@);
            }
            let ghost prev = artifact_views(owned@);
            if a.model_name.as_str().is_empty() {
                match model_with_id_exec(&self.models, a.model_id.as_str()) {
                    Some(i) => {
                        a.model_name = self.models[i].name.clone();
                        let ghost av = a@;
                        owned.push(a);
                        proof {
                            assert(artifact_views(owned@) =~= prev.push(av));
                        }
                    },
                    None => {},
                }
            } else {
                let ghost av = a@;
                owned.push(a);
                proof {
                    assert(artifact_views(owned@) =~= prev.push(av));
                }
            }
            k = k + 1;
        }
        proof {
            assert(arts.take(k as int) =~= arts);
        }
        let ghost ov = artifact_views(owned@);
        let mut keys: Vec<String> = Vec::new();
        let mut i: usize = 0;
        while i < self.models.len()
            invariant
                i <= self.models.len(),
                keys@.len() == i,
                forall|j: int| 0 <= j < i ==> (#[trigger] keys@[j])@ == self.models@[j].name@,
            decreases self.models.len() - i,
        {
            keys.push(self.models[i].name.clone());
            i = i + 1;
        }
        let mut j: usize = 0;
        while j < owned.len()
            invariant
                j <= owned.len(),
                keys@.len() == self.models.len() + j,
                forall|t: int| 0 <= t < self.models.len() ==> (#[trigger] keys@[t])@ == self.models@[t].name@,
                forall|t: int| 0 <= t < j ==> (#[trigger] keys@[self.models.len() + t])@ == owned@[t].model_name@,
            decreases owned.len() - j,
        {
            keys.push(owned[j].model_name.clone());
            j = j + 1;
        }
        let ghost target = all_data_cache(ms, arts);
        let mut cache: Cache<Artifacts> = Cache::new();
        let mut t: usize = 0;
        while t < keys.len()
            invariant
                t <= keys.len(),
                cache.wf(),
                ov == artifact_views(owned@),
                ov == owned_artifacts(ms, arts),
                target == all_data_cache(ms, arts),
                keys@.len() == self.models.len() + owned.len(),
                ms == summary_views(self.models@),
                forall|x: int| 0 <= x < self.models.len() ==> (#[trigger] keys@[x])@ == self.models@[x].name@,
                forall|x: int| 0 <= x < owned.len() ==> (#[trigger] keys@[self.models.len() + x])@ == owned@[x].model_name@,
                forall|key: Seq<char>|
                    #![trigger cache.lookup(key)]
                    (exists|x: int| 0 <= x < t && (#[trigger] keys@[x])@ == key) ==> (cache.lookup(key) matches Some(v)
                        && v@ == newest_first(artifacts_of(ov, key))),
                forall|key: Seq<char>|
                    #![trigger cache.lookup(key)]
                    !(exists|x: int| 0 <= x < t && (#[trigger] keys@[x])@ == key) ==> cache.lookup(key) is None,
            decreases keys.len() - t,
        {
            let key = keys[t].clone();
            let mut list: Vec<DataArtifact> = Vec::new();
            let mut x: usize = 0;
            while x < owned.len()
                invariant
                    x <= owned.len(),
                    ov == artifact_views(owned@),
                    artifact_views(list@) == artifacts_of(ov.take(x as int), key@),
                decreases owned.len() - x,
            {
                proof {
                    assert(ov.take(x as int + 1).drop_last() =~= ov.take(x as int));
                    assert(ov.take(x as int + 1).last() == owned@[x as int]@);
                }
                if crate::text::str_eq(owned[x].model_name.as_str(), key.as_str()) {
                    let c = owned[x].copy();
                    let ghost prev = artifact_views(list@);
                    list.push(c);
                    proof {
                        assert(artifact_views(list@) =~= prev.push(c@));
                    }
                }
                x = x + 1;
            }
            proof {
                assert(ov.take(x as int) =~= ov);
            }
            let sorted = crate::swamp::data::sort_newest_first(list);
            let ghost kv = key@;
            let value = Artifacts { items: sorted };
            cache.insert(key, value);
            proof {
                assert forall|k2: Seq<char>|
                    #![trigger cache.lookup(k2)]
                    (exists|y: int| 0 <= y < t + 1 && (#[trigger] keys@[y])@ == k2) implies (cache.lookup(k2) matches Some(v)
                        && v@ == newest_first(artifacts_of(ov, k2))) by {
                    if k2 != kv {
                        let y = choose|y: int| 0 <= y < t + 1 && (#[trigger] keys@[y])@ == k2;
                        assert(y < t);
                    }
                }
                assert forall|k2: Seq<char>|
                    #![trigger cache.lookup(k2)]
                    !(exists|y: int| 0 <= y < t + 1 && (#[trigger] keys@[y])@ == k2) implies cache.lookup(k2) is None by {
                    assert(keys@[t as int]@ == kv);
                }
            }
            t = t + 1;
        }
        proof {
            assert forall|key: Seq<char>| #[trigger] target.contains_key(key) == (exists|x: int|
                0 <= x < keys@.len() && (#[trigger] keys@[x])@ == key) by {
                if target.contains_key(key) {
                    if exists|i: int| 0 <= i < ms.len() && (#[trigger] ms[i]).name == key {
                        let i = choose|i: int| 0 <= i < ms.len() && (#[trigger] ms[i]).name == key;
                        assert(keys@[i]@ == key);
                    } else {
                        let i = choose|i: int| 0 <= i < ov.len() && (#[trigger] ov[i]).model_name == key;
                        assert(keys@[self.models.len() + i]@ == key);
                    }
                }
                if exists|x: int| 0 <= x < keys@.len() && (#[trigger] keys@[x])@ == key {
                    let x = choose|x: int| 0 <= x < keys@.len() && (#[trigger] keys@[x])@ == key;
                    if x < self.models.len() {
                        assert(ms[x].name == key);
                    } else {
                        let y = x - self.models.len();
                        assert(keys@[self.models.len() + y] == keys@[x]);
                        assert(owned@[y].model_name@ == key);
                        assert(ov[y].model_name == key);
                    }
                }
            }
            assert(cache.kept() =~= target);
        }
        self.data_cache = cache;
    }
}

} // verus!

verus! {

/// `x` added to a list of distinct names kept in key order, unless present.
pub open spec fn insert_sorted_unique(s: Seq<Seq<char>>, x: Seq<char>) -> Seq<Seq<char>>
    decreases s.len(),
{
    if s.len() == 0 {
        seq![x]
    } else if s[0] == x {
        s
    } else if key_lt(x, s[0]) {
        seq![x] + s
    } else {
        seq![s[0]] + insert_sorted_unique(s.drop_first(), x)
    }
}

/// The distinct names in key order (a `BTreeSet` collected).
pub open spec fn sorted_unique(xs: Seq<Seq<char>>) -> Seq<Seq<char>>
    decreases xs.len(),
{
    if xs.len() == 0 {
        Seq::empty()
    } else {
        insert_sorted_unique(sorted_unique(xs.drop_last()), xs.last())
    }
}

proof fn lemma_insert_sorted_unique_at(s: Seq<Seq<char>>, x: Seq<char>, j: int)
    requires
        0 <= j <= s.len(),
        forall|i: int| 0 <= i < j ==> key_lt(#[trigger] s[i], x),
        j == s.len() || !key_lt(s[j], x),
    ensures
        insert_sorted_unique(s, x) == if j < s.len() && s[j] == x {
            s
        } else {
            s.insert(j, x)
        },
    decreases j,
{
    if j == 0 {
        if s.len() > 0 && s[0] != x {
            lemma_key_lt_total(s[0], x);
        }
        assert(s.insert(0, x) =~= seq![x] + s);
    } else {
        lemma_key_lt_irreflexive(x);
        lemma_key_lt_asymmetric(s[0], x);
        let rest = s.drop_first();
        assert forall|i: int| 0 <= i < j - 1 implies key_lt(#[trigger] rest[i], x) by {
            assert(rest[i] == s[i + 1]);
        }
        lemma_insert_sorted_unique_at(rest, x, j - 1);
        if j < s.len() && s[j] == x {
            assert(seq![s[0]] + rest =~= s);
        } else {
            assert(seq![s[0]] + rest.insert(j - 1, x) =~= s.insert(j, x));
        }
    }
}

/// The model types, distinct and in key order.
pub open spec fn model_types(ms: Seq<SummaryView>) -> Seq<Seq<char>> {
    sorted_unique(Seq::new(ms.len(), |i: int| ms[i].model_type))
}

pub open spec fn workflow_names(ws: Seq<WorkflowSummaryView>) -> Seq<Seq<char>> {
    Seq::new(ws.len(), |i: int| ws[i].name)
}

/// The descriptions to preload: every workflow in order, then every model
/// type.
pub open spec fn preload_requests(types: Seq<Seq<char>>, names: Seq<Seq<char>>) -> Seq<PreloadView> {
    Seq::new(names.len(), |i: int| PreloadView::Workflow(names[i])) + Seq::new(
        types.len(),
        |i: int| PreloadView::Type(types[i]),
    )
}

/// Starting to preload every model type's description and every workflow.
pub open spec fn start_preloading(s: AppView) -> Step {
    let (s1, e1) = abort_preload(s);
    let types = model_types(s.models);
    let names = workflow_names(s.workflows);
    let total = sat((types.len() + names.len()) as int);
    let s2 = AppView {
        preloading_types: Set::new(|k: Seq<char>| types.contains(k)),
        preloading_workflows: Set::new(|k: Seq<char>| names.contains(k)),
        preload_total: total as usize,
        preload_complete: 0,
        ..s1
    };
    if total == 0 {
        (s2, e1)
    } else {
        (
            AppView {
                status: "Preloading 0/"@ + nat_text(total) + "…"@,
                pending: Pending { preload: true, ..s2.pending },
                ..s2
            },
            e1.push(EffectView::Preload(preload_requests(types, names))),
        )
    }
}

/// How many preloads run at once: the available parallelism (4 when
/// unknown) kept between 4 and 12, and no more than there are to do.
pub open spec fn workers(available: Option<usize>, total: usize) -> usize {
    let a: usize = match available {
        Some(n) => n,
        None => 4,
    };
    let c: usize = if a < 4 {
        4
    } else if a > 12 {
        12
    } else {
        a
    };
    if c > total {
        total
    } else {
        c
    }
}

/// How many preloads run at once (`workers`).
pub fn preload_workers(available: Option<usize>, total: usize) -> (r: usize)
    ensures
        r == workers(available, total),
{
    let a: usize = match available {
        Some(n) => n,
        None => 4,
    };
    let c: usize = if a < 4 {
        4
    } else if a > 12 {
        12
    } else {
        a
    };
    if c > total {
        total
    } else {
        c
    }
}

/// Decimal text of a count.
fn count_text(n: usize) -> (r: String)
    ensures
        r@ == nat_text(n as nat),
{
    u64_text(n as u64)
}

impl App {
    /// Starts preloading (`start_preloading`).
    pub fn start_preloading(&mut self, effects: &mut Vec<Effect>)
        requires
            old(self).inv(),
        ensures
            final(self).inv(),
            ({
                let (s, e) = start_preloading(old(self)@);
                final(self)@ == s && effect_views(final(effects)@) == effect_views(old(effects)@) + e
            }),
    {
        let ghost s0 = self@;
        self.abort_preload_task(effects);
        let ghost e1 = effect_views(effects@);
        let ghost all_types = Seq::new(s0.models.len(), |i: int| s0.models[i].model_type);
        let mut types: Vec<String> = Vec::new();
        let mut i: usize = 0;
        while i < self.models.len()
            invariant
                i <= self.models.len(),
                all_types.len() == self.models.len(),
                forall|k: int| 0 <= k < self.models.len() ==> #[trigger] all_types[k] == self.models@[k].model_type@,
                views(types@) == sorted_unique(all_types.take(i as int)),
            decreases self.models.len() - i,
        {
            proof {
                assert(all_types.take(i as int + 1).drop_last() =~= all_types.take(i as int));
                assert(all_types.take(i as int + 1).last() == self.models@[i as int].model_type@);
            }
            let t = self.models[i].model_type.clone();
            let ghost sv = views(types@);
            let mut j: usize = 0;
            while j < types.len() && crate::json::key_less(types[j].as_str(), t.as_str())
                invariant
                    j <= types.len(),
                    sv == views(types@),
                    forall|x: int| 0 <= x < j ==> key_lt(#[trigger] sv[x], t@),
                decreases types.len() - j,
            {
                j = j + 1;
            }
            proof {
                lemma_insert_sorted_unique_at(sv, t@, j as int);
            }
            if !(j < types.len() && crate::text::str_eq(types[j].as_str(), t.as_str())) {
                let ghost tv = t@;
                types.insert(j, t);
                proof {
                    assert(views(types@) =~= sv.insert(j as int, tv));
                }
            }
            i = i + 1;
        }
        proof {
            assert(all_types.take(i as int) =~= all_types);
        }
        let mut names: Vec<String> = Vec::new();
        let mut k: usize = 0;
        while k < self.workflows.len()
            invariant
                k <= self.workflows.len(),
                views(names@) == workflow_names(workflow_summary_views(self.workflows@)).take(k as int),
            decreases self.workflows.len() - k,
        {
            let n = self.workflows[k].name.clone();
            let ghost before = names@;
            names.push(n);
            proof {
                assert(views(names@) =~= views(before).push(n@));
                assert(views(names@) =~= workflow_names(workflow_summary_views(self.workflows@)).take(k as int + 1));
            }
            k = k + 1;
        }
        proof {
            assert(workflow_names(workflow_summary_views(self.workflows@)).take(k as int) =~= workflow_names(
                workflow_summary_views(self.workflows@),
            ));
        }
        let ghost tv = views(types@);
        let ghost nv = views(names@);
        self.preloading_types = crate::text::clone_strings(&types);
        self.preloading_workflows = crate::text::clone_strings(&names);
        let total = types.len().saturating_add(names.len());
        self.preload_total = total;
        self.preload_complete = 0;
        proof {
            assert(name_set(self.preloading_types@) =~= Set::new(|x: Seq<char>| tv.contains(x))) by {
                assert forall|x: Seq<char>| name_set(self.preloading_types@).contains(x) == tv.contains(x) by {
                    if tv.contains(x) {
                        let w = choose|w: int| 0 <= w < tv.len() && tv[w] == x;
                        assert(self.preloading_types@[w]@ == x);
                    }
                    if name_set(self.preloading_types@).contains(x) {
                        let w = choose|w: int| 0 <= w < self.preloading_types@.len() && (#[trigger] self.preloading_types@[w])@ == x;
                        assert(tv[w] == x);
                    }
                }
            }
            assert(name_set(self.preloading_workflows@) =~= Set::new(|x: Seq<char>| nv.contains(x))) by {
                assert forall|x: Seq<char>| name_set(self.preloading_workflows@).contains(x) == nv.contains(x) by {
                    if nv.contains(x) {
                        let w = choose|w: int| 0 <= w < nv.len() && nv[w] == x;
                        assert(self.preloading_workflows@[w]@ == x);
                    }
                    if name_set(self.preloading_workflows@).contains(x) {
                        let w = choose|w: int| 0 <= w < self.preloading_workflows@.len() && (#[trigger] self.preloading_workflows@[w])@ == x;
                        assert(nv[w] == x);
                    }
                }
            }
        }
        if total == 0 {
            return ;
        }
        let mut requests: Vec<PreloadRequest> = Vec::new();
        let mut a: usize = 0;
        while a < names.len()
            invariant
                a <= names.len(),
                nv == views(names@),
                preload_views(requests@) == Seq::new(a as nat, |x: int| PreloadView::Workflow(nv[x])),
            decreases names.len() - a,
        {
            let ghost before = requests@;
            let n = names[a].clone();
            let ghost nn = n@;
            requests.push(PreloadRequest::Workflow(n));
            proof {
                assert(nn == nv[a as int]);
                assert(preload_views(requests@) =~= preload_views(before).push(PreloadView::Workflow(nn)));
                assert(preload_views(requests@) =~= Seq::new((a + 1) as nat, |x: int| PreloadView::Workflow(nv[x])));
            }
            a = a + 1;
        }
        let mut b: usize = 0;
        while b < types.len()
            invariant
                b <= types.len(),
                tv == views(types@),
                preload_views(requests@) == Seq::new(nv.len(), |x: int| PreloadView::Workflow(nv[x])) + Seq::new(
                    b as nat,
                    |x: int| PreloadView::Type(tv[x]),
                ),
            decreases types.len() - b,
        {
            let t = types[b].clone();
            let ghost tt = t@;
            let ghost before = requests@;
            requests.push(PreloadRequest::Type(t));
            proof {
                assert(tt == tv[b as int]);
                assert(preload_views(requests@) =~= preload_views(before).push(PreloadView::Type(tt)));
                assert(preload_views(requests@) =~= Seq::new(nv.len(), |x: int| PreloadView::Workflow(nv[x])) + Seq::new(
                    (b + 1) as nat,
                    |x: int| PreloadView::Type(tv[x]),
                ));
            }
            b = b + 1;
        }
        let mut status = String::from_str("Preloading 0/");
        let count = count_text(total);
        status.append(count.as_str());
        status.append("…");
        self.status = status;
        self.preload_pending = true;
        let ghost before = effects@;
        effects.push(Effect::Preload { requests });
        proof {
            assert(effect_views(effects@) =~= effect_views(before).push(effects@.last()@));
        }
    }
}

} // verus!

verus! {

/// A description that was preloaded, or why it was not.
pub enum PreloadEvent {
    Type(String, Result<TypeDescription, String>),
    Workflow(String, Result<WorkflowDefinition, String>),
}

pub enum PreloadEventView {
    Type(Seq<char>, Result<TypeView, Seq<char>>),
    Workflow(Seq<char>, Result<WorkflowView, Seq<char>>),
}

impl View for PreloadEvent {
    type V = PreloadEventView;

    open spec fn view(&self) -> PreloadEventView {
        match self {
            PreloadEvent::Type(t, r) => PreloadEventView::Type(t@, result_view(*r)),
            PreloadEvent::Workflow(n, r) => PreloadEventView::Workflow(n@, result_view(*r)),
        }
    }
}

pub open spec fn preload_event_views(s: Seq<PreloadEvent>) -> Seq<PreloadEventView> {
    Seq::new(s.len(), |i: int| s[i]@)
}

/// The status while and after preloading.
pub open spec fn preload_status(s: AppView) -> Seq<char> {
    if s.preload_complete == s.preload_total {
        "Preloaded "@ + nat_text(s.models.len()) + " model(s), "@ + nat_text(s.workflows.len()) + " workflow(s)"@
    } else {
        "Preloading "@ + nat_text(s.preload_complete as nat) + "/"@ + nat_text(s.preload_total as nat) + "…"@
    }
}

/// One preloaded description arrived: counted, no longer awaited, cached
/// and shown where it is selected. A workflow's failure is reported when
/// it is selected on the workflows tab; a type's is not reported.
pub open spec fn preload_event(s: AppView, ev: PreloadEventView) -> AppView {
    let s0 = AppView { preload_complete: sat(s.preload_complete + 1) as usize, ..s };
    let s1 = match ev {
        PreloadEventView::Type(t, r) => {
            let a = AppView { preloading_types: s0.preloading_types.remove(t), ..s0 };
            match r {
                Ok(d) => {
                    let b = AppView { type_cache: a.type_cache.insert(t, d), ..a };
                    if type_selected(b, t) {
                        AppView { type_description: Some(d), ..b }
                    } else {
                        b
                    }
                },
                Err(_) => a,
            }
        },
        PreloadEventView::Workflow(n, r) => {
            let a = AppView { preloading_workflows: s0.preloading_workflows.remove(n), ..s0 };
            match r {
                Ok(w) => {
                    let b = AppView { workflow_cache: a.workflow_cache.insert(n, w), ..a };
                    if workflow_selected(b, n) {
                        AppView {
                            workflow: Some(w),
                            workflow_node_index: clamped(b.workflow_node_index, step_count(w.jobs)),
                            ..b
                        }
                    } else {
                        b
                    }
                },
                Err(e) => if a.tab == Tab::Workflows && workflow_selected(a, n) {
                    AppView { error: Some(e), ..a }
                } else {
                    a
                },
            }
        },
    };
    AppView { status: preload_status(s1), ..s1 }
}

/// Preloaded descriptions arrived, in order.
pub open spec fn preload_events(s: AppView, evs: Seq<PreloadEventView>) -> AppView
    decreases evs.len(),
{
    if evs.len() == 0 {
        s
    } else {
        preload_event(preload_events(s, evs.drop_last()), evs.last())
    }
}

/// A preloaded description is kept: once it arrives it is cached under its
/// name, no longer awaited, and counted as done.
pub proof fn lemma_preload_kept(s: AppView, name: Seq<char>, t: TypeView, w: WorkflowView)
    ensures
        ({
            let a = preload_event(s, PreloadEventView::Type(name, Ok(t)));
            &&& a.type_cache.contains_key(name) && a.type_cache[name] == t
            &&& !a.preloading_types.contains(name)
            &&& a.preload_complete == sat(s.preload_complete + 1)
        }),
        ({
            let b = preload_event(s, PreloadEventView::Workflow(name, Ok(w)));
            &&& b.workflow_cache.contains_key(name) && b.workflow_cache[name] == w
            &&& !b.preloading_workflows.contains(name)
            &&& b.preload_complete == sat(s.preload_complete + 1)
        }),
{
}

/// What is cached is not fetched again unless forced: with the selected
/// model's definition cached, showing it starts nothing and shows the
/// cached definition.
pub proof fn lemma_cached_not_refetched(s: AppView)
    requires
        selected_model_of(s) matches Some(m) && s.model_cache.contains_key(m.name),
    ensures
        schedule_model(s, false).1.len() == 0,
        schedule_model(s, false).0.detail == Some(s.model_cache[selected_model_of(s)->Some_0.name]),
{
}

/// The names without `name`.
fn remove_name(names: &mut Vec<String>, name: &str)
    ensures
        name_set(final(names)@) == name_set(old(names)@).remove(name@),
{
    let ghost orig = name_set(names@);
    let mut kept: Vec<String> = Vec::new();
    let mut i: usize = 0;
    while i < names.len()
        invariant
            i <= names.len(),
            orig == name_set(names@),
            forall|x: Seq<char>| #[trigger] name_set(kept@).contains(x) == (x != name@ && exists|j: int|
                0 <= j < i && (#[trigger] names@[j])@ == x),
        decreases names.len() - i,
    {
        if !crate::text::str_eq(names[i].as_str(), name) {
            let n = names[i].clone();
            let ghost before = kept@;
            kept.push(n);
            proof {
                assert forall|x: Seq<char>| #[trigger] name_set(kept@).contains(x) == (x != name@ && exists|j: int|
                    0 <= j < i + 1 && (#[trigger] names@[j])@ == x) by {
                    if name_set(kept@).contains(x) {
                        let w = choose|w: int| 0 <= w < kept@.len() && (#[trigger] kept@[w])@ == x;
                        if w < before.len() {
                            assert(before[w] == kept@[w]);
                            assert(name_set(before).contains(x));
                        } else {
                            assert(names@[i as int]@ == x);
                        }
                    }
                    if x != name@ && exists|j: int| 0 <= j < i + 1 && (#[trigger] names@[j])@ == x {
                        let j = choose|j: int| 0 <= j < i + 1 && (#[trigger] names@[j])@ == x;
                        if j < i {
                            assert(name_set(before).contains(x));
                            let w = choose|w: int| 0 <= w < before.len() && (#[trigger] before[w])@ == x;
                            assert(kept@[w] == before[w]);
                        } else {
                            assert(kept@[before.len() as int]@ == x);
                        }
                    }
                }
            }
        } else {
            proof {
                assert forall|x: Seq<char>| #[trigger] name_set(kept@).contains(x) == (x != name@ && exists|j: int|
                    0 <= j < i + 1 && (#[trigger] names@[j])@ == x) by {
                    if x != name@ && exists|j: int| 0 <= j < i + 1 && (#[trigger] names@[j])@ == x {
                        let j = choose|j: int| 0 <= j < i + 1 && (#[trigger] names@[j])@ == x;
                        assert(j < i);
                    }
                }
            }
        }
        i = i + 1;
    }
    *names = kept;
    proof {
        assert(name_set(names@) =~= orig.remove(name@));
    }
}

impl App {
    fn preload_status(&self) -> (r: String)
        ensures
            r@ == preload_status(self@),
    {
        if self.preload_complete == self.preload_total {
            let mut s = String::from_str("Preloaded ");
            s.append(count_text(self.models.len()).as_str());
            s.append(" model(s), ");
            s.append(count_text(self.workflows.len()).as_str());
            s.append(" workflow(s)");
            s
        } else {
            let mut s = String::from_str("Preloading ");
            s.append(count_text(self.preload_complete).as_str());
            s.append("/");
            s.append(count_text(self.preload_total).as_str());
            s.append("…");
            s
        }
    }

    #[verifier::rlimit(60)]
    #[verifier::spinoff_prover]
    fn preload_event(&mut self, event: PreloadEvent)
        requires
            old(self).inv(),
        ensures
            final(self).inv(),
            final(self)@ == preload_event(old(self)@, event@),
    {
        self.preload_complete = self.preload_complete.saturating_add(1);
        match event {
            PreloadEvent::Type(model_type, result) => {
                remove_name(&mut self.preloading_types, model_type.as_str());
                match result {
                    Ok(description) => {
                        let ghost before = self.type_cache;
                        let copy = description.copy();
                        self.type_cache.insert(model_type.clone(), copy);
                        proof {
                            lemma_kept_insert(before, self.type_cache, model_type@, copy);
                        }
                        if self.type_selected(model_type.as_str()) {
                            self.type_description = Some(description);
                        }
                    },
                    Err(_) => {},
                }
            },
            PreloadEvent::Workflow(name, result) => {
                remove_name(&mut self.preloading_workflows, name.as_str());
                match result {
                    Ok(workflow) => {
                        let ghost before = self.workflow_cache;
                        let copy = workflow.copy();
                        self.workflow_cache.insert(name.clone(), copy);
                        proof {
                            lemma_kept_insert(before, self.workflow_cache, name@, copy);
                        }
                        if self.workflow_selected(name.as_str()) {
                            self.workflow = Some(workflow);
                            let count = self.workflow_nodes().len();
                            self.workflow_node_index = clamp_to(self.workflow_node_index, count);
                        }
                    },
                    Err(e) => {
                        if self.tab == Tab::Workflows && self.workflow_selected(name.as_str()) {
                            self.error = Some(e);
                        }
                    },
                }
            },
        }
        self.status = self.preload_status();
    }

    /// Preloaded descriptions arrived (`preload_events`).
    pub fn preload_done(&mut self, events: Vec<PreloadEvent>)
        requires
            old(self).inv(),
        ensures
            final(self).inv(),
            final(self)@ == preload_events(old(self)@, preload_event_views(events@)),
    {
        let ghost s0 = self@;
        let ghost evs = preload_event_views(events@);
        let mut pending = events;
        let mut k: usize = 0;
        let n0 = pending.len();
        proof {
            assert(evs.len() == n0);
            assert(pending@ =~= events@.skip(0));
            assert(evs.take(0) =~= Seq::<PreloadEventView>::empty());
        }
        while pending.len() > 0
            invariant
                k <= evs.len(),
                evs.len() <= usize::MAX,
                evs == preload_event_views(events@),
                pending@ == events@.skip(k as int),
                self.inv(),
                self@ == preload_events(s0, evs.take(k as int)),
            decreases pending.len(),
        {
            let ghost before = pending@;
            let ev = pending.remove(0);
            proof {
                assert(pending@ =~= events@.skip(k as int + 1));
                assert(ev == events@[k as int]) by {
                    assert(before[0] == events@.skip(k as int)[0]);
                }
                assert(evs.take(k as int + 1).drop_last() =~= evs.take(k as int));
                assert(evs.take(k as int + 1).last() == ev@);
            }
            self.preload_event(ev);
            k = k + 1;
        }
        proof {
            assert(evs.take(k as int) =~= evs);
        }
    }
}

} // verus!

verus! {

pub enum RunEventView {
    Log(Seq<char>),
    Finished(bool, bool, Seq<char>),
}

impl View for RunEvent {
    type V = RunEventView;

    open spec fn view(&self) -> RunEventView {
        match self {
            RunEvent::Log(l) => RunEventView::Log(l@),
            RunEvent::Finished { success, lock_contended, message } => RunEventView::Finished(
                *success,
                *lock_contended,
                message@,
            ),
        }
    }
}

pub open spec fn run_event_views(s: Seq<RunEvent>) -> Seq<RunEventView> {
    Seq::new(s.len(), |i: int| s[i]@)
}

/// The most log lines kept.
pub open spec fn log_cap() -> nat {
    2000
}

/// A log line added, the oldest dropped past the cap.
pub open spec fn log_push(logs: Seq<Seq<char>>, line: Seq<char>) -> Seq<Seq<char>> {
    let l = logs.push(line);
    if l.len() > log_cap() {
        l.drop_first()
    } else {
        l
    }
}

/// The log and the last ending after taking in run events.
pub open spec fn absorb_run(logs: Seq<Seq<char>>, done: Option<(bool, Seq<char>)>, evs: Seq<RunEventView>) -> (
    Seq<Seq<char>>,
    Option<(bool, Seq<char>)>,
)
    decreases evs.len(),
{
    if evs.len() == 0 {
        (logs, done)
    } else {
        let (l, d) = absorb_run(logs, done, evs.drop_last());
        match evs.last() {
            RunEventView::Log(line) => (log_push(l, line), d),
            RunEventView::Finished(success, _, message) => (l, Some((success, message))),
        }
    }
}

/// The run log never holds more than its cap: taking in run events keeps a
/// log within the cap within it, and every logged line is kept as the newest
/// entry when it arrives.
pub proof fn lemma_run_log_capped(logs: Seq<Seq<char>>, done: Option<(bool, Seq<char>)>, evs: Seq<RunEventView>)
    requires
        logs.len() <= log_cap(),
    ensures
        absorb_run(logs, done, evs).0.len() <= log_cap(),
        evs.len() > 0 ==> (evs.last() matches RunEventView::Log(line) ==> absorb_run(logs, done, evs).0.last() == line),
    decreases evs.len(),
{
    if evs.len() > 0 {
        lemma_run_log_capped(logs, done, evs.drop_last());
    }
}

/// Taking in what a running method reported: its output is logged; when it
/// ended, its message becomes the status, the run is over, and a successful
/// run's data is fetched again.
pub open spec fn run_events(s: AppView, evs: Seq<RunEventView>) -> Step {
    let (logs, done) = absorb_run(s.run_logs, None, evs);
    let s1 = AppView { run_logs: logs, ..s };
    let s2 = match done {
        Some((ok, message)) => AppView {
            status: message,
            run_active: false,
            running_model: None,
            refresh_after_run: ok,
            ..s1
        },
        None => s1,
    };
    if s2.refresh_after_run {
        schedule_data(AppView { refresh_after_run: false, ..s2 }, true)
    } else {
        (s2, Seq::empty())
    }
}

impl App {
    /// Takes in what a running method reported (`run_events`).
    pub fn run_events(&mut self, events: Vec<RunEvent>, effects: &mut Vec<Effect>)
        requires
            old(self).inv(),
        ensures
            final(self).inv(),
            ({
                let (s, e) = run_events(old(self)@, run_event_views(events@));
                final(self)@ == s && effect_views(final(effects)@) == effect_views(old(effects)@) + e
            }),
    {
        let ghost evs = run_event_views(events@);
        let ghost logs0 = views(self.run_logs@);
        let ghost s0 = self@;
        let mut completed: Option<(bool, String)> = None;
        let mut k: usize = 0;
        while k < events.len()
            invariant
                k <= events.len(),
                evs == run_event_views(events@),
                self.inv(),
                self@ == (AppView { run_logs: views(self.run_logs@), ..s0 }),
                ({
                    let (l, d) = absorb_run(logs0, None, evs.take(k as int));
                    views(self.run_logs@) == l && match completed {
                        Some((ok, m)) => d == Some((ok, m@)),
                        None => d is None,
                    }
                }),
            decreases events.len() - k,
        {
            proof {
                assert(evs.take(k as int + 1).drop_last() =~= evs.take(k as int));
                assert(evs.take(k as int + 1).last() == events@[k as int]@);
            }
            match &events[k] {
                RunEvent::Log(line) => {
                    let ghost before = views(self.run_logs@);
                    self.run_logs.push(line.clone());
                    proof {
                        assert(views(self.run_logs@) =~= before.push(line@));
                    }
                    if self.run_logs.len() > 2000 {
                        let ghost pushed = views(self.run_logs@);
                        let _ = self.run_logs.remove(0);
                        proof {
                            assert(views(self.run_logs@) =~= pushed.drop_first());
                        }
                    }
                },
                RunEvent::Finished { success, lock_contended: _, message } => {
                    completed = Some((*success, message.clone()));
                },
            }
            k = k + 1;
        }
        proof {
            assert(evs.take(k as int) =~= evs);
        }
        match completed {
            Some((success, message)) => {
                self.status = message;
                self.run_active = false;
                self.running_model = None;
                self.refresh_after_run = success;
            },
            None => {},
        }
        if self.refresh_after_run {
            self.refresh_after_run = false;
            self.schedule_data(true, effects);
        } else {
            proof {
                assert(effect_views(effects@) =~= effect_views(old(effects)@) + Seq::<EffectView>::empty());
            }
        }
    }
}

} // verus!

verus! {

/// The models replaced and the list filtered again.
pub open spec fn with_models(s: AppView, ms: Seq<SummaryView>) -> AppView {
    let x = filtered(AppView { models: ms, ..s });
    AppView { model_index: clamped(x.model_index, x.filtered_models.len()), ..x }
}

/// The workflows replaced and the list filtered again.
pub open spec fn with_workflows(s: AppView, ws: Seq<WorkflowSummaryView>) -> AppView {
    let x = filtered(AppView { workflows: ws, ..s });
    AppView { workflow_index: clamped(x.workflow_index, x.filtered_workflows.len()), ..x }
}

/// The lists of the repository's listing taken in: the version shown; the
/// models listed (a failure reported); with the models, all data cached
/// (else its failure noted); the workflows listed (a failure noted).
pub open spec fn startup_lists(
    s: AppView,
    version: Result<Seq<char>, Seq<char>>,
    models: Result<Seq<SummaryView>, Seq<char>>,
    all_data: Result<Seq<ArtifactView>, Seq<char>>,
    workflows: Result<Seq<WorkflowSummaryView>, Seq<char>>,
) -> AppView {
    let s0 = AppView { pending: Pending { startup: false, ..s.pending }, ..s };
    let s1 = match version {
        Ok(v) => AppView { swamp_version: v, ..s0 },
        Err(e) => failed(s0, e),
    };
    let s2 = match models {
        Ok(ms) => with_models(s1, ms),
        Err(e) => failed(s1, e),
    };
    let s3 = match all_data {
        Ok(a) => if models is Ok {
            AppView { data_cache: all_data_cache(s2.models, a), ..s2 }
        } else {
            s2
        },
        Err(e) => AppView { error: Some(e), ..s2 },
    };
    match workflows {
        Ok(ws) => with_workflows(s3, ws),
        Err(e) => AppView { error: Some(e), ..s3 },
    }
}

/// After the models are listed: preloading started and the selection
/// followed (the workflow's too on the workflows tab).
pub open spec fn startup_follow(s: AppView) -> Step {
    then(
        preload_then_select(s),
        |x: AppView|
            if x.tab == Tab::Workflows {
                workflow_selection_changed(x)
            } else {
                (x, Seq::empty())
            },
    )
}

/// The repository's listing arrived (`startup_lists`, then, when the
/// models were listed, `startup_follow`).
pub open spec fn startup_done(
    s: AppView,
    version: Result<Seq<char>, Seq<char>>,
    models: Result<Seq<SummaryView>, Seq<char>>,
    all_data: Result<Seq<ArtifactView>, Seq<char>>,
    workflows: Result<Seq<WorkflowSummaryView>, Seq<char>>,
) -> Step {
    let s4 = startup_lists(s, version, models, all_data, workflows);
    if models is Ok {
        startup_follow(s4)
    } else {
        (s4, Seq::empty())
    }
}

impl App {
    fn set_models(&mut self, models: Vec<ModelSummary>)
        requires
            old(self).inv(),
        ensures
            final(self).inv(),
            final(self)@ == with_models(old(self)@, summary_views(models@)),
    {
        self.models = models;
        self.filtered_models = Vec::new();
        self.apply_filter();
        self.model_index = clamp_to(self.model_index, self.filtered_models.len());
    }

    fn set_workflows(&mut self, workflows: Vec<WorkflowSummary>)
        requires
            old(self).inv(),
        ensures
            final(self).inv(),
            final(self)@ == with_workflows(old(self)@, workflow_summary_views(workflows@)),
    {
        self.workflows = workflows;
        self.filtered_workflows = Vec::new();
        self.apply_filter();
        self.workflow_index = clamp_to(self.workflow_index, self.filtered_workflows.len());
    }

    #[verifier::rlimit(100)]
    #[verifier::spinoff_prover]
    fn startup_lists(
        &mut self,
        version: Result<String, String>,
        models: Result<Vec<ModelSummary>, String>,
        all_data: Result<Vec<DataArtifact>, String>,
        workflows: Result<Vec<WorkflowSummary>, String>,
    )
        requires
            old(self).inv(),
        ensures
            final(self).inv(),
            final(self)@ == startup_lists(
                old(self)@,
                result_view(version),
                match models {
                    Ok(m) => Ok(summary_views(m@)),
                    Err(e) => Err(e@),
                },
                match all_data {
                    Ok(a) => Ok(artifact_views(a@)),
                    Err(e) => Err(e@),
                },
                match workflows {
                    Ok(w) => Ok(workflow_summary_views(w@)),
                    Err(e) => Err(e@),
                },
            ),
    {
        self.startup_pending = false;
        match version {
            Ok(v) => self.swamp_version = v,
            Err(e) => self.fail(e),
        }
        let loaded = models.is_ok();
        match models {
            Ok(ms) => self.set_models(ms),
            Err(e) => self.fail(e),
        }
        match all_data {
            Ok(artifacts) => {
                if loaded {
                    self.cache_all_data(artifacts);
                }
            },
            Err(e) => self.error = Some(e),
        }
        match workflows {
            Ok(ws) => self.set_workflows(ws),
            Err(e) => self.error = Some(e),
        }
    }

    #[verifier::rlimit(60)]
    #[verifier::spinoff_prover]
    fn preload_and_select(&mut self, effects: &mut Vec<Effect>)
        requires
            old(self).inv(),
        ensures
            final(self).inv(),
            ({
                let (s, e) = preload_then_select(old(self)@);
                final(self)@ == s && effect_views(final(effects)@) == effect_views(old(effects)@) + e
            }),
    {
        let ghost s0 = self@;
        let ghost e0 = effect_views(effects@);
        self.start_preloading(effects);
        let ghost a: Step = (self@, effect_views(effects@).skip(e0.len() as int));
        let ghost e1 = effect_views(effects@);
        proof {
            assert(a.1 =~= start_preloading(s0).1);
        }
        self.selection_changed(effects);
        proof {
            let b = selection_changed(a.0);
            assert(effect_views(effects@).skip(e1.len() as int) =~= b.1);
            lemma_preload_then_select(s0);
            assert(effect_views(effects@) =~= e0 + (a.1 + b.1));
        }
    }

    #[verifier::rlimit(100)]
    #[verifier::spinoff_prover]
    fn startup_follow(&mut self, effects: &mut Vec<Effect>)
        requires
            old(self).inv(),
        ensures
            final(self).inv(),
            ({
                let (s, e) = startup_follow(old(self)@);
                final(self)@ == s && effect_views(final(effects)@) == effect_views(old(effects)@) + e
            }),
    {
        let ghost e0 = effect_views(effects@);
        let ghost p: Step = preload_then_select(self@);
        self.preload_and_select(effects);
        if self.tab == Tab::Workflows {
            self.workflow_selection_changed(effects);
            proof {
                let w = workflow_selection_changed(p.0);
                assert(effect_views(effects@) =~= e0 + (p.1 + w.1));
            }
        } else {
            proof {
                assert(effect_views(effects@) =~= e0 + (p.1 + Seq::<EffectView>::empty()));
            }
        }
    }

    /// The repository's listing arrived (`startup_done`).
    pub fn startup_done(
        &mut self,
        version: Result<String, String>,
        models: Result<Vec<ModelSummary>, String>,
        all_data: Result<Vec<DataArtifact>, String>,
        workflows: Result<Vec<WorkflowSummary>, String>,
        effects: &mut Vec<Effect>,
    )
        requires
            old(self).inv(),
        ensures
            final(self).inv(),
            ({
                let (s, e) = startup_done(
                    old(self)@,
                    result_view(version),
                    match models {
                        Ok(m) => Ok(summary_views(m@)),
                        Err(e) => Err(e@),
                    },
                    match all_data {
                        Ok(a) => Ok(artifact_views(a@)),
                        Err(e) => Err(e@),
                    },
                    match workflows {
                        Ok(w) => Ok(workflow_summary_views(w@)),
                        Err(e) => Err(e@),
                    },
                );
                final(self)@ == s && effect_views(final(effects)@) == effect_views(old(effects)@) + e
            }),
    {
        let loaded = models.is_ok();
        self.startup_lists(version, models, all_data, workflows);
        if loaded {
            self.startup_follow(effects);
        } else {
            proof {
                assert(effect_views(effects@) =~= effect_views(old(effects)@) + Seq::<EffectView>::empty());
            }
        }
    }
}

} // verus!

verus! {

/// A key as the browser sees it.
#[derive(Clone, Copy, PartialEq, Eq, Debug, Structural)]
pub enum KeyCode {
    Char(char),
    Esc,
    Enter,
    Backspace,
    Tab,
    BackTab,
    Up,
    Down,
    Left,
    Right,
    Other,
}

/// A key press: the key, and whether Control was held.
#[derive(Clone, Copy, PartialEq, Eq, Debug, Structural)]
pub struct Key {
    pub code: KeyCode,
    pub ctrl: bool,
}

/// The form a method's arguments give (the raw editor for a schema whose
/// objects are not ordered by key).
pub open spec fn form_mode_for(arguments: Json) -> ModeView {
    if wf(arguments) {
        form_for_spec(arguments)
    } else {
        ModeView::RawJson("{}"@)
    }
}

/// Asking to cancel the running method.
pub open spec fn cancel_run(s: AppView) -> Step {
    match s.running_model {
        Some(m) => (s, seq![EffectView::CancelRun(m)]),
        None => (s, Seq::empty()),
    }
}

/// The reply to a cancellation.
pub open spec fn cancel_done(s: AppView, r: Result<(), Seq<char>>) -> AppView {
    match r {
        Ok(_) => AppView { status: "Cancellation requested"@, ..s },
        Err(e) => failed(s, e),
    }
}

/// The selected artifact.
pub open spec fn selected_artifact_of(s: AppView) -> Option<ArtifactView> {
    if s.artifact_index < s.artifacts.len() {
        Some(s.artifacts[s.artifact_index as int])
    } else {
        None
    }
}

/// Fetching two versions of the selected artifact to compare.
pub open spec fn load_diff(s: AppView, a: u64, b: u64) -> Step {
    match (selected_model_of(s), selected_artifact_of(s)) {
        (Some(m), Some(art)) => (s, seq![EffectView::FetchDiff(m.name, art.name, art.content_type, a, b)]),
        _ => (s, Seq::empty()),
    }
}

/// Comparing the two marked versions: after confirmation where either is
/// past the preview limit.
pub open spec fn compare_versions(s: AppView) -> Step {
    match (s.compare_a, s.compare_b) {
        (Some(ia), Some(ib)) => if ia < s.versions.len() && ib < s.versions.len() {
            let va = s.versions[ia as int];
            let vb = s.versions[ib as int];
            if va.size > s.preview_limit || vb.size > s.preview_limit {
                (AppView { mode: ModeState::LargeConfirm(LargeAction::Diff(va.version, vb.version)), ..s }, Seq::empty())
            } else {
                load_diff(s, va.version, vb.version)
            }
        } else {
            (s, Seq::empty())
        },
        _ => (s, Seq::empty()),
    }
}

/// The label of a version.
pub open spec fn version_label(v: u64) -> Seq<char> {
    "v"@ + nat_text(v as nat)
}

/// Two versions arrived to compare: JSON compared structurally (declared
/// JSON, or neither a string), strings line by line, anything else not at
/// all; a failure of either fetch is reported (the first's first).
pub open spec fn diff_loaded(
    s: AppView,
    content_type: Seq<char>,
    av: u64,
    bv: u64,
    ra: Result<ContentView, Seq<char>>,
    rb: Result<ContentView, Seq<char>>,
) -> AppView {
    match (ra, rb) {
        (Ok(a), Ok(b)) => {
            let diff = if content_type == "application/json"@ || (!(a.content is Str) && !(b.content is Str)) {
                Some(diff_report(diff_lines("$"@, a.content, b.content)))
            } else if a.content is Str && b.content is Str {
                Some(text_diff_spec(version_label(av), a.content->Str_0, version_label(bv), b.content->Str_0))
            } else {
                None
            };
            AppView {
                diff: diff,
                status: if diff is Some {
                    "Comparing "@ + version_label(av) + " with "@ + version_label(bv)
                } else {
                    "Binary content cannot be compared"@
                },
                ..s
            }
        },
        (Err(e), _) => failed(s, e),
        (_, Err(e)) => failed(s, e),
    }
}

/// Fetching the selected artifact's latest content and its versions.
pub open spec fn load_latest(s: AppView) -> Step {
    match (selected_model_of(s), selected_artifact_of(s)) {
        (Some(m), Some(art)) => (s, seq![EffectView::FetchLatest(m.name, art.name)]),
        _ => (s, Seq::empty()),
    }
}

/// Loading the latest content: after confirmation past the preview limit.
pub open spec fn request_latest(s: AppView) -> Step {
    match selected_artifact_of(s) {
        Some(art) => if art.size > s.preview_limit {
            (AppView { mode: ModeState::LargeConfirm(LargeAction::Latest), ..s }, Seq::empty())
        } else {
            load_latest(s)
        },
        None => (s, Seq::empty()),
    }
}

/// The latest content and the versions arrived.
pub open spec fn latest_loaded(
    s: AppView,
    name: Seq<char>,
    rc: Result<ContentView, Seq<char>>,
    rv: Result<Seq<VersionView>, Seq<char>>,
) -> AppView {
    let s1 = match rc {
        Ok(c) => AppView { content: Some(c), ..s },
        Err(e) => failed(s, e),
    };
    let s2 = match rv {
        Ok(v) => AppView { versions: v, ..s1 },
        Err(e) => failed(s1, e),
    };
    let s3 = AppView { version_cursor: 0, diff: None, ..s2 };
    if s3.error is None {
        AppView { status: "Loaded "@ + name, ..s3 }
    } else {
        s3
    }
}

/// Fetching one version of the selected artifact.
pub open spec fn load_version(s: AppView, version: u64) -> Step {
    match (selected_model_of(s), selected_artifact_of(s)) {
        (Some(m), Some(art)) => (s, seq![EffectView::FetchVersion(m.name, art.name, version)]),
        _ => (s, Seq::empty()),
    }
}

/// Loading the version under the cursor: after confirmation past the
/// preview limit.
pub open spec fn load_cursor_version(s: AppView) -> Step {
    if s.version_cursor < s.versions.len() {
        let v = s.versions[s.version_cursor as int];
        if v.size > s.preview_limit {
            (AppView { mode: ModeState::LargeConfirm(LargeAction::Version(v.version)), ..s }, Seq::empty())
        } else {
            load_version(s, v.version)
        }
    } else {
        (s, Seq::empty())
    }
}

/// One version arrived.
pub open spec fn version_loaded(s: AppView, name: Seq<char>, version: u64, r: Result<ContentView, Seq<char>>) -> AppView {
    match r {
        Ok(c) => AppView {
            content: Some(c),
            diff: None,
            status: "Loaded "@ + name + " "@ + version_label(version),
            ..s
        },
        Err(e) => failed(s, e),
    }
}

/// Doing what was confirmed past the preview limit.
pub open spec fn perform_large_action(s: AppView, action: LargeAction) -> Step {
    match action {
        LargeAction::Latest => load_latest(s),
        LargeAction::Version(v) => load_version(s, v),
        LargeAction::Diff(a, b) => load_diff(s, a, b),
    }
}

/// Enter on the content: the method form on the overview (not while a
/// method runs), the version or latest content on the data tab.
pub open spec fn open_selected(s: AppView) -> Step {
    if s.focus == Focus::Models {
        (AppView { focus: Focus::Content, ..s }, Seq::empty())
    } else {
        match s.tab {
            Tab::Overview => if s.focus == Focus::Outputs {
                (s, Seq::empty())
            } else if s.run_active {
                (AppView { error: Some("Only one method can run at a time"@), ..s }, Seq::empty())
            } else {
                match selected_method_of(s) {
                    Some(m) => (
                        AppView {
                            form: Some(FormState { method: m, mode: form_mode_for(m.arguments), selected_field: 0 }),
                            mode: ModeState::MethodForm,
                            ..s
                        },
                        Seq::empty(),
                    ),
                    None => (s, Seq::empty()),
                }
            },
            Tab::Data => if s.content is Some && s.versions.len() > 0 {
                load_cursor_version(s)
            } else {
                request_latest(s)
            },
            Tab::Workflows => (s, Seq::empty()),
        }
    }
}

/// Running the reviewed invocation with the pending payload.
pub open spec fn run_pending(s: AppView, model: Seq<char>, method: Seq<char>) -> Step {
    match s.pending_payload {
        Some(p) => (AppView { pending_payload: None, ..s }, seq![EffectView::Run(model, method, p)]),
        None => (s, Seq::empty()),
    }
}

/// Executing the reviewed invocation: a destructive method's target is
/// fetched again first.
pub open spec fn execute_pending(s: AppView) -> Step {
    match (selected_model_of(s), s.form) {
        (Some(m), Some(f)) => if is_destructive(f.method.name) {
            (s, seq![EffectView::Recheck(m.name, f.method.name, m.id)])
        } else {
            run_pending(s, m.name, f.method.name)
        },
        _ => (s, Seq::empty()),
    }
}

/// The destructive target fetched again: run only if it is the model that
/// was reviewed.
pub open spec fn rechecked(
    s: AppView,
    model: Seq<char>,
    method: Seq<char>,
    id: Seq<char>,
    r: Result<DetailsView, Seq<char>>,
) -> Step {
    match r {
        Ok(c) => if c.id == id && c.name == model {
            run_pending(s, model, method)
        } else {
            (failed(s, "The model changed after review; refresh and review again"@), Seq::empty())
        },
        Err(e) => (failed(s, "Could not re-check the destructive target: "@ + e), Seq::empty()),
    }
}

/// The run started (or not).
pub open spec fn run_started(s: AppView, model: Seq<char>, method: Seq<char>, r: Result<(), Seq<char>>) -> AppView {
    match r {
        Ok(_) => AppView {
            run_logs: Seq::empty(),
            run_active: true,
            running_model: Some(model),
            run_log_model: Some(model),
            run_log_method: Some(method),
            run_log_visible: true,
            form: None,
            mode: ModeState::Normal,
            status: "Running "@ + model + "."@ + method + "…"@,
            ..s
        },
        Err(e) => failed(s, e),
    }
}

/// The form's payload read and built: on success validated by `swamp`,
/// else the error reported. Nothing happens without a form, with a schema
/// or reading whose objects are not ordered by key, or where a field's
/// path has no place in the payload.
pub open spec fn review_parsed(s: AppView, parsed: Seq<Result<Json, Seq<char>>>) -> Step {
    match s.form {
        None => (s, Seq::empty()),
        Some(f) => if !wf(f.method.arguments) || !(forall|i: int| 0 <= i < parsed.len() ==> (#[trigger] parsed[i] matches Ok(j) ==> wf(j)))
            || parsed.len() != match f.mode {
            ModeView::RawJson(_) => 1,
            ModeView::Fields(fs) => fs.len(),
        } {
            (s, Seq::empty())
        } else {
            match payload_outcome(f.mode, f.method.arguments, parsed) {
                None => (s, Seq::empty()),
                Some(Ok(p)) => match selected_model_of(s) {
                    Some(m) => (
                        AppView { status: "Validating method…"@, ..s },
                        seq![EffectView::Validate(m.name, f.method.name, p)],
                    ),
                    None => (s, Seq::empty()),
                },
                Some(Err(m)) => (failed(s, "invalid method input: "@ + m), Seq::empty()),
            }
        },
    }
}

/// `swamp` validated the method (or not).
pub open spec fn validated(s: AppView, payload: Json, r: Result<(), Seq<char>>) -> AppView {
    match r {
        Ok(_) => AppView {
            pending_payload: Some(payload),
            status: "Review the method invocation"@,
            mode: ModeState::Review,
            ..s
        },
        Err(e) => failed(s, e),
    }
}

} // verus!

verus! {

/// The next focus for Tab: models, content, outputs (on the overview).
pub open spec fn next_focus(s: AppView) -> Focus {
    match s.focus {
        Focus::Models => Focus::Content,
        Focus::Content => if s.tab == Tab::Overview {
            Focus::Outputs
        } else {
            Focus::Models
        },
        Focus::Outputs => Focus::Models,
    }
}

/// Whether the run log shown belongs to the selected model and method.
pub open spec fn run_log_matches(s: AppView) -> bool {
    s.run_log_model == match selected_model_of(s) {
        Some(m) => Some(m.name),
        None => None::<Seq<char>>,
    } && s.run_log_method == match selected_method_of(s) {
        Some(m) => Some(m.name),
        None => None::<Seq<char>>,
    }
}

/// The caches emptied.
pub open spec fn caches_cleared(s: AppView) -> AppView {
    AppView {
        model_cache: Map::empty(),
        type_cache: Map::empty(),
        data_cache: Map::empty(),
        workflow_cache: Map::empty(),
        ..s
    }
}

/// The version under the cursor, as a mark.
pub open spec fn cursor_mark(s: AppView) -> Option<usize> {
    if s.version_cursor < s.versions.len() {
        Some(s.version_cursor)
    } else {
        None
    }
}

/// The normal-mode keys that may start outside work.
pub open spec fn starts_work(code: KeyCode) -> bool {
    code == KeyCode::Char('1') || code == KeyCode::Char('2') || code == KeyCode::Char('3') || code == KeyCode::Char(
        '4',
    ) || code == KeyCode::Char('r') || code == KeyCode::Up || code == KeyCode::Char('k') || code == KeyCode::Down || code == KeyCode::Char('j')
        || code == KeyCode::Enter || code == KeyCode::Char('c') || code == KeyCode::Char('b')
}

/// A normal-mode key that only changes the state.
pub open spec fn normal_state_key(s: AppView, code: KeyCode) -> AppView {
    let overview_outputs = s.tab == Tab::Overview && s.focus == Focus::Outputs;
    match code {
        KeyCode::Char('q') => AppView { should_quit: true, ..s },
        KeyCode::Esc => if s.run_log_visible && run_log_matches(s) {
            AppView { run_log_visible: false, ..s }
        } else {
            s
        },
        KeyCode::Char('?') => AppView { mode: ModeState::Help, ..s },
        KeyCode::Char('/') => if s.focus == Focus::Models {
            AppView { search: Seq::empty(), mode: ModeState::Search, ..s }
        } else {
            s
        },
        KeyCode::Tab | KeyCode::BackTab => AppView { focus: next_focus(s), ..s },
        KeyCode::Char(' ') => if overview_outputs {
            toggle_output(s)
        } else {
            s
        },
        KeyCode::Char('[') => if overview_outputs {
            move_output(s, false)
        } else if s.tab == Tab::Data {
            move_version(s, false)
        } else {
            s
        },
        KeyCode::Char(']') => if overview_outputs {
            move_output(s, true)
        } else if s.tab == Tab::Data {
            move_version(s, true)
        } else {
            s
        },
        KeyCode::Char('a') => if s.tab == Tab::Data {
            AppView { compare_a: cursor_mark(s), ..s }
        } else {
            s
        },
        _ => s,
    }
}

/// A normal-mode key that may start outside work: `1` opens the overview,
/// `2` the overview's methods (the content focus), `3` the data tab, `4`
/// the workflows tab; `r` reloads; arrows and `j`/`k` move; Enter opens;
/// `c` cancels the run; `b` marks the second version to compare.
pub open spec fn normal_work_key(s: AppView, code: KeyCode) -> Step {
    match code {
        KeyCode::Char('1') => activate_tab(s, Tab::Overview),
        KeyCode::Char('2') => {
            let (s1, e) = activate_tab(s, Tab::Overview);
            (AppView { focus: Focus::Content, ..s1 }, e)
        },
        KeyCode::Char('3') => activate_tab(s, Tab::Data),
        KeyCode::Char('4') => activate_tab(s, Tab::Workflows),
        KeyCode::Char('r') => if s.focus == Focus::Models {
            begin_load(caches_cleared(s))
        } else {
            refresh_current(s)
        },
        KeyCode::Up | KeyCode::Char('k') => move_selection(s, false),
        KeyCode::Down | KeyCode::Char('j') => move_selection(s, true),
        KeyCode::Enter => open_selected(s),
        KeyCode::Char('c') => if s.run_active {
            cancel_run(s)
        } else {
            (s, Seq::empty())
        },
        KeyCode::Char('b') => if s.tab == Tab::Data {
            compare_versions(AppView { compare_b: cursor_mark(s), ..s })
        } else {
            (s, Seq::empty())
        },
        _ => (s, Seq::empty()),
    }
}

/// A key in normal mode: Control-C cancels the run; the number keys open
/// the overview (`1`), its methods (`2`), the data (`3`) or the workflows
/// (`4`); other keys move, open, reload, mark, or quit.
pub open spec fn handle_normal(s: AppView, key: Key) -> Step {
    if key.ctrl && key.code == KeyCode::Char('c') {
        cancel_run(s)
    } else if starts_work(key.code) {
        normal_work_key(s, key.code)
    } else {
        (normal_state_key(s, key.code), Seq::empty())
    }
}

/// The text without its last character (`String::pop`).
pub open spec fn popped(t: Seq<char>) -> Seq<char> {
    if t.len() > 0 {
        t.drop_last()
    } else {
        t
    }
}

/// A key while typing the search: Esc clears it, Enter selects the first
/// match, other keys edit it; the lists are filtered as it changes.
pub open spec fn handle_search(s: AppView, key: Key) -> Step {
    match key.code {
        KeyCode::Esc => (AppView { mode: ModeState::Normal, ..filtered(AppView { search: Seq::empty(), ..s }) }, Seq::empty()),
        KeyCode::Enter => {
            let s1 = AppView { mode: ModeState::Normal, ..s };
            if s.tab == Tab::Workflows {
                workflow_selection_changed(AppView { workflow_index: 0, ..s1 })
            } else {
                selection_changed(AppView { model_index: 0, ..s1 })
            }
        },
        KeyCode::Backspace => (filtered(AppView { search: popped(s.search), ..s }), Seq::empty()),
        KeyCode::Char(c) => (filtered(AppView { search: s.search.push(c), ..s }), Seq::empty()),
        _ => (s, Seq::empty()),
    }
}

/// The form with one field's value replaced.
pub open spec fn with_field_value(f: FormState, fields: Seq<FieldView>, value: Seq<char>) -> FormState {
    FormState {
        mode: ModeView::Fields(
            fields.update(f.selected_field as int, FieldView { value: value, ..fields[f.selected_field as int] }),
        ),
        ..f
    }
}

/// A key acting on an open method form other than Enter (which
/// `handle_form` takes): arrows move between fields; Left, Right and Space
/// cycle a Boolean or enumerated field; other keys edit the text.
pub open spec fn form_key(f: FormState, key: Key) -> (FormState, Seq<EffectView>) {
    let none = Seq::<EffectView>::empty();
    match f.mode {
        ModeView::RawJson(text) => match key.code {
            KeyCode::Backspace => (FormState { mode: ModeView::RawJson(popped(text)), ..f }, none),
            KeyCode::Char(c) => (FormState { mode: ModeView::RawJson(text.push(c)), ..f }, none),
            _ => (f, none),
        },
        ModeView::Fields(fields) => if fields.len() == 0 {
            (f, none)
        } else {
            let i = f.selected_field as int;
            let cyclable = fields[i].kind is Boolean || fields[i].kind is Enum;
            let cycle_key = key.code == KeyCode::Left || key.code == KeyCode::Right || key.code == KeyCode::Char(' ');
            if cycle_key && cyclable {
                (with_field_value(f, fields, cycled_view(fields[i].kind, fields[i].value)), none)
            } else {
                match key.code {
                    KeyCode::Up => (FormState { selected_field: if i > 0 { (i - 1) as usize } else { 0 }, ..f }, none),
                    KeyCode::Down | KeyCode::Tab => (
                        FormState {
                            selected_field: if i + 1 > fields.len() - 1 {
                                (fields.len() - 1) as usize
                            } else {
                                (i + 1) as usize
                            },
                            ..f
                        },
                        none,
                    ),
                    KeyCode::Backspace => (with_field_value(f, fields, popped(fields[i].value)), none),
                    KeyCode::Char(c) => (with_field_value(f, fields, fields[i].value.push(c)), none),
                    _ => (f, none),
                }
            }
        },
    }
}

/// A key in the method form: Esc closes it; Enter reads its text as JSON
/// and asks for the payload's review (`review_parsed`); other keys act on
/// it.
pub open spec fn handle_form(s: AppView, key: Key) -> Step {
    if key.code == KeyCode::Esc {
        (AppView { form: None, mode: ModeState::Normal, ..s }, Seq::empty())
    } else {
        match s.form {
            None => (AppView { mode: ModeState::Normal, ..s }, Seq::empty()),
            Some(f) => if key.code == KeyCode::Enter {
                review_parsed(s, form_readings(f.mode))
            } else {
                let (f2, e) = form_key(f, key);
                (AppView { form: Some(f2), ..s }, e)
            },
        }
    }
}

/// The field selection of a form lies within its fields.
pub open spec fn form_ok(f: MethodForm) -> bool {
    f.mode matches FormMode::Fields(fs) ==> (fs@.len() > 0 ==> f.selected_field < fs@.len())
}

/// A key while reviewing: back to the form, or run (a destructive method
/// asks for the model's name first).
pub open spec fn handle_review(s: AppView, key: Key) -> Step {
    match key.code {
        KeyCode::Esc | KeyCode::Char('n') => (AppView { mode: ModeState::MethodForm, ..s }, Seq::empty()),
        KeyCode::Char('y') | KeyCode::Enter => if s.form matches Some(f) && is_destructive(f.method.name) {
            (AppView { mode: ModeState::DestructiveConfirm(Seq::empty()), ..s }, Seq::empty())
        } else {
            execute_pending(s)
        },
        _ => (s, Seq::empty()),
    }
}

/// A key while typing the model's name to confirm a destructive method:
/// Enter runs only on an exact match.
pub open spec fn handle_destructive_confirm(s: AppView, key: Key, text: Seq<char>) -> Step {
    match key.code {
        KeyCode::Esc => (AppView { mode: ModeState::Review, ..s }, Seq::empty()),
        KeyCode::Backspace => (AppView { mode: ModeState::DestructiveConfirm(popped(text)), ..s }, Seq::empty()),
        KeyCode::Enter => if model_selected(s, text) {
            execute_pending(s)
        } else {
            (
                AppView {
                    error: Some("The confirmation must exactly match the model name"@),
                    mode: ModeState::DestructiveConfirm(text),
                    ..s
                },
                Seq::empty(),
            )
        },
        KeyCode::Char(c) => (AppView { mode: ModeState::DestructiveConfirm(text.push(c)), ..s }, Seq::empty()),
        _ => (AppView { mode: ModeState::DestructiveConfirm(text), ..s }, Seq::empty()),
    }
}

/// A key while confirming a large load.
pub open spec fn handle_large_confirm(s: AppView, key: Key, action: LargeAction) -> Step {
    match key.code {
        KeyCode::Char('y') | KeyCode::Enter => perform_large_action(AppView { mode: ModeState::Normal, ..s }, action),
        KeyCode::Esc | KeyCode::Char('n') => (AppView { mode: ModeState::Normal, ..s }, Seq::empty()),
        _ => (s, Seq::empty()),
    }
}

/// A key press: the last error cleared, then handled by the input mode.
pub open spec fn handle_key(s: AppView, key: Key) -> Step {
    let s0 = AppView { error: None, ..s };
    match s0.mode {
        ModeState::Normal => handle_normal(s0, key),
        ModeState::Search => handle_search(s0, key),
        ModeState::MethodForm => handle_form(s0, key),
        ModeState::Review => handle_review(s0, key),
        ModeState::DestructiveConfirm(text) => handle_destructive_confirm(s0, key, text),
        ModeState::LargeConfirm(action) => handle_large_confirm(s0, key, action),
        ModeState::Help => if key.code == KeyCode::Esc || key.code == KeyCode::Char('?') || key.code == KeyCode::Char('q') {
            (AppView { mode: ModeState::Normal, ..s0 }, Seq::empty())
        } else {
            (s0, Seq::empty())
        },
    }
}

} // verus!
