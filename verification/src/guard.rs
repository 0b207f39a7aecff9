//! What a key press can start: a method runs only after review (and, for a
//! destructive-looking method, after the model's name was typed and the
//! target checked again); content past the preview limit is fetched only
//! after confirmation.
use vstd::prelude::*;
use crate::app::Tab;
use crate::schema::is_destructive;
use crate::startup::lemma_preload_then_select;
use crate::state::{
    abort_all, abort_data, abort_model, abort_preload, abort_startup, abort_type, abort_workflow, activate_tab, begin_load,
    cached, open_data, open_overview, open_workflows, refresh_current, schedule_data, schedule_model, schedule_type,
    schedule_workflow, selected_artifact_of, selected_model_of, selected_workflow_of, selection_changed, selection_fetch,
    selection_reset, show_cached, then, workflow_selection_changed, AppView, EffectView, Step, move_selection,
    open_selected, cancel_run, compare_versions, request_latest, load_cursor_version, load_latest, load_version,
    load_diff, perform_large_action, handle_normal, normal_work_key, handle_search, handle_form, form_key, handle_review,
    handle_destructive_confirm, handle_large_confirm, handle_key, execute_pending, run_pending, model_selected,
    caches_cleared, cursor_mark, starts_work, Key, KeyCode, ModeState, rechecked, validated, start_preloading,
    startup_done, startup_follow, startup_lists, run_events, review_parsed, RunEventView,
};
use crate::swamp::model::SummaryView;
use crate::swamp::data::ArtifactView;
use crate::swamp::workflow::WorkflowSummaryView;
use crate::swamp::model::DetailsView;
use crate::json::Json;

verus! {

/// Work that needs no confirmation: neither a run nor a content fetch.
pub open spec fn routine(e: EffectView) -> bool {
    !(e is Run) && !(e is Recheck) && !(e is FetchLatest) && !(e is FetchVersion) && !(e is FetchDiff)
}

pub open spec fn all_routine(es: Seq<EffectView>) -> bool {
    forall|i: int| 0 <= i < es.len() ==> routine(#[trigger] es[i])
}

/// A content fetch that a key press may start outside the confirmation
/// dialog: of something within the preview limit.
pub open spec fn within_limit(s: AppView, e: EffectView) -> bool {
    match e {
        EffectView::FetchLatest(_, _) => selected_artifact_of(s) matches Some(a) && a.size <= s.preview_limit,
        EffectView::FetchVersion(_, _, v) => exists|i: int|
            0 <= i < s.versions.len() && (#[trigger] s.versions[i]).version == v && s.versions[i].size
                <= s.preview_limit,
        EffectView::FetchDiff(_, _, _, a, b) => (exists|i: int|
            0 <= i < s.versions.len() && (#[trigger] s.versions[i]).version == a && s.versions[i].size
                <= s.preview_limit) && (exists|j: int|
            0 <= j < s.versions.len() && (#[trigger] s.versions[j]).version == b && s.versions[j].size
                <= s.preview_limit),
        _ => true,
    }
}

proof fn lemma_then_routine(a: Step, f: spec_fn(AppView) -> Step)
    requires
        all_routine(a.1),
        all_routine(f(a.0).1),
    ensures
        all_routine(then(a, f).1),
{
    let (s2, e2) = f(a.0);
    assert forall|i: int| 0 <= i < (a.1 + e2).len() implies routine(#[trigger] (a.1 + e2)[i]) by {
        if i < a.1.len() {
            assert((a.1 + e2)[i] == a.1[i]);
        } else {
            assert((a.1 + e2)[i] == e2[i - a.1.len()]);
        }
    }
}

proof fn lemma_aborts_routine(s: AppView)
    ensures
        all_routine(abort_model(s).1),
        all_routine(abort_type(s).1),
        all_routine(abort_data(s).1),
        all_routine(abort_workflow(s).1),
        all_routine(abort_startup(s).1),
        all_routine(abort_preload(s).1),
{
}

proof fn lemma_schedules_routine(s: AppView, force: bool)
    ensures
        all_routine(schedule_model(s, force).1),
        all_routine(schedule_type(s, force).1),
        all_routine(schedule_data(s, force).1),
        all_routine(schedule_workflow(s, force).1),
{
    lemma_aborts_routine(s);
    let e = abort_model(s).1;
    assert forall|i: int| 0 <= i < e.len() implies routine(#[trigger] e[i]) by {}
}

proof fn lemma_abort_all_routine(s: AppView)
    ensures
        all_routine(abort_all(s).1),
        all_routine(begin_load(s).1),
{
    let f1 = |x: AppView| abort_model(x);
    let f2 = |x: AppView| abort_type(x);
    let f3 = |x: AppView| abort_data(x);
    let f4 = |x: AppView| abort_workflow(x);
    let f5 = |x: AppView| abort_preload(x);
    let a0 = abort_startup(s);
    lemma_aborts_routine(s);
    lemma_aborts_routine(a0.0);
    lemma_then_routine(a0, f1);
    let a1 = then(a0, f1);
    lemma_aborts_routine(a1.0);
    lemma_then_routine(a1, f2);
    let a2 = then(a1, f2);
    lemma_aborts_routine(a2.0);
    lemma_then_routine(a2, f3);
    let a3 = then(a2, f3);
    lemma_aborts_routine(a3.0);
    lemma_then_routine(a3, f4);
    let a4 = then(a3, f4);
    lemma_aborts_routine(a4.0);
    lemma_then_routine(a4, f5);
    let e = abort_all(s).1;
    assert(e == then(a4, f5).1);
    let b = begin_load(s).1;
    assert forall|i: int| 0 <= i < b.len() implies routine(#[trigger] b[i]) by {
        if i < e.len() {
            assert(b[i] == e[i]);
        }
    }
}

proof fn lemma_tabs_routine(s: AppView)
    ensures
        all_routine(refresh_current(s).1),
        all_routine(open_overview(s).1),
        all_routine(open_data(s).1),
        all_routine(open_workflows(s).1),
        forall|tab: Tab| all_routine(#[trigger] activate_tab(s, tab).1),
{
    lemma_schedules_routine(s, true);
    let ft = |x: AppView| schedule_type(x, true);
    lemma_schedules_routine(schedule_model(s, true).0, true);
    lemma_then_routine(schedule_model(s, true), ft);
    lemma_tabs_routine_inner(s);
    assert forall|tab: Tab| all_routine(#[trigger] activate_tab(s, tab).1) by {
        let s1 = AppView {
            tab: tab,
            focus: if tab != Tab::Overview && s.focus == crate::app::Focus::Outputs {
                crate::app::Focus::Content
            } else {
                s.focus
            },
            ..s
        };
        lemma_tabs_routine_inner(s1);
    }
}

proof fn lemma_tabs_routine_inner(s: AppView)
    ensures
        all_routine(open_overview(s).1),
        all_routine(open_data(s).1),
        all_routine(open_workflows(s).1),
{
    lemma_schedules_routine(s, false);
    lemma_aborts_routine(s);
    let g1 = |x: AppView| schedule_model(x, false);
    let g2 = |x: AppView| schedule_type(x, false);
    lemma_schedules_routine(abort_data(s).0, false);
    lemma_then_routine(abort_data(s), g1);
    let o1 = then(abort_data(s), g1);
    lemma_schedules_routine(o1.0, false);
    lemma_then_routine(o1, g2);
    let g3 = |x: AppView| schedule_data(x, false);
    lemma_schedules_routine(abort_type(s).0, false);
    lemma_then_routine(abort_type(s), g3);
    let h1 = |x: AppView| abort_type(x);
    let h2 = |x: AppView| abort_data(x);
    let h3 = |x: AppView| schedule_workflow(x, false);
    lemma_aborts_routine(abort_model(s).0);
    lemma_then_routine(abort_model(s), h1);
    let w1 = then(abort_model(s), h1);
    lemma_aborts_routine(w1.0);
    lemma_then_routine(w1, h2);
    let w2 = then(w1, h2);
    lemma_schedules_routine(w2.0, false);
    lemma_then_routine(w2, h3);
}

proof fn lemma_selection_routine(s: AppView)
    ensures
        all_routine(selection_fetch(s).1),
        all_routine(selection_changed(s).1),
        all_routine(workflow_selection_changed(s).1),
{
    lemma_selection_fetch_routine(s);
    let s1 = selection_reset(s);
    match selected_model_of(s1) {
        None => {},
        Some(m) => {
            lemma_selection_fetch_routine(show_cached(s1, m.name, m.model_type));
        },
    }
    let w1 = AppView { workflow_node_index: 0, ..s };
    match selected_workflow_of(w1) {
        None => {},
        Some(w) => {
            lemma_schedules_routine(AppView { workflow: cached(w1.workflow_cache, w.name), ..w1 }, false);
        },
    }
}

proof fn lemma_selection_fetch_routine(s: AppView)
    ensures
        all_routine(selection_fetch(s).1),
{
    lemma_schedules_routine(s, false);
    let x = schedule_model(s, false).0;
    lemma_aborts_routine(x);
    lemma_schedules_routine(abort_data(x).0, false);
    lemma_schedules_routine(abort_type(x).0, false);
    lemma_then_routine(abort_data(x), |y: AppView| schedule_type(y, false));
    lemma_then_routine(abort_type(x), |y: AppView| schedule_data(y, false));
    let f = |x: AppView|
        match x.tab {
            Tab::Overview => then(abort_data(x), |y: AppView| schedule_type(y, false)),
            Tab::Data => then(abort_type(x), |y: AppView| schedule_data(y, false)),
            Tab::Workflows => (x, Seq::empty()),
        };
    assert(all_routine(f(x).1));
    lemma_then_routine(schedule_model(s, false), f);
}

proof fn lemma_move_selection_routine(s: AppView, down: bool)
    ensures
        all_routine(move_selection(s, down).1),
{
    lemma_selection_routine(AppView { workflow_index: 0, ..s });
    let d = crate::state::dir(down);
    let iw = crate::app::moved_index(s.workflow_index as int, s.filtered_workflows.len() as int, d) as usize;
    let im = crate::app::moved_index(s.model_index as int, s.filtered_models.len() as int, d) as usize;
    lemma_selection_routine(AppView { workflow_index: iw, ..s });
    lemma_selection_routine(AppView { model_index: im, ..s });
}

/// The content fetches of the data tab's keys are within the limit.
proof fn lemma_data_fetches(s: AppView)
    ensures
        forall|i: int|
            0 <= i < request_latest(s).1.len() ==> {
                let e = #[trigger] request_latest(s).1[i];
                !(e is Run) && !(e is Recheck) && within_limit(s, e)
            },
        forall|i: int|
            0 <= i < load_cursor_version(s).1.len() ==> {
                let e = #[trigger] load_cursor_version(s).1[i];
                !(e is Run) && !(e is Recheck) && within_limit(s, e)
            },
        forall|i: int|
            0 <= i < compare_versions(s).1.len() ==> {
                let e = #[trigger] compare_versions(s).1[i];
                !(e is Run) && !(e is Recheck) && within_limit(s, e)
            },
{
    if s.version_cursor < s.versions.len() {
        let v = s.versions[s.version_cursor as int];
        assert(s.versions[s.version_cursor as int].version == v.version);
    }
    match (s.compare_a, s.compare_b) {
        (Some(ia), Some(ib)) => {
            if ia < s.versions.len() && ib < s.versions.len() {
                assert(s.versions[ia as int].version == s.versions[ia as int].version);
                assert(s.versions[ib as int].version == s.versions[ib as int].version);
            }
        },
        _ => {},
    }
}

/// The effects of a key in normal mode: routine, or a content fetch within
/// the limit.
proof fn lemma_normal_key(s: AppView, key: Key)
    ensures
        forall|i: int|
            0 <= i < handle_normal(s, key).1.len() ==> {
                let e = #[trigger] handle_normal(s, key).1[i];
                !(e is Run) && !(e is Recheck) && within_limit(s, e)
            },
{
    let r = handle_normal(s, key);
    if key.ctrl && key.code == KeyCode::Char('c') {
    } else if starts_work(key.code) {
        lemma_tabs_routine(s);
        lemma_abort_all_routine(caches_cleared(s));
        lemma_move_selection_routine(s, true);
        lemma_move_selection_routine(s, false);
        lemma_data_fetches(s);
        let sb = AppView { compare_b: cursor_mark(s), ..s };
        lemma_data_fetches(sb);
        assert forall|i: int| 0 <= i < r.1.len() implies {
            let e = #[trigger] r.1[i];
            !(e is Run) && !(e is Recheck) && within_limit(s, e)
        } by {
            let e = r.1[i];
            if key.code == KeyCode::Char('b') && s.tab == Tab::Data {
                assert(e == compare_versions(sb).1[i]);
                assert(within_limit(sb, e));
                assert(sb.versions == s.versions);
            } else if key.code == KeyCode::Enter {
                assert(within_limit(s, e));
            } else {
                assert(routine(e));
            }
        }
    }
}

/// Every run goes through review: a key press starts a method run only for
/// a method that does not look destructive, on the review screen or on the
/// confirmation screen once the model's name was typed exactly; it has a
/// destructive method's target checked again (the run follows that check)
/// only on the confirmation screen, once the model's name was typed
/// exactly; and it fetches content past the preview limit only on the
/// confirmation screen for large content.
pub proof fn lemma_key_guards(s: AppView, key: Key)
    ensures
        forall|i: int|
            0 <= i < handle_key(s, key).1.len() ==> {
                let e = #[trigger] handle_key(s, key).1[i];
                &&& (e is Run ==> (s.form matches Some(f) && !is_destructive(f.method.name)) && (s.mode is Review
                    || (s.mode matches ModeState::DestructiveConfirm(t) && model_selected(s, t))))
                &&& (e is Recheck ==> (s.form matches Some(f) && is_destructive(f.method.name)) && (
                s.mode matches ModeState::DestructiveConfirm(t) && model_selected(s, t)))
                &&& (s.mode is LargeConfirm || within_limit(s, e))
            },
{
    let s0 = AppView { error: None, ..s };
    let r = handle_key(s, key);
    assert(selected_artifact_of(s0) == selected_artifact_of(s));
    assert forall|t: Seq<char>| model_selected(s0, t) == model_selected(s, t) by {}
    match s0.mode {
        ModeState::Normal => {
            lemma_normal_key(s0, key);
            assert forall|i: int| 0 <= i < r.1.len() implies within_limit(s, #[trigger] r.1[i]) by {
                assert(within_limit(s0, r.1[i]));
            }
        },
        ModeState::Search => {
            lemma_selection_routine(AppView { model_index: 0, mode: ModeState::Normal, ..s0 });
            lemma_selection_routine(AppView { workflow_index: 0, mode: ModeState::Normal, ..s0 });
        },
        ModeState::MethodForm => {},
        ModeState::Review => {},
        ModeState::DestructiveConfirm(t) => {},
        ModeState::LargeConfirm(action) => {},
        ModeState::Help => {},
    }
}


/// After a destructive method's target was fetched again, the run starts
/// only when the fetched definition is the reviewed one (same id and
/// name), and with the reviewed payload; nothing else is started.
pub proof fn lemma_recheck_guard(
    s: AppView,
    model: Seq<char>,
    method: Seq<char>,
    id: Seq<char>,
    r: Result<DetailsView, Seq<char>>,
)
    ensures
        forall|i: int|
            0 <= i < rechecked(s, model, method, id, r).1.len() ==> {
                let e = #[trigger] rechecked(s, model, method, id, r).1[i];
                &&& e is Run
                &&& r matches Ok(c) && c.id == id && c.name == model
                &&& s.pending_payload matches Some(p) && e == EffectView::Run(model, method, p)
            },
{
}

/// What runs is what was validated and reviewed: once `swamp` accepted a
/// payload, confirming the review of a method that does not look
/// destructive runs exactly that payload, for the selected model and the
/// form's method, and nothing else.
pub proof fn lemma_runs_reviewed_payload(s: AppView, payload: Json, key: Key)
    requires
        key.code == KeyCode::Enter || key.code == KeyCode::Char('y'),
        s.form matches Some(f) && !is_destructive(f.method.name),
        selected_model_of(s) is Some,
    ensures
        handle_key(validated(s, payload, Ok(())), key).1 == seq![
            EffectView::Run(selected_model_of(s)->Some_0.name, s.form->Some_0.method.name, payload),
        ],
{
    let s1 = validated(s, payload, Ok(()));
    let s0 = AppView { error: None, ..s1 };
    assert(selected_model_of(s0) == selected_model_of(s));
}


proof fn lemma_startup_routine(s: AppView)
    ensures
        all_routine(start_preloading(s).1),
        all_routine(startup_follow(s).1),
{
    lemma_aborts_routine(s);
    lemma_preload_then_select(s);
    let p = start_preloading(s);
    assert forall|i: int| 0 <= i < p.1.len() implies routine(#[trigger] p.1[i]) by {
        if i < abort_preload(s).1.len() {
            assert(p.1[i] == abort_preload(s).1[i]);
        }
    }
    let f1 = |x: AppView| selection_changed(x);
    lemma_selection_routine(p.0);
    lemma_then_routine(p, f1);
    let q = then(p, f1);
    let f2 = |x: AppView|
        if x.tab == Tab::Workflows {
            workflow_selection_changed(x)
        } else {
            (x, Seq::empty())
        };
    lemma_selection_routine(q.0);
    lemma_then_routine(q, f2);
}

/// No reply to outside work starts a run, except the destructive target's
/// second check (`lemma_recheck_guard`): the repository's listing, a
/// method's output, and the form read for review start neither a run nor a
/// check, and fetch no content.
pub proof fn lemma_replies_start_no_run(
    s: AppView,
    version: Result<Seq<char>, Seq<char>>,
    models: Result<Seq<SummaryView>, Seq<char>>,
    all_data: Result<Seq<ArtifactView>, Seq<char>>,
    workflows: Result<Seq<WorkflowSummaryView>, Seq<char>>,
    evs: Seq<RunEventView>,
    parsed: Seq<Result<Json, Seq<char>>>,
)
    ensures
        all_routine(startup_done(s, version, models, all_data, workflows).1),
        all_routine(run_events(s, evs).1),
        all_routine(review_parsed(s, parsed).1),
{
    lemma_startup_routine(startup_lists(s, version, models, all_data, workflows));
    let (logs, done) = crate::state::absorb_run(s.run_logs, None, evs);
    let s1 = AppView { run_logs: logs, ..s };
    let s2 = match done {
        Some((ok, message)) => AppView {
            status: message,
            run_active: false,
            running_model: None,
            refresh_after_run: ok,
            ..s1
        },
        None => s1,
    };
    lemma_schedules_routine(AppView { refresh_after_run: false, ..s2 }, true);
}


proof fn lemma_tab_kept(s: AppView, force: bool)
    ensures
        abort_model(s).0.tab == s.tab,
        abort_type(s).0.tab == s.tab,
        abort_data(s).0.tab == s.tab,
        schedule_model(s, force).0.tab == s.tab,
        schedule_type(s, force).0.tab == s.tab,
        schedule_data(s, force).0.tab == s.tab,
        schedule_workflow(s, force).0.tab == s.tab,
{
}

proof fn lemma_open_keeps_tab(s: AppView)
    ensures
        open_overview(s).0.tab == s.tab,
        open_data(s).0.tab == s.tab,
        open_workflows(s).0.tab == s.tab,
{
    lemma_tab_kept(s, false);
    let o1 = then(abort_data(s), |x: AppView| schedule_model(x, false));
    lemma_tab_kept(abort_data(s).0, false);
    lemma_tab_kept(o1.0, false);
    lemma_tab_kept(abort_type(s).0, false);
    let w1 = then(abort_model(s), |x: AppView| abort_type(x));
    lemma_tab_kept(abort_model(s).0, false);
    lemma_tab_kept(w1.0, false);
    let w2 = then(w1, |x: AppView| abort_data(x));
    lemma_tab_kept(w2.0, false);
}

/// The number keys in normal mode: `1` opens the overview, `2` the
/// overview with its methods in focus, `3` the data tab, `4` the workflows
/// tab.
pub proof fn lemma_number_keys(s: AppView)
    ensures
        handle_normal(s, Key { code: KeyCode::Char('1'), ctrl: false }).0.tab == Tab::Overview,
        handle_normal(s, Key { code: KeyCode::Char('2'), ctrl: false }).0.tab == Tab::Overview,
        handle_normal(s, Key { code: KeyCode::Char('2'), ctrl: false }).0.focus == crate::app::Focus::Content,
        handle_normal(s, Key { code: KeyCode::Char('3'), ctrl: false }).0.tab == Tab::Data,
        handle_normal(s, Key { code: KeyCode::Char('4'), ctrl: false }).0.tab == Tab::Workflows,
{
    assert forall|tab: Tab| #[trigger] activate_tab(s, tab).0.tab == tab by {
        let s1 = AppView {
            tab: tab,
            focus: if tab != Tab::Overview && s.focus == crate::app::Focus::Outputs {
                crate::app::Focus::Content
            } else {
                s.focus
            },
            ..s
        };
        lemma_open_keeps_tab(s1);
    }
}

} // verus!
