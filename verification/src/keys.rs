//! The decisions on keys, and on the replies to the work they start.
use vstd::prelude::*;
use vstd::string::*;
use crate::app::{LargeAction, Tab, Focus, InputMode};
use crate::diff::{json_diff, text_diff};
use crate::error::{error_text, Error};
use crate::json::{is_well_formed, wf, JsonValue};
use crate::json_text::u64_text;
use crate::schema::{form_for, is_destructive_method, parsed_views, FormMode};
use crate::state::{
    cancel_done, cancel_run, compare_versions, diff_loaded, effect_views, framed, latest_loaded, load_cursor_version,
    load_diff, load_latest, load_version, perform_large_action, request_latest, result_view, version_label,
    version_loaded, App, Effect, EffectView, MethodForm, open_selected, run_pending, execute_pending, rechecked,
    run_started, validated, review_parsed, caches_cleared, handle_destructive_confirm, handle_form, handle_key,
    handle_large_confirm, handle_normal, handle_review, handle_search, popped, Key, KeyCode, form_key, form_ok, normal_state_key, normal_work_key, begin_load,
};
use crate::app::cycled_view;
use crate::schema::FieldView;
use crate::text::{chars_of, push_char, string_from_chars};
use crate::swamp::data::{version_views, DataContent, DataVersion};
use crate::swamp::model::ModelDetails;
use crate::text::str_eq;

verus! {

fn version_label_exec(v: u64) -> (r: String)
    ensures
        r@ == version_label(v),
{
    let mut s = String::from_str("v");
    s.append(u64_text(v).as_str());
    s
}

impl App {
    /// Asks to cancel the running method (`cancel_run`).
    pub fn cancel_run(&self, effects: &mut Vec<Effect>)
        ensures
            ({
                let (s, e) = cancel_run(self@);
                s == self@ && effect_views(final(effects)@) == effect_views(old(effects)@) + e
            }),
    {
        match &self.running_model {
            Some(m) => {
                let ghost before = effects@;
                effects.push(Effect::CancelRun { model: m.clone() });
                proof {
                    assert(effect_views(effects@) =~= effect_views(before).push(effects@.last()@));
                }
            },
            None => {
                proof {
                    assert(effect_views(effects@) =~= effect_views(old(effects)@) + Seq::<EffectView>::empty());
                }
            },
        }
    }

    /// The reply to a cancellation (`cancel_done`).
    pub fn cancel_done(&mut self, result: Result<(), String>)
        requires
            old(self).inv(),
        ensures
            final(self).inv(),
            final(self)@ == cancel_done(
                old(self)@,
                match result {
                    Ok(_) => Ok(()),
                    Err(e) => Err(e@),
                },
            ),
    {
        match result {
            Ok(()) => self.status = String::from_str("Cancellation requested"),
            Err(e) => self.fail(e),
        }
    }

    fn push_effect(effects: &mut Vec<Effect>, e: Effect)
        ensures
            effect_views(final(effects)@) == effect_views(old(effects)@).push(e@),
    {
        let ghost before = effects@;
        let ghost ev = e@;
        effects.push(e);
        proof {
            assert(effect_views(effects@) =~= effect_views(before).push(ev));
        }
    }

    /// Fetches two versions to compare (`load_diff`).
    pub fn load_diff(&self, a: u64, b: u64, effects: &mut Vec<Effect>)
        ensures
            ({
                let (s, e) = load_diff(self@, a, b);
                s == self@ && effect_views(final(effects)@) == effect_views(old(effects)@) + e
            }),
    {
        proof {
            assert(effect_views(effects@) =~= effect_views(old(effects)@) + Seq::<EffectView>::empty());
        }
        let model = match self.selected_model() {
            Some(m) => m.name.clone(),
            None => return ,
        };
        match self.selected_artifact() {
            Some(art) => {
                let e = Effect::FetchDiff {
                    model,
                    name: art.name.clone(),
                    content_type: art.content_type.clone(),
                    a,
                    b,
                };
                Self::push_effect(effects, e);
                proof {
                    assert(effect_views(effects@) =~= effect_views(old(effects)@) + load_diff(self@, a, b).1);
                }
            },
            None => {},
        }
    }

    /// Compares the marked versions (`compare_versions`).
    pub fn compare_versions(&mut self, effects: &mut Vec<Effect>)
        requires
            old(self).inv(),
        ensures
            final(self).inv(),
            ({
                let (s, e) = compare_versions(old(self)@);
                final(self)@ == s && effect_views(final(effects)@) == effect_views(old(effects)@) + e
            }),
    {
        proof {
            assert(effect_views(effects@) =~= effect_views(old(effects)@) + Seq::<EffectView>::empty());
        }
        let (ia, ib) = match (self.compare_a, self.compare_b) {
            (Some(a), Some(b)) => (a, b),
            _ => return ,
        };
        if !(ia < self.versions.len() && ib < self.versions.len()) {
            return ;
        }
        let va = self.versions[ia].version;
        let vb = self.versions[ib].version;
        if self.versions[ia].size > self.preview_limit || self.versions[ib].size > self.preview_limit {
            self.mode = InputMode::LargeConfirm(LargeAction::Diff(va, vb));
        } else {
            self.load_diff(va, vb, effects);
        }
    }

    /// Two versions arrived to compare (`diff_loaded`).
    pub fn diff_loaded(
        &mut self,
        content_type: &str,
        a_version: u64,
        b_version: u64,
        a: Result<DataContent, String>,
        b: Result<DataContent, String>,
    )
        requires
            old(self).inv(),
            a matches Ok(c) ==> wf(c.content@),
            b matches Ok(c) ==> wf(c.content@),
        ensures
            final(self).inv(),
            final(self)@ == diff_loaded(old(self)@, content_type@, a_version, b_version, result_view(a), result_view(b)),
    {
        match (a, b) {
            (Ok(a), Ok(b)) => {
                let diff = if str_eq(content_type, "application/json") || (!a.content.is_string()
                    && !b.content.is_string()) {
                    Some(json_diff(&a.content, &b.content))
                } else {
                    match (a.content.as_str(), b.content.as_str()) {
                        (Some(left), Some(right)) => {
                            let la = version_label_exec(a_version);
                            let lb = version_label_exec(b_version);
                            Some(text_diff(la.as_str(), left.as_str(), lb.as_str(), right.as_str()))
                        },
                        _ => None,
                    }
                };
                self.status = if diff.is_some() {
                    let mut m = String::from_str("Comparing ");
                    m.append(version_label_exec(a_version).as_str());
                    m.append(" with ");
                    m.append(version_label_exec(b_version).as_str());
                    m
                } else {
                    String::from_str("Binary content cannot be compared")
                };
                self.diff = diff;
            },
            (Err(e), _) => self.fail(e),
            (_, Err(e)) => self.fail(e),
        }
    }

    /// Fetches the latest content and versions (`load_latest`).
    pub fn load_latest(&self, effects: &mut Vec<Effect>)
        ensures
            ({
                let (s, e) = load_latest(self@);
                s == self@ && effect_views(final(effects)@) == effect_views(old(effects)@) + e
            }),
    {
        proof {
            assert(effect_views(effects@) =~= effect_views(old(effects)@) + Seq::<EffectView>::empty());
        }
        let model = match self.selected_model() {
            Some(m) => m.name.clone(),
            None => return ,
        };
        match self.selected_artifact() {
            Some(art) => {
                Self::push_effect(effects, Effect::FetchLatest { model, name: art.name.clone() });
                proof {
                    assert(effect_views(effects@) =~= effect_views(old(effects)@) + load_latest(self@).1);
                }
            },
            None => {},
        }
    }

    /// Loads the latest content, asking first past the limit (`request_latest`).
    pub fn request_latest(&mut self, effects: &mut Vec<Effect>)
        requires
            old(self).inv(),
        ensures
            final(self).inv(),
            ({
                let (s, e) = request_latest(old(self)@);
                final(self)@ == s && effect_views(final(effects)@) == effect_views(old(effects)@) + e
            }),
    {
        let large = match self.selected_artifact() {
            Some(art) => art.size > self.preview_limit,
            None => {
                proof {
                    assert(effect_views(effects@) =~= effect_views(old(effects)@) + Seq::<EffectView>::empty());
                }
                return ;
            },
        };
        if large {
            self.mode = InputMode::LargeConfirm(LargeAction::Latest);
            proof {
                assert(effect_views(effects@) =~= effect_views(old(effects)@) + Seq::<EffectView>::empty());
            }
        } else {
            self.load_latest(effects);
        }
    }

    /// The latest content and versions arrived (`latest_loaded`).
    pub fn latest_loaded(
        &mut self,
        name: &str,
        content: Result<DataContent, String>,
        versions: Result<Vec<DataVersion>, String>,
    )
        requires
            old(self).inv(),
        ensures
            final(self).inv(),
            final(self)@ == latest_loaded(
                old(self)@,
                name@,
                result_view(content),
                match versions {
                    Ok(v) => Ok(version_views(v@)),
                    Err(e) => Err(e@),
                },
            ),
    {
        match content {
            Ok(c) => self.content = Some(c),
            Err(e) => self.fail(e),
        }
        match versions {
            Ok(v) => self.versions = v,
            Err(e) => self.fail(e),
        }
        self.version_cursor = 0;
        self.diff = None;
        if self.error.is_none() {
            self.status = framed("Loaded ", name, "");
            proof {
                reveal_strlit("");
                assert("Loaded "@ + name@ + ""@ =~= "Loaded "@ + name@);
            }
        }
    }

    /// Fetches one version (`load_version`).
    pub fn load_version(&self, version: u64, effects: &mut Vec<Effect>)
        ensures
            ({
                let (s, e) = load_version(self@, version);
                s == self@ && effect_views(final(effects)@) == effect_views(old(effects)@) + e
            }),
    {
        proof {
            assert(effect_views(effects@) =~= effect_views(old(effects)@) + Seq::<EffectView>::empty());
        }
        let model = match self.selected_model() {
            Some(m) => m.name.clone(),
            None => return ,
        };
        match self.selected_artifact() {
            Some(art) => {
                Self::push_effect(effects, Effect::FetchVersion { model, name: art.name.clone(), version });
                proof {
                    assert(effect_views(effects@) =~= effect_views(old(effects)@) + load_version(self@, version).1);
                }
            },
            None => {},
        }
    }

    /// Loads the version under the cursor (`load_cursor_version`).
    pub fn load_cursor_version(&mut self, effects: &mut Vec<Effect>)
        requires
            old(self).inv(),
        ensures
            final(self).inv(),
            ({
                let (s, e) = load_cursor_version(old(self)@);
                final(self)@ == s && effect_views(final(effects)@) == effect_views(old(effects)@) + e
            }),
    {
        if self.version_cursor >= self.versions.len() {
            proof {
                assert(effect_views(effects@) =~= effect_views(old(effects)@) + Seq::<EffectView>::empty());
            }
            return ;
        }
        let v = self.versions[self.version_cursor].version;
        if self.versions[self.version_cursor].size > self.preview_limit {
            self.mode = InputMode::LargeConfirm(LargeAction::Version(v));
            proof {
                assert(effect_views(effects@) =~= effect_views(old(effects)@) + Seq::<EffectView>::empty());
            }
        } else {
            self.load_version(v, effects);
        }
    }

    /// One version arrived (`version_loaded`).
    pub fn version_loaded(&mut self, name: &str, version: u64, result: Result<DataContent, String>)
        requires
            old(self).inv(),
        ensures
            final(self).inv(),
            final(self)@ == version_loaded(old(self)@, name@, version, result_view(result)),
    {
        match result {
            Ok(c) => {
                self.content = Some(c);
                self.diff = None;
                let mut m = String::from_str("Loaded ");
                m.append(name);
                m.append(" ");
                m.append(version_label_exec(version).as_str());
                self.status = m;
            },
            Err(e) => self.fail(e),
        }
    }

    /// Does what was confirmed past the limit (`perform_large_action`).
    pub fn perform_large_action(&self, action: LargeAction, effects: &mut Vec<Effect>)
        ensures
            ({
                let (s, e) = perform_large_action(self@, action);
                s == self@ && effect_views(final(effects)@) == effect_views(old(effects)@) + e
            }),
    {
        match action {
            LargeAction::Latest => self.load_latest(effects),
            LargeAction::Version(v) => self.load_version(v, effects),
            LargeAction::Diff(a, b) => self.load_diff(a, b, effects),
        }
    }
}

} // verus!

verus! {

impl App {
    /// Enter on the content (`open_selected`).
    #[verifier::rlimit(60)]
    #[verifier::spinoff_prover]
    pub fn open_selected(&mut self, effects: &mut Vec<Effect>)
        requires
            old(self).inv(),
        ensures
            final(self).inv(),
            ({
                let (s, e) = open_selected(old(self)@);
                final(self)@ == s && effect_views(final(effects)@) == effect_views(old(effects)@) + e
            }),
    {
        proof {
            assert(effect_views(effects@) =~= effect_views(old(effects)@) + Seq::<EffectView>::empty());
        }
        if self.focus == Focus::Models {
            self.focus = Focus::Content;
            return ;
        }
        match self.tab {
            Tab::Overview => {
                if self.focus == Focus::Outputs {
                    return ;
                }
                if self.run_active {
                    self.error = Some(String::from_str("Only one method can run at a time"));
                    return ;
                }
                let form = match self.selected_method() {
                    Some(m) => {
                        let mode = if is_well_formed(&m.arguments) {
                            form_for(&m.arguments)
                        } else {
                            FormMode::RawJson(String::from_str("{}"))
                        };
                        Some(MethodForm { method: m.copy(), mode, selected_field: 0 })
                    },
                    None => None,
                };
                match form {
                    Some(f) => {
                        self.form = Some(f);
                        self.mode = InputMode::MethodForm;
                    },
                    None => {},
                }
            },
            Tab::Data => {
                if self.content.is_some() && self.versions.len() > 0 {
                    self.load_cursor_version(effects);
                } else {
                    self.request_latest(effects);
                }
            },
            Tab::Workflows => {},
        }
    }

    /// Runs the reviewed invocation (`run_pending`).
    pub fn run_pending(&mut self, model: String, method: String, effects: &mut Vec<Effect>)
        requires
            old(self).inv(),
        ensures
            final(self).inv(),
            ({
                let (s, e) = run_pending(old(self)@, model@, method@);
                final(self)@ == s && effect_views(final(effects)@) == effect_views(old(effects)@) + e
            }),
    {
        match self.pending_payload.take() {
            Some(payload) => {
                Self::push_effect(effects, Effect::Run { model, method, payload });
                proof {
                    assert(effect_views(effects@) =~= effect_views(old(effects)@) + run_pending(old(self)@, model@, method@).1);
                }
            },
            None => {
                proof {
                    assert(effect_views(effects@) =~= effect_views(old(effects)@) + Seq::<EffectView>::empty());
                }
            },
        }
    }

    /// Executes the reviewed invocation (`execute_pending`).
    pub fn execute_pending(&mut self, effects: &mut Vec<Effect>)
        requires
            old(self).inv(),
        ensures
            final(self).inv(),
            ({
                let (s, e) = execute_pending(old(self)@);
                final(self)@ == s && effect_views(final(effects)@) == effect_views(old(effects)@) + e
            }),
    {
        let (model, id) = match self.selected_model() {
            Some(m) => (m.name.clone(), m.id.clone()),
            None => {
                proof {
                    assert(effect_views(effects@) =~= effect_views(old(effects)@) + Seq::<EffectView>::empty());
                }
                return ;
            },
        };
        let method = match &self.form {
            Some(f) => f.method.name.clone(),
            None => {
                proof {
                    assert(effect_views(effects@) =~= effect_views(old(effects)@) + Seq::<EffectView>::empty());
                }
                return ;
            },
        };
        if is_destructive_method(method.as_str()) {
            Self::push_effect(effects, Effect::Recheck { model, method, id });
            proof {
                assert(effect_views(effects@) =~= effect_views(old(effects)@) + execute_pending(old(self)@).1);
            }
        } else {
            self.run_pending(model, method, effects);
        }
    }

    /// The destructive target fetched again (`rechecked`).
    pub fn rechecked(
        &mut self,
        model: String,
        method: String,
        id: String,
        result: Result<ModelDetails, String>,
        effects: &mut Vec<Effect>,
    )
        requires
            old(self).inv(),
        ensures
            final(self).inv(),
            ({
                let (s, e) = rechecked(old(self)@, model@, method@, id@, result_view(result));
                final(self)@ == s && effect_views(final(effects)@) == effect_views(old(effects)@) + e
            }),
    {
        match result {
            Ok(current) => {
                if str_eq(current.id.as_str(), id.as_str()) && str_eq(current.name.as_str(), model.as_str()) {
                    self.run_pending(model, method, effects);
                } else {
                    self.fail(String::from_str("The model changed after review; refresh and review again"));
                    proof {
                        assert(effect_views(effects@) =~= effect_views(old(effects)@) + Seq::<EffectView>::empty());
                    }
                }
            },
            Err(e) => {
                let m = framed("Could not re-check the destructive target: ", e.as_str(), "");
                proof {
                    reveal_strlit("");
                    assert("Could not re-check the destructive target: "@ + e@ + ""@ =~= "Could not re-check the destructive target: "@ + e@);
                    assert(effect_views(effects@) =~= effect_views(old(effects)@) + Seq::<EffectView>::empty());
                }
                self.fail(m);
            },
        }
    }

    /// The run started, or not (`run_started`).
    pub fn run_started(&mut self, model: String, method: String, result: Result<(), String>)
        requires
            old(self).inv(),
        ensures
            final(self).inv(),
            final(self)@ == run_started(
                old(self)@,
                model@,
                method@,
                match result {
                    Ok(_) => Ok(()),
                    Err(e) => Err(e@),
                },
            ),
    {
        match result {
            Ok(()) => {
                self.run_logs = Vec::new();
                self.run_active = true;
                self.running_model = Some(model.clone());
                self.run_log_model = Some(model.clone());
                self.run_log_method = Some(method.clone());
                self.run_log_visible = true;
                self.form = None;
                self.mode = InputMode::Normal;
                let mut m = String::from_str("Running ");
                m.append(model.as_str());
                m.append(".");
                m.append(method.as_str());
                m.append("…");
                self.status = m;
                proof {
                    assert(crate::text::views(self.run_logs@) =~= Seq::<Seq<char>>::empty());
                }
            },
            Err(e) => self.fail(e),
        }
    }

    /// `swamp` validated the method, or not (`validated`).
    pub fn validated(&mut self, payload: JsonValue, result: Result<(), String>)
        requires
            old(self).inv(),
        ensures
            final(self).inv(),
            final(self)@ == validated(
                old(self)@,
                payload@,
                match result {
                    Ok(_) => Ok(()),
                    Err(e) => Err(e@),
                },
            ),
    {
        match result {
            Ok(()) => {
                self.pending_payload = Some(payload);
                self.status = String::from_str("Review the method invocation");
                self.mode = InputMode::Review;
            },
            Err(e) => self.fail(e),
        }
    }

    /// The form's text read as JSON (`review_parsed`): `parsed` holds, for
    /// raw input, the reading of the whole text; for fields, the reading of
    /// each field's text.
    #[verifier::rlimit(60)]
    #[verifier::spinoff_prover]
    fn review_parsed(&mut self, parsed: &Vec<Result<JsonValue, String>>, effects: &mut Vec<Effect>)
        requires
            old(self).inv(),
        ensures
            final(self).inv(),
            ({
                let (s, e) = review_parsed(old(self)@, parsed_views(parsed@));
                final(self)@ == s && effect_views(final(effects)@) == effect_views(old(effects)@) + e
            }),
    {
        proof {
            assert(effect_views(effects@) =~= effect_views(old(effects)@) + Seq::<EffectView>::empty());
        }
        let ghost pv = parsed_views(parsed@);
        let outcome = match &self.form {
            None => {
                return ;
            },
            Some(f) => {
                if !is_well_formed(&f.method.arguments) {
                    return ;
                }
                let mut i: usize = 0;
                while i < parsed.len()
                    invariant
                        i <= parsed.len(),
                        pv == parsed_views(parsed@),
                        self.inv(),
                        *self == *old(self),
                        effect_views(effects@) == effect_views(old(effects)@) + Seq::<EffectView>::empty(),
                        forall|j: int| 0 <= j < i ==> (#[trigger] parsed@[j] matches Ok(x) ==> wf(x@)),
                    decreases parsed.len() - i,
                {
                    match &parsed[i] {
                        Ok(x) => {
                            if !is_well_formed(x) {
                                proof {
                                    assert(pv[i as int] matches Ok(y) && !wf(y));
                                }
                                return ;
                            }
                        },
                        Err(_) => {},
                    }
                    i = i + 1;
                }
                proof {
                    assert forall|j: int| 0 <= j < pv.len() implies (#[trigger] pv[j] matches Ok(x) ==> wf(x)) by {
                        assert(parsed@[j] matches Ok(x) ==> wf(x@));
                    }
                }
                let expected = match &f.mode {
                    FormMode::RawJson(_) => 1,
                    FormMode::Fields(fs) => fs.len(),
                };
                if parsed.len() != expected {
                    return ;
                }
                let name = f.method.name.clone();
                (crate::schema::attempt_payload(&f.mode, &f.method.arguments, parsed), name)
            },
        };
        match outcome {
            (None, _) => {},
            (Some(Ok(payload)), method) => {
                let model = match self.selected_model() {
                    Some(m) => m.name.clone(),
                    None => return ,
                };
                self.status = String::from_str("Validating method…");
                Self::push_effect(effects, Effect::Validate { model, method, payload });
            },
            (Some(Err(e)), _) => {
                let m = e.message();
                proof {
                    reveal_strlit("invalid method input: ");
                }
                self.fail(m);
            },
        }
    }
}

} // verus!

verus! {

/// The text without its last character (`String::pop`).
fn popped_string(s: &String) -> (r: String)
    ensures
        r@ == popped(s@),
{
    let cs = chars_of(s.as_str());
    let mut out: Vec<char> = Vec::new();
    if cs.len() > 0 {
        let mut i: usize = 0;
        while i + 1 < cs.len()
            invariant
                i + 1 <= cs.len(),
                cs@ == s@,
                out@ == s@.take(i as int),
            decreases cs.len() - i,
        {
            out.push(cs[i]);
            proof {
                assert(out@ =~= s@.take(i as int + 1));
            }
            i = i + 1;
        }
        proof {
            assert(s@.take(i as int) =~= s@.drop_last());
        }
    } else {
        proof {
            assert(out@ =~= s@);
        }
    }
    string_from_chars(&out)
}

/// The text with a character added (`String::push`).
fn pushed_string(s: &String, c: char) -> (r: String)
    ensures
        r@ == s@.push(c),
{
    let mut t = s.clone();
    push_char(&mut t, c);
    t
}

impl App {
    fn normal_state_key(&mut self, code: KeyCode)
        requires
            old(self).inv(),
        ensures
            final(self).inv(),
            final(self)@ == normal_state_key(old(self)@, code),
    {
        let overview_outputs = self.tab == Tab::Overview && self.focus == Focus::Outputs;
        match code {
            KeyCode::Char('q') => self.should_quit = true,
            KeyCode::Esc => {
                if self.run_log_visible && self.run_log_matches_selection() {
                    self.run_log_visible = false;
                }
            },
            KeyCode::Char('?') => self.mode = InputMode::Help,
            KeyCode::Char('/') => {
                if self.focus == Focus::Models {
                    self.search = String::new();
                    self.mode = InputMode::Search;
                }
            },
            KeyCode::Tab | KeyCode::BackTab => {
                self.focus = match self.focus {
                    Focus::Models => Focus::Content,
                    Focus::Content => if self.tab == Tab::Overview {
                        Focus::Outputs
                    } else {
                        Focus::Models
                    },
                    Focus::Outputs => Focus::Models,
                };
            },
            KeyCode::Char(' ') => {
                if overview_outputs {
                    self.toggle_output();
                }
            },
            KeyCode::Char('[') => {
                if overview_outputs {
                    self.move_output(false);
                } else if self.tab == Tab::Data {
                    self.move_version(false);
                }
            },
            KeyCode::Char(']') => {
                if overview_outputs {
                    self.move_output(true);
                } else if self.tab == Tab::Data {
                    self.move_version(true);
                }
            },
            KeyCode::Char('a') => {
                if self.tab == Tab::Data {
                    self.compare_a = if self.version_cursor < self.versions.len() {
                        Some(self.version_cursor)
                    } else {
                        None
                    };
                }
            },
            _ => {},
        }
    }

    fn reload(&mut self, effects: &mut Vec<Effect>)
        requires
            old(self).inv(),
        ensures
            final(self).inv(),
            ({
                let (s, e) = begin_load(caches_cleared(old(self)@));
                final(self)@ == s && effect_views(final(effects)@) == effect_views(old(effects)@) + e
            }),
    {
        self.model_cache.clear();
        self.type_cache.clear();
        self.data_cache.clear();
        self.workflow_cache.clear();
        proof {
            assert(self@ == caches_cleared(old(self)@)) by {
                assert(self.model_cache.kept() =~= Map::empty());
                assert(self.type_cache.kept() =~= Map::empty());
                assert(self.data_cache.kept() =~= Map::empty());
                assert(self.workflow_cache.kept() =~= Map::empty());
            }
        }
        self.begin_load(effects);
    }

    #[verifier::rlimit(60)]
    #[verifier::spinoff_prover]
    fn normal_work_key(&mut self, code: KeyCode, effects: &mut Vec<Effect>)
        requires
            old(self).inv(),
        ensures
            final(self).inv(),
            ({
                let (s, e) = normal_work_key(old(self)@, code);
                final(self)@ == s && effect_views(final(effects)@) == effect_views(old(effects)@) + e
            }),
    {
        proof {
            assert(effect_views(effects@) =~= effect_views(old(effects)@) + Seq::<EffectView>::empty());
        }
        match code {
            KeyCode::Char('1') => self.activate_tab(Tab::Overview, effects),
            KeyCode::Char('2') => {
                self.activate_tab(Tab::Overview, effects);
                self.focus = Focus::Content;
            },
            KeyCode::Char('3') => self.activate_tab(Tab::Data, effects),
            KeyCode::Char('4') => self.activate_tab(Tab::Workflows, effects),
            KeyCode::Char('r') => {
                if self.focus == Focus::Models {
                    self.reload(effects);
                } else {
                    self.refresh_current(effects);
                }
            },
            KeyCode::Up | KeyCode::Char('k') => self.move_selection(false, effects),
            KeyCode::Down | KeyCode::Char('j') => self.move_selection(true, effects),
            KeyCode::Enter => self.open_selected(effects),
            KeyCode::Char('c') => {
                if self.run_active {
                    self.cancel_run(effects);
                }
            },
            KeyCode::Char('b') => {
                if self.tab == Tab::Data {
                    self.compare_b = if self.version_cursor < self.versions.len() {
                        Some(self.version_cursor)
                    } else {
                        None
                    };
                    self.compare_versions(effects);
                }
            },
            _ => {},
        }
    }

    /// A key in normal mode (`handle_normal`): `1` overview, `2` its
    /// methods, `3` data, `4` workflows.
    pub fn handle_normal(&mut self, key: Key, effects: &mut Vec<Effect>)
        requires
            old(self).inv(),
        ensures
            final(self).inv(),
            ({
                let (s, e) = handle_normal(old(self)@, key);
                final(self)@ == s && effect_views(final(effects)@) == effect_views(old(effects)@) + e
            }),
    {
        if key.ctrl && key.code == KeyCode::Char('c') {
            self.cancel_run(effects);
            return ;
        }
        let code = key.code;
        let work = code == KeyCode::Char('1') || code == KeyCode::Char('2') || code == KeyCode::Char('3') || code
            == KeyCode::Char('4') || code == KeyCode::Char('r') || code == KeyCode::Up || code == KeyCode::Char('k') || code == KeyCode::Down
            || code == KeyCode::Char('j') || code == KeyCode::Enter || code == KeyCode::Char('c') || code
            == KeyCode::Char('b');
        if work {
            self.normal_work_key(code, effects);
        } else {
            self.normal_state_key(code);
            proof {
                assert(effect_views(effects@) =~= effect_views(old(effects)@) + Seq::<EffectView>::empty());
            }
        }
    }

    /// A key while typing the search (`handle_search`).
    #[verifier::rlimit(60)]
    #[verifier::spinoff_prover]
    pub fn handle_search(&mut self, key: Key, effects: &mut Vec<Effect>)
        requires
            old(self).inv(),
        ensures
            final(self).inv(),
            ({
                let (s, e) = handle_search(old(self)@, key);
                final(self)@ == s && effect_views(final(effects)@) == effect_views(old(effects)@) + e
            }),
    {
        proof {
            assert(effect_views(effects@) =~= effect_views(old(effects)@) + Seq::<EffectView>::empty());
        }
        match key.code {
            KeyCode::Esc => {
                self.search = String::new();
                self.apply_filter();
                self.mode = InputMode::Normal;
            },
            KeyCode::Enter => {
                self.mode = InputMode::Normal;
                if self.tab == Tab::Workflows {
                    self.workflow_index = 0;
                    self.workflow_selection_changed(effects);
                } else {
                    self.model_index = 0;
                    self.selection_changed(effects);
                }
            },
            KeyCode::Backspace => {
                self.search = popped_string(&self.search);
                self.apply_filter();
            },
            KeyCode::Char(c) => {
                self.search = pushed_string(&self.search, c);
                self.apply_filter();
            },
            _ => {},
        }
    }

    /// A key acting on an open form (`form_key`).
    #[verifier::rlimit(60)]
    #[verifier::spinoff_prover]
    fn form_key(form: &mut MethodForm, key: Key, effects: &mut Vec<Effect>)
        requires
            form_ok(*old(form)),
        ensures
            form_ok(*final(form)),
            ({
                let (f, e) = form_key(old(form)@, key);
                final(form)@ == f && effect_views(final(effects)@) == effect_views(old(effects)@) + e
            }),
    {
        proof {
            assert(effect_views(effects@) =~= effect_views(old(effects)@) + Seq::<EffectView>::empty());
        }
        let is_raw = match &form.mode {
            FormMode::RawJson(_) => true,
            FormMode::Fields(_) => false,
        };
        if is_raw {
            let text = match &form.mode {
                FormMode::RawJson(t) => t.clone(),
                FormMode::Fields(_) => String::new(),
            };
            match key.code {
                KeyCode::Backspace => form.mode = FormMode::RawJson(popped_string(&text)),
                KeyCode::Char(c) => form.mode = FormMode::RawJson(pushed_string(&text, c)),
                _ => {},
            }
            return ;
        }
        let n = match &form.mode {
            FormMode::Fields(fs) => fs.len(),
            FormMode::RawJson(_) => 0,
        };
        if n == 0 {
            return ;
        }
        let i = form.selected_field;
        let cyclable = match &form.mode {
            FormMode::Fields(fs) => match &fs[i].kind {
                crate::schema::FieldKind::Boolean => true,
                crate::schema::FieldKind::Enum(_) => true,
                _ => false,
            },
            FormMode::RawJson(_) => false,
        };
        let cycle_key = key.code == KeyCode::Left || key.code == KeyCode::Right || key.code == KeyCode::Char(' ');
        let edit: u8 = if cycle_key && cyclable {
            1
        } else {
            match key.code {
                KeyCode::Up => {
                    form.selected_field = if i > 0 {
                        i - 1
                    } else {
                        0
                    };
                    0
                },
                KeyCode::Down | KeyCode::Tab => {
                    form.selected_field = if i + 1 > n - 1 {
                        n - 1
                    } else {
                        i + 1
                    };
                    0
                },
                KeyCode::Backspace => 2,
                KeyCode::Char(_) => 3,
                _ => 0,
            }
        };
        if edit == 0 {
            return ;
        }
        let mut taken = FormMode::RawJson(String::new());
        std::mem::swap(&mut taken, &mut form.mode);
        let mut fields = match taken {
            FormMode::Fields(fs) => fs,
            FormMode::RawJson(_) => Vec::new(),
        };
        let ghost fv = crate::schema::field_views(fields@);
        let mut field = fields.remove(i);
        if edit == 1 {
            crate::app::cycle_field(&mut field);
        } else if edit == 2 {
            field.value = popped_string(&field.value);
        } else {
            let c = match key.code {
                KeyCode::Char(c) => c,
                _ => ' ',
            };
            field.value = pushed_string(&field.value, c);
        }
        let ghost nv = field@.value;
        fields.insert(i, field);
        proof {
            assert(crate::schema::field_views(fields@) =~= fv.update(
                i as int,
                FieldView { value: nv, ..fv[i as int] },
            ));
        }
        form.mode = FormMode::Fields(fields);
    }

    /// A key in the method form (`handle_form`).
    #[verifier::rlimit(60)]
    #[verifier::spinoff_prover]
    pub fn handle_form(&mut self, key: Key, effects: &mut Vec<Effect>)
        requires
            old(self).inv(),
        ensures
            final(self).inv(),
            ({
                let (s, e) = handle_form(old(self)@, key);
                final(self)@ == s && effect_views(final(effects)@) == effect_views(old(effects)@) + e
            }),
    {
        if key.code == KeyCode::Esc {
            self.form = None;
            self.mode = InputMode::Normal;
            proof {
                assert(effect_views(effects@) =~= effect_views(old(effects)@) + Seq::<EffectView>::empty());
            }
            return ;
        }
        if key.code == KeyCode::Enter {
            let parsed = match &self.form {
                Some(f) => Some(crate::schema::read_form(&f.mode)),
                None => None,
            };
            match parsed {
                Some(p) => {
                    self.review_parsed(&p, effects);
                    return ;
                },
                None => {},
            }
        }
        let mut form = match self.form.take() {
            Some(f) => f,
            None => {
                self.mode = InputMode::Normal;
                proof {
                    assert(effect_views(effects@) =~= effect_views(old(effects)@) + Seq::<EffectView>::empty());
                }
                return ;
            },
        };
        Self::form_key(&mut form, key, effects);
        self.form = Some(form);
    }

    /// A key while reviewing (`handle_review`).
    pub fn handle_review(&mut self, key: Key, effects: &mut Vec<Effect>)
        requires
            old(self).inv(),
        ensures
            final(self).inv(),
            ({
                let (s, e) = handle_review(old(self)@, key);
                final(self)@ == s && effect_views(final(effects)@) == effect_views(old(effects)@) + e
            }),
    {
        proof {
            assert(effect_views(effects@) =~= effect_views(old(effects)@) + Seq::<EffectView>::empty());
        }
        match key.code {
            KeyCode::Esc | KeyCode::Char('n') => self.mode = InputMode::MethodForm,
            KeyCode::Char('y') | KeyCode::Enter => {
                let destructive = match &self.form {
                    Some(f) => is_destructive_method(f.method.name.as_str()),
                    None => false,
                };
                if destructive {
                    self.mode = InputMode::DestructiveConfirm(String::new());
                } else {
                    self.execute_pending(effects);
                }
            },
            _ => {},
        }
    }

    /// A key while confirming a destructive method (`handle_destructive_confirm`).
    pub fn handle_destructive_confirm(&mut self, key: Key, text: String, effects: &mut Vec<Effect>)
        requires
            old(self).inv(),
        ensures
            final(self).inv(),
            ({
                let (s, e) = handle_destructive_confirm(old(self)@, key, text@);
                final(self)@ == s && effect_views(final(effects)@) == effect_views(old(effects)@) + e
            }),
    {
        proof {
            assert(effect_views(effects@) =~= effect_views(old(effects)@) + Seq::<EffectView>::empty());
        }
        match key.code {
            KeyCode::Esc => self.mode = InputMode::Review,
            KeyCode::Backspace => self.mode = InputMode::DestructiveConfirm(popped_string(&text)),
            KeyCode::Enter => {
                if self.model_selected(text.as_str()) {
                    self.execute_pending(effects);
                } else {
                    self.error = Some(String::from_str("The confirmation must exactly match the model name"));
                    self.mode = InputMode::DestructiveConfirm(text);
                }
            },
            KeyCode::Char(c) => self.mode = InputMode::DestructiveConfirm(pushed_string(&text, c)),
            _ => self.mode = InputMode::DestructiveConfirm(text),
        }
    }

    /// A key while confirming a large load (`handle_large_confirm`).
    pub fn handle_large_confirm(&mut self, key: Key, action: LargeAction, effects: &mut Vec<Effect>)
        requires
            old(self).inv(),
        ensures
            final(self).inv(),
            ({
                let (s, e) = handle_large_confirm(old(self)@, key, action);
                final(self)@ == s && effect_views(final(effects)@) == effect_views(old(effects)@) + e
            }),
    {
        proof {
            assert(effect_views(effects@) =~= effect_views(old(effects)@) + Seq::<EffectView>::empty());
        }
        match key.code {
            KeyCode::Char('y') | KeyCode::Enter => {
                self.mode = InputMode::Normal;
                self.perform_large_action(action, effects);
            },
            KeyCode::Esc | KeyCode::Char('n') => self.mode = InputMode::Normal,
            _ => {},
        }
    }

    /// A key press (`handle_key`): the last error cleared, then the key
    /// handled by the input mode. Returns the work to start.
    pub fn handle_key(&mut self, key: Key) -> (r: Vec<Effect>)
        requires
            old(self).inv(),
        ensures
            final(self).inv(),
            ({
                let (s, e) = handle_key(old(self)@, key);
                final(self)@ == s && effect_views(r@) == e
            }),
    {
        let mut effects: Vec<Effect> = Vec::new();
        proof {
            assert(effect_views(effects@) =~= Seq::<EffectView>::empty());
        }
        self.error = None;
        let mode = match &self.mode {
            InputMode::Normal => 0u8,
            InputMode::Search => 1u8,
            InputMode::MethodForm => 2u8,
            InputMode::Review => 3u8,
            InputMode::DestructiveConfirm(_) => 4u8,
            InputMode::LargeConfirm(_) => 5u8,
            InputMode::Help => 6u8,
        };
        if mode == 0 {
            self.handle_normal(key, &mut effects);
        } else if mode == 1 {
            self.handle_search(key, &mut effects);
        } else if mode == 2 {
            self.handle_form(key, &mut effects);
        } else if mode == 3 {
            self.handle_review(key, &mut effects);
        } else if mode == 4 {
            let text = match &self.mode {
                InputMode::DestructiveConfirm(t) => t.clone(),
                _ => String::new(),
            };
            self.handle_destructive_confirm(key, text, &mut effects);
        } else if mode == 5 {
            let action = match &self.mode {
                InputMode::LargeConfirm(a) => *a,
                _ => LargeAction::Latest,
            };
            self.handle_large_confirm(key, action, &mut effects);
        } else {
            if key.code == KeyCode::Esc || key.code == KeyCode::Char('?') || key.code == KeyCode::Char('q') {
                self.mode = InputMode::Normal;
            }
        }
        proof {
            assert(effect_views(effects@) =~= Seq::<EffectView>::empty() + handle_key(old(self)@, key).1);
        }
        effects
    }
}

} // verus!
