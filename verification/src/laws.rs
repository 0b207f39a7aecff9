//! What the browser's decisions are for, stated over all inputs: which
//! method names count as destructive, how versions and artifacts are
//! ordered, how the search ignores case, which form fields are required,
//! and which content is shown as text.
use vstd::prelude::*;
use vstd::multiset::*;
use crate::diff::display_content_spec;
use crate::json::{key_lt, lemma_key_lt_asymmetric, lemma_key_lt_irreflexive, lemma_key_lt_total, lemma_key_lt_transitive, Json};
use crate::json_text::json_pretty;
use crate::swamp::data::{highest_first, insert_newest, insert_version, newest_first, ArtifactView, VersionView};
use crate::swamp::model::SummaryView;
use crate::swamp::workflow::WorkflowSummaryView;
use crate::state::{ascii_lower, filtered, matching_models, matching_workflows, model_matches, workflow_matches, AppView};
use crate::text::{contains, contains_at};
use crate::schema::{
    collect_spec, concat_fields, destructive_actions, form_for_spec, is_alnum, is_destructive, is_nested, is_required_name,
    is_upper, lower, property_fields, property_parts, snake, token_at, FieldView, ModeView,
};
use crate::json::{get, key_index, keys_sorted, lemma_get_at, wf};

verus! {

// ---------------------------------------------------------------------
// Content shown as text.

/// YAML content (`application/yaml` or `application/x-yaml`) and content of
/// any `text/` type is shown as the text it holds; JSON content, and any
/// content that is not a string, is shown as indented JSON.
pub proof fn lemma_text_content_shown(s: Seq<char>, rest: Seq<char>, v: Json)
    ensures
        display_content_spec("application/yaml"@, Json::Str(s)) == Some(s),
        display_content_spec("application/x-yaml"@, Json::Str(s)) == Some(s),
        display_content_spec("text/"@ + rest, Json::Str(s)) == Some(s),
        display_content_spec("application/json"@, v) == Some(json_pretty(v)),
        !(v is Str) ==> display_content_spec("text/"@ + rest, v) == Some(json_pretty(v)),
{
    reveal_strlit("application/yaml");
    reveal_strlit("application/x-yaml");
    reveal_strlit("application/json");
    reveal_strlit("text/");
    assert("application/yaml"@ != "application/json"@) by {
        assert("application/yaml"@[12] != "application/json"@[12]);
    }
    assert("application/x-yaml"@ != "application/json"@) by {
        assert("application/x-yaml"@.len() != "application/json"@.len());
    }
    let t = "text/"@ + rest;
    assert("text/"@.is_prefix_of(t)) by {
        assert(t.subrange(0, 5) =~= "text/"@);
    }
    assert(t != "application/json"@) by {
        if t == "application/json"@ {
            assert(t[0] == 't');
        }
    }
}

// ---------------------------------------------------------------------
// Versions highest first.

/// Version numbers never rise along the sequence.
pub open spec fn versions_descending(s: Seq<VersionView>) -> bool {
    forall|i: int, j: int| 0 <= i < j < s.len() ==> (#[trigger] s[i]).version >= (#[trigger] s[j]).version
}

proof fn lemma_insert_version_sorted(s: Seq<VersionView>, x: VersionView)
    requires
        versions_descending(s),
    ensures
        versions_descending(insert_version(s, x)),
        insert_version(s, x).to_multiset() =~= s.to_multiset().insert(x),
        insert_version(s, x).len() > 0,
        insert_version(s, x)[0] == x || (s.len() > 0 && insert_version(s, x)[0] == s[0]),
    decreases s.len(),
{
    broadcast use group_multiset_axioms;
    broadcast use vstd::seq_lib::group_to_multiset_ensures;
    let r = insert_version(s, x);
    if s.len() == 0 {
        assert(r =~= Seq::<VersionView>::empty().push(x));
    } else if s[0].version < x.version {
        assert(r =~= s.insert(0, x));
        vstd::seq_lib::to_multiset_insert(s, 0, x);
    } else {
        let rest = s.drop_first();
        let t = insert_version(rest, x);
        lemma_insert_version_sorted(rest, x);
        assert(r == seq![s[0]] + t);
        assert forall|i: int, j: int| 0 <= i < j < r.len() implies (#[trigger] r[i]).version >= (
        #[trigger] r[j]).version by {
            if i == 0 {
                assert(r[j] == t[j - 1]);
                if j - 1 > 0 {
                    assert(t[0].version >= t[j - 1].version);
                }
                if t[0] != x {
                    assert(t[0] == rest[0]);
                    assert(s[0].version >= s[1].version);
                }
            } else {
                assert(r[i] == t[i - 1]);
                assert(r[j] == t[j - 1]);
            }
        }
        vstd::seq_lib::lemma_multiset_commutative(seq![s[0]], t);
        vstd::seq_lib::lemma_multiset_commutative(seq![s[0]], rest);
        assert(s =~= seq![s[0]] + rest);
    }
}

/// `highest_first` (what `versions_highest_first` returns) lists the same
/// versions as it was given, each as often, with the version numbers
/// never rising.
pub proof fn lemma_highest_first_sorted(s: Seq<VersionView>)
    ensures
        versions_descending(highest_first(s)),
        highest_first(s).to_multiset() =~= s.to_multiset(),
    decreases s.len(),
{
    broadcast use group_multiset_axioms;
    broadcast use vstd::seq_lib::group_to_multiset_ensures;
    if s.len() > 0 {
        lemma_highest_first_sorted(s.drop_last());
        lemma_insert_version_sorted(highest_first(s.drop_last()), s.last());
        assert(s =~= s.drop_last().push(s.last()));
    }
}

// ---------------------------------------------------------------------
// Artifacts newest first.

/// No artifact is created before one listed after it.
pub open spec fn artifacts_newest_first(s: Seq<ArtifactView>) -> bool {
    forall|i: int, j: int| 0 <= i < j < s.len() ==> !key_lt(#[trigger] s[i].created_at, #[trigger] s[j].created_at)
}

proof fn lemma_not_before_transitive(a: Seq<char>, b: Seq<char>, c: Seq<char>)
    requires
        !key_lt(a, b),
        !key_lt(b, c),
    ensures
        !key_lt(a, c),
{
    lemma_key_lt_total(a, b);
    if key_lt(a, c) && a != b {
        lemma_key_lt_transitive(b, a, c);
    }
}

proof fn lemma_insert_newest_sorted(s: Seq<ArtifactView>, x: ArtifactView)
    requires
        artifacts_newest_first(s),
    ensures
        artifacts_newest_first(insert_newest(s, x)),
        insert_newest(s, x).to_multiset() =~= s.to_multiset().insert(x),
        insert_newest(s, x).len() > 0,
        insert_newest(s, x)[0] == x || (s.len() > 0 && insert_newest(s, x)[0] == s[0]),
    decreases s.len(),
{
    broadcast use group_multiset_axioms;
    broadcast use vstd::seq_lib::group_to_multiset_ensures;
    let r = insert_newest(s, x);
    if s.len() == 0 {
        assert(r =~= Seq::<ArtifactView>::empty().push(x));
    } else if key_lt(s[0].created_at, x.created_at) {
        assert(r =~= s.insert(0, x));
        vstd::seq_lib::to_multiset_insert(s, 0, x);
        lemma_key_lt_asymmetric(s[0].created_at, x.created_at);
        assert forall|i: int, j: int| 0 <= i < j < r.len() implies !key_lt(
            #[trigger] r[i].created_at,
            #[trigger] r[j].created_at,
        ) by {
            if i == 0 {
                assert(r[j] == s[j - 1]);
                if j - 1 > 0 {
                    assert(!key_lt(s[0].created_at, s[j - 1].created_at));
                    lemma_not_before_transitive(x.created_at, s[0].created_at, s[j - 1].created_at);
                }
            } else {
                assert(r[i] == s[i - 1]);
                assert(r[j] == s[j - 1]);
            }
        }
    } else {
        let rest = s.drop_first();
        let t = insert_newest(rest, x);
        lemma_insert_newest_sorted(rest, x);
        assert(r == seq![s[0]] + t);
        assert forall|i: int, j: int| 0 <= i < j < r.len() implies !key_lt(
            #[trigger] r[i].created_at,
            #[trigger] r[j].created_at,
        ) by {
            if i == 0 {
                assert(r[j] == t[j - 1]);
                if t[0] != x {
                    assert(t[0] == rest[0]);
                    assert(!key_lt(s[0].created_at, s[1].created_at));
                }
                if j - 1 > 0 {
                    assert(!key_lt(t[0].created_at, t[j - 1].created_at));
                    lemma_not_before_transitive(s[0].created_at, t[0].created_at, t[j - 1].created_at);
                }
            } else {
                assert(r[i] == t[i - 1]);
                assert(r[j] == t[j - 1]);
            }
        }
        vstd::seq_lib::lemma_multiset_commutative(seq![s[0]], t);
        vstd::seq_lib::lemma_multiset_commutative(seq![s[0]], rest);
        assert(s =~= seq![s[0]] + rest);
    }
}

/// `newest_first` (what `sort_newest_first` returns) lists the same
/// artifacts as it was given, each as often, none created before one
/// listed after it.
pub proof fn lemma_newest_first_sorted(s: Seq<ArtifactView>)
    ensures
        artifacts_newest_first(newest_first(s)),
        newest_first(s).to_multiset() =~= s.to_multiset(),
    decreases s.len(),
{
    broadcast use group_multiset_axioms;
    broadcast use vstd::seq_lib::group_to_multiset_ensures;
    if s.len() > 0 {
        lemma_newest_first_sorted(s.drop_last());
        lemma_insert_newest_sorted(newest_first(s.drop_last()), s.last());
        assert(s =~= s.drop_last().push(s.last()));
    }
}


// ---------------------------------------------------------------------
// The search ignores ASCII case.

pub open spec fn lowered_model(m: SummaryView) -> SummaryView {
    SummaryView { name: ascii_lower(m.name), model_type: ascii_lower(m.model_type), ..m }
}

pub open spec fn lowered_models(ms: Seq<SummaryView>) -> Seq<SummaryView> {
    Seq::new(ms.len(), |i: int| lowered_model(ms[i]))
}

pub open spec fn lowered_workflow(w: WorkflowSummaryView) -> WorkflowSummaryView {
    WorkflowSummaryView { name: ascii_lower(w.name), description: ascii_lower(w.description), ..w }
}

pub open spec fn lowered_workflows(ws: Seq<WorkflowSummaryView>) -> Seq<WorkflowSummaryView> {
    Seq::new(ws.len(), |i: int| lowered_workflow(ws[i]))
}

/// Lowering twice is lowering once.
pub proof fn lemma_ascii_lower_idempotent(s: Seq<char>)
    ensures
        ascii_lower(ascii_lower(s)) == ascii_lower(s),
{
    let l = ascii_lower(s);
    assert forall|i: int| 0 <= i < l.len() implies !('A' <= #[trigger] l[i] <= 'Z') by {
        if 'A' <= s[i] <= 'Z' {
            assert(((s[i] as u32) + 32) as char == l[i]);
            assert('a' <= l[i] <= 'z');
        }
    }
    assert(ascii_lower(l) =~= l);
}

proof fn lemma_matching_models_lowered(ms: Seq<SummaryView>, needle: Seq<char>)
    ensures
        matching_models(lowered_models(ms), needle) == matching_models(ms, needle),
    decreases ms.len(),
{
    if ms.len() > 0 {
        let lm = lowered_models(ms);
        assert(lm.drop_last() =~= lowered_models(ms.drop_last()));
        lemma_matching_models_lowered(ms.drop_last(), needle);
        lemma_ascii_lower_idempotent(ms.last().name);
        lemma_ascii_lower_idempotent(ms.last().model_type);
        assert(lm.last() == lowered_model(ms.last()));
        assert(model_matches(lm.last(), needle) == model_matches(ms.last(), needle));
    }
}

proof fn lemma_matching_workflows_lowered(ws: Seq<WorkflowSummaryView>, needle: Seq<char>)
    ensures
        matching_workflows(lowered_workflows(ws), needle) == matching_workflows(ws, needle),
    decreases ws.len(),
{
    if ws.len() > 0 {
        let lw = lowered_workflows(ws);
        assert(lw.drop_last() =~= lowered_workflows(ws.drop_last()));
        lemma_matching_workflows_lowered(ws.drop_last(), needle);
        lemma_ascii_lower_idempotent(ws.last().name);
        lemma_ascii_lower_idempotent(ws.last().description);
        assert(lw.last() == lowered_workflow(ws.last()));
        assert(workflow_matches(lw.last(), needle) == workflow_matches(ws.last(), needle));
    }
}

/// The search ignores ASCII case on both sides: filtering with the search
/// text lowered, and every model's name and type and every workflow's
/// name and description lowered, lists exactly what filtering the
/// originals lists.
pub proof fn lemma_filter_ignores_case(s: AppView)
    ensures
        filtered(
            AppView {
                models: lowered_models(s.models),
                workflows: lowered_workflows(s.workflows),
                search: ascii_lower(s.search),
                ..s
            },
        ).filtered_models == filtered(s).filtered_models,
        filtered(
            AppView {
                models: lowered_models(s.models),
                workflows: lowered_workflows(s.workflows),
                search: ascii_lower(s.search),
                ..s
            },
        ).filtered_workflows == filtered(s).filtered_workflows,
{
    lemma_ascii_lower_idempotent(s.search);
    lemma_matching_models_lowered(s.models, ascii_lower(s.search));
    lemma_matching_workflows_lowered(s.workflows, ascii_lower(s.search));
}

proof fn lemma_matching_models_members(ms: Seq<SummaryView>, needle: Seq<char>, i: int)
    requires
        ms.len() <= usize::MAX,
        0 <= i < ms.len(),
    ensures
        matching_models(ms, needle).contains(i as usize) <==> model_matches(ms[i], needle),
    decreases ms.len(),
{
    let r = matching_models(ms, needle);
    let p = matching_models(ms.drop_last(), needle);
    assert(forall|k: int| 0 <= k < p.len() ==> #[trigger] p[k] < ms.len() - 1) by {
        lemma_matching_models_below(ms.drop_last(), needle);
    }
    if i < ms.len() - 1 {
        lemma_matching_models_members(ms.drop_last(), needle, i);
        assert(ms.drop_last()[i] == ms[i]);
        if p.contains(i as usize) {
            let k = choose|k: int| 0 <= k < p.len() && p[k] == i as usize;
            assert(r[k] == p[k]);
        }
        if r.contains(i as usize) {
            let k = choose|k: int| 0 <= k < r.len() && r[k] == i as usize;
            if k >= p.len() {
                assert(r[k] == (ms.len() - 1) as usize);
            } else {
                assert(r[k] == p[k]);
            }
        }
    } else {
        if model_matches(ms[i], needle) {
            assert(r[p.len() as int] == i as usize);
        }
        if r.contains(i as usize) {
            let k = choose|k: int| 0 <= k < r.len() && r[k] == i as usize;
            if k < p.len() {
                assert(r[k] == p[k]);
            }
        }
    }
}

proof fn lemma_matching_models_below(ms: Seq<SummaryView>, needle: Seq<char>)
    requires
        ms.len() <= usize::MAX,
    ensures
        forall|k: int|
            0 <= k < matching_models(ms, needle).len() ==> #[trigger] matching_models(ms, needle)[k] < ms.len(),
    decreases ms.len(),
{
    if ms.len() > 0 {
        lemma_matching_models_below(ms.drop_last(), needle);
        let p = matching_models(ms.drop_last(), needle);
        let r = matching_models(ms, needle);
        assert forall|k: int| 0 <= k < r.len() implies #[trigger] r[k] < ms.len() by {
            if k < p.len() {
                assert(r[k] == p[k]);
            }
        }
    }
}

/// Which models the search lists: with an empty search every model; else
/// a model is listed exactly when the lowered search text occurs in its
/// lowered name or in its lowered type.
pub proof fn lemma_filter_models(s: AppView, i: int)
    requires
        s.models.len() <= usize::MAX,
        0 <= i < s.models.len(),
    ensures
        s.search.len() == 0 ==> filtered(s).filtered_models.contains(i as usize),
        filtered(s).filtered_models.contains(i as usize) <==> (s.search.len() == 0 || contains(
            ascii_lower(s.models[i].name),
            ascii_lower(s.search),
        ) || contains(ascii_lower(s.models[i].model_type), ascii_lower(s.search))),
{
    lemma_matching_models_members(s.models, ascii_lower(s.search), i);
}


// ---------------------------------------------------------------------
// Destructive method names.

/// How one character after the first goes into the snake-case name.
pub open spec fn snake_piece(c: char) -> Seq<char> {
    if is_upper(c) {
        seq!['_', lower(c)]
    } else {
        seq![lower(c)]
    }
}

/// The snake-case text of characters that follow a first one.
pub open spec fn snake_rest(b: Seq<char>) -> Seq<char>
    decreases b.len(),
{
    if b.len() == 0 {
        Seq::empty()
    } else {
        snake_rest(b.drop_last()) + snake_piece(b.last())
    }
}

proof fn lemma_snake_append(a: Seq<char>, b: Seq<char>)
    requires
        a.len() > 0,
    ensures
        snake(a + b) == snake(a) + snake_rest(b),
    decreases b.len(),
{
    if b.len() == 0 {
        assert(a + b =~= a);
        assert(snake(a) + snake_rest(b) =~= snake(a));
    } else {
        let x = a + b;
        assert(x.drop_last() =~= a + b.drop_last());
        assert(x.last() == b.last());
        lemma_snake_append(a, b.drop_last());
        assert(snake(x) =~= snake(a) + snake_rest(b));
    }
}

proof fn lemma_snake_rest_append(a: Seq<char>, b: Seq<char>)
    ensures
        snake_rest(a + b) == snake_rest(a) + snake_rest(b),
    decreases b.len(),
{
    if b.len() == 0 {
        assert(a + b =~= a);
        assert(snake_rest(a) + snake_rest(b) =~= snake_rest(a));
    } else {
        assert((a + b).drop_last() =~= a + b.drop_last());
        lemma_snake_rest_append(a, b.drop_last());
        assert(snake_rest(a + b) =~= snake_rest(a) + snake_rest(b));
    }
}

proof fn lemma_snake_rest_plain(b: Seq<char>)
    requires
        forall|i: int| 0 <= i < b.len() ==> !is_upper(#[trigger] b[i]),
    ensures
        snake_rest(b) == b,
    decreases b.len(),
{
    if b.len() > 0 {
        lemma_snake_rest_plain(b.drop_last());
        assert(!is_upper(b[b.len() - 1]));
        assert(snake_rest(b) =~= b);
    }
}

proof fn lemma_snake_rest_first(q: Seq<char>)
    requires
        q.len() > 0,
    ensures
        snake_rest(q).len() > 0,
        snake_rest(q)[0] == (if is_upper(q[0]) {
            '_'
        } else {
            lower(q[0])
        }),
{
    let one = seq![q[0]];
    lemma_snake_rest_append(one, q.drop_first());
    assert(one + q.drop_first() =~= q);
    assert(one.drop_last() =~= Seq::<char>::empty());
    assert(snake_rest(Seq::<char>::empty()) =~= Seq::<char>::empty());
    assert(snake_rest(one) =~= snake_piece(q[0]));
}

/// An action word (lower-case letters) is its own snake-case text.
proof fn lemma_snake_word(w: Seq<char>)
    requires
        w.len() > 0,
        forall|i: int| 0 <= i < w.len() ==> 'a' <= #[trigger] w[i] <= 'z',
    ensures
        snake(w) == w,
        snake_rest(w) == w,
{
    assert forall|i: int| 0 <= i < w.len() implies !is_upper(#[trigger] w[i]) by {
        assert('a' <= w[i] <= 'z');
    }
    lemma_snake_rest_plain(w.drop_first());
    lemma_snake_rest_plain(w);
    let one = seq![w[0]];
    lemma_snake_append(one, w.drop_first());
    assert(one + w.drop_first() =~= w);
    assert(one.drop_last() =~= Seq::<char>::empty());
    assert(one.last() == w[0]);
    assert(!is_upper(w[0]));
    assert(lower(w[0]) == w[0]);
    assert(snake(Seq::<char>::empty()) =~= Seq::<char>::empty());
    assert(snake(one) =~= one);
    assert(snake(w) =~= w);
}

/// Where the name goes on after the word, the next character of its
/// snake-case text is not an ASCII letter or digit.
proof fn lemma_word_end(q: Seq<char>)
    requires
        q.len() > 0,
        !is_alnum(q[0]) || is_upper(q[0]),
    ensures
        snake_rest(q).len() > 0,
        !is_alnum(snake_rest(q)[0]),
{
    lemma_snake_rest_first(q);
}

proof fn lemma_action_word_lower(w: Seq<char>)
    requires
        w == "delete"@ || w == "destroy"@ || w == "remove"@ || w == "terminate"@ || w == "purge"@ || w
            == "revoke"@ || w == "stop"@,
    ensures
        w.len() > 0,
        forall|i: int| 0 <= i < w.len() ==> 'a' <= #[trigger] w[i] <= 'z',
        exists|k: int| 0 <= k < destructive_actions().len() && destructive_actions()[k] == w,
{
    reveal_strlit("delete");
    reveal_strlit("destroy");
    reveal_strlit("remove");
    reveal_strlit("terminate");
    reveal_strlit("purge");
    reveal_strlit("revoke");
    reveal_strlit("stop");
    let d = destructive_actions();
    if w == "delete"@ {
        assert(d[0] == w);
    } else if w == "destroy"@ {
        assert(d[1] == w);
    } else if w == "remove"@ {
        assert(d[2] == w);
    } else if w == "terminate"@ {
        assert(d[3] == w);
    } else if w == "purge"@ {
        assert(d[4] == w);
    } else if w == "revoke"@ {
        assert(d[5] == w);
    } else {
        assert(d[6] == w);
    }
}

/// Every one of the action words `delete`, `destroy`, `remove`,
/// `terminate`, `purge`, `revoke` and `stop`, standing as a token of a
/// method name, marks the method destructive: the word is at the start or
/// after a character that is not an ASCII letter or digit, and at the end
/// or before such a character or an upper-case letter (so `stop`,
/// `stopInstance`, `stop-server` and `vm.delete` all count).
pub proof fn lemma_action_words_destructive(p: Seq<char>, w: Seq<char>, q: Seq<char>)
    requires
        w == "delete"@ || w == "destroy"@ || w == "remove"@ || w == "terminate"@ || w == "purge"@ || w
            == "revoke"@ || w == "stop"@,
        p.len() == 0 || !is_alnum(p.last()),
        q.len() == 0 || !is_alnum(q[0]) || is_upper(q[0]),
    ensures
        is_destructive(p + w + q),
{
    lemma_action_word_lower(w);
    let k = choose|k: int| 0 <= k < destructive_actions().len() && destructive_actions()[k] == w;
    lemma_snake_word(w);
    let name = p + w + q;
    let head = if p.len() == 0 {
        Seq::<char>::empty()
    } else {
        snake(p)
    };
    if p.len() == 0 {
        assert(name =~= w + q);
        lemma_snake_append(w, q);
    } else {
        assert(name =~= (p + w) + q);
        lemma_snake_append(p + w, q);
        lemma_snake_append(p, w);
        assert(snake(p).last() == lower(p.last()));
    }
    let s = snake(name);
    assert(s =~= head + w + snake_rest(q));
    let at = head.len() as int;
    assert(s.subrange(at, at + w.len()) =~= w);
    assert(contains_at(s, w, at));
    if q.len() > 0 {
        lemma_word_end(q);
        assert(s[at + w.len()] == snake_rest(q)[0]);
    } else {
        assert(snake_rest(q) =~= Seq::<char>::empty());
    }
    if p.len() > 0 {
        assert(s[at - 1] == snake(p).last());
    }
    assert(token_at(s, destructive_actions()[k], at));
}


// ---------------------------------------------------------------------
// Required form fields.

/// The schema reached from `sch` by following property names, each through
/// the current schema's `properties`.
pub open spec fn schema_along(sch: Json, keys: Seq<Seq<char>>) -> Option<Json>
    decreases keys.len(),
{
    if keys.len() == 0 {
        Some(sch)
    } else {
        match get(sch, "properties"@) {
            Some(Json::Object(ps)) => match get(Json::Object(ps), keys[0]) {
                Some(c) => schema_along(c, keys.drop_first()),
                None => None,
            },
            _ => None,
        }
    }
}

/// `sch` lists `name` among its `required` properties.
pub open spec fn lists_required(sch: Json, name: Seq<char>) -> bool {
    match get(sch, "required"@) {
        Some(Json::Array(xs)) => xs.contains(Json::Str(name)),
        _ => false,
    }
}

/// Some property along the path, followed from `sch`, is listed as
/// required by the schema that holds it.
pub open spec fn required_along(sch: Json, path: Seq<Seq<char>>) -> bool {
    exists|k: int|
        0 <= k < path.len() && ((#[trigger] schema_along(sch, path.take(k))) matches Some(h) && lists_required(
            h,
            path[k],
        ))
}

proof fn lemma_concat_index(parts: Seq<Seq<FieldView>>, idx: int) -> (ij: (int, int))
    requires
        0 <= idx < concat_fields(parts).len(),
    ensures
        0 <= ij.0 < parts.len(),
        0 <= ij.1 < parts[ij.0].len(),
        concat_fields(parts)[idx] == parts[ij.0][ij.1],
    decreases parts.len(),
{
    let c = concat_fields(parts.drop_last());
    if idx < c.len() {
        let r = lemma_concat_index(parts.drop_last(), idx);
        assert(parts.drop_last()[r.0] == parts[r.0]);
        r
    } else {
        (parts.len() - 1, idx - c.len())
    }
}

proof fn lemma_along_cons(sch: Json, name: Seq<char>, prop: Json, rest: Seq<Seq<char>>)
    requires
        get(sch, "properties"@) matches Some(Json::Object(ps)) && get(Json::Object(ps), name) == Some(prop),
    ensures
        required_along(sch, seq![name] + rest) <==> (lists_required(sch, name) || required_along(prop, rest)),
{
    let r = seq![name] + rest;
    assert(r.take(0) =~= Seq::<Seq<char>>::empty());
    assert forall|k: int| 1 <= k <= r.len() implies #[trigger] schema_along(sch, r.take(k)) == schema_along(
        prop,
        rest.take(k - 1),
    ) by {
        assert(r.take(k)[0] == name);
        assert(r.take(k).drop_first() =~= rest.take(k - 1));
    }
    if required_along(sch, r) {
        let k = choose|k: int|
            0 <= k < r.len() && ((#[trigger] schema_along(sch, r.take(k))) matches Some(h) && lists_required(h, r[k]));
        if k > 0 {
            assert(r[k] == rest[k - 1]);
            assert(schema_along(prop, rest.take(k - 1)) == schema_along(sch, r.take(k)));
        }
    }
    if lists_required(sch, name) {
        assert(schema_along(sch, r.take(0)) == Some(sch));
    }
    if required_along(prop, rest) {
        let k = choose|k: int|
            0 <= k < rest.len() && ((#[trigger] schema_along(prop, rest.take(k))) matches Some(h) && lists_required(
                h,
                rest[k],
            ));
        assert(r[k + 1] == rest[k]);
        assert(schema_along(sch, r.take(k + 1)) == schema_along(prop, rest.take(k)));
    }
}

proof fn lemma_collect_required(schema: Json, parent: Seq<Seq<char>>, pr: bool, idx: int)
    requires
        wf(schema),
        0 <= idx < collect_spec(schema, parent, pr).len(),
    ensures
        ({
            let f = collect_spec(schema, parent, pr)[idx];
            &&& f.path.len() > parent.len()
            &&& f.path.take(parent.len() as int) == parent
            &&& (f.required <==> (pr || required_along(schema, f.path.skip(parent.len() as int))))
        }),
    decreases schema, 1nat,
{
    let es = schema->Object_0;
    let pi = key_index(es, "properties"@);
    let props = es[pi].1->Object_0;
    let parts = property_parts(schema, props, parent, pr);
    assert(collect_spec(schema, parent, pr) == concat_fields(parts));
    let ij = lemma_concat_index(parts, idx);
    let i = ij.0;
    assert(wf(es[pi].1));
    assert(keys_sorted(props));
    assert(wf(props[i].1));
    lemma_get_at(props, props[i].0, i);
    assert(get(schema, "properties"@) == Some(es[pi].1));
    assert(parts[i] == property_fields(schema, props[i].0, props[i].1, parent, pr));
    lemma_field_required(schema, props[i].0, props[i].1, parent, pr, ij.1);
}

proof fn lemma_field_required(
    schema: Json,
    name: Seq<char>,
    prop: Json,
    parent: Seq<Seq<char>>,
    pr: bool,
    j: int,
)
    requires
        wf(prop),
        0 <= j < property_fields(schema, name, prop, parent, pr).len(),
        get(schema, "properties"@) matches Some(Json::Object(ps)) && get(Json::Object(ps), name) == Some(prop),
    ensures
        ({
            let f = property_fields(schema, name, prop, parent, pr)[j];
            &&& f.path.len() > parent.len()
            &&& f.path.take(parent.len() as int) == parent
            &&& (f.required <==> (pr || required_along(schema, f.path.skip(parent.len() as int))))
        }),
    decreases prop, 2nat,
{
    let path = parent.push(name);
    let req = pr || is_required_name(schema, name);
    assert(is_required_name(schema, name) == lists_required(schema, name)) by {
        match get(schema, "required"@) {
            Some(Json::Array(xs)) => {
                if xs.contains(Json::Str(name)) {
                    let i = choose|i: int| 0 <= i < xs.len() && xs[i] == Json::Str(name);
                }
            },
            _ => {},
        }
    }
    let f = property_fields(schema, name, prop, parent, pr)[j];
    if is_nested(prop) {
        lemma_collect_required(prop, path, req, j);
        let rest = f.path.skip(path.len() as int);
        assert(f.path.take(parent.len() as int) =~= parent) by {
            assert(f.path.take(path.len() as int).take(parent.len() as int) =~= f.path.take(parent.len() as int));
        }
        assert(f.path[parent.len() as int] == name) by {
            assert(f.path.take(path.len() as int)[parent.len() as int] == path[parent.len() as int]);
        }
        assert(f.path.skip(parent.len() as int) =~= seq![name] + rest);
        lemma_along_cons(schema, name, prop, rest);
    } else {
        assert(f.path == path);
        assert(path.take(parent.len() as int) =~= parent);
        assert(path.skip(parent.len() as int) =~= seq![name] + Seq::<Seq<char>>::empty());
        lemma_along_cons(schema, name, prop, Seq::empty());
        assert(!required_along(prop, Seq::<Seq<char>>::empty()));
    }
}

/// A form field is required exactly when some property along its path is
/// listed as required by the schema that holds that property: a required
/// parent makes every field nested under it required, and a field with no
/// required property along its path is optional.
pub proof fn lemma_form_fields_required(schema: Json, i: int)
    requires
        wf(schema),
        form_for_spec(schema) matches ModeView::Fields(fs) && 0 <= i < fs.len(),
    ensures
        ({
            let f = form_for_spec(schema)->Fields_0[i];
            f.path.len() > 0 && (f.required <==> required_along(schema, f.path))
        }),
{
    let fs = form_for_spec(schema)->Fields_0;
    assert(fs == collect_spec(schema, Seq::empty(), false));
    lemma_collect_required(schema, Seq::empty(), false, i);
    assert(fs[i].path.skip(0) =~= fs[i].path);
}


/// Content of any other type, held as a string, is binary and not shown.
pub proof fn lemma_binary_content_hidden(t: Seq<char>, s: Seq<char>)
    requires
        !"text/"@.is_prefix_of(t),
        t != "application/json"@,
        t != "application/yaml"@,
        t != "application/x-yaml"@,
    ensures
        display_content_spec(t, Json::Str(s)) is None,
{
}

/// A name made of lower-case letters alone is destructive exactly when it
/// is one of the action words.
pub proof fn lemma_plain_names(name: Seq<char>)
    requires
        name.len() > 0,
        forall|i: int| 0 <= i < name.len() ==> 'a' <= #[trigger] name[i] <= 'z',
    ensures
        is_destructive(name) <==> (name == "delete"@ || name == "destroy"@ || name == "remove"@ || name
            == "terminate"@ || name == "purge"@ || name == "revoke"@ || name == "stop"@),
{
    lemma_snake_word(name);
    if name == "delete"@ || name == "destroy"@ || name == "remove"@ || name == "terminate"@ || name == "purge"@
        || name == "revoke"@ || name == "stop"@ {
        lemma_action_words_destructive(Seq::empty(), name, Seq::empty());
        assert(Seq::<char>::empty() + name + Seq::<char>::empty() =~= name);
    }
    if is_destructive(name) {
        let (k, at) = choose|k: int, at: int|
            0 <= k < destructive_actions().len() && token_at(snake(name), destructive_actions()[k], at);
        let w = destructive_actions()[k];
        if at > 0 {
            assert('a' <= name[at - 1] <= 'z');
        }
        if at + w.len() < name.len() {
            assert('a' <= name[at + w.len()] <= 'z');
        }
        assert(name =~= name.subrange(at, at + w.len()));
        let d = destructive_actions();
        assert(k == 0 || k == 1 || k == 2 || k == 3 || k == 4 || k == 5 || k == 6);
        assert(w == d[k]);
    }
}

proof fn lemma_matching_workflows_members(ws: Seq<WorkflowSummaryView>, needle: Seq<char>, i: int)
    requires
        ws.len() <= usize::MAX,
        0 <= i < ws.len(),
    ensures
        matching_workflows(ws, needle).contains(i as usize) <==> workflow_matches(ws[i], needle),
    decreases ws.len(),
{
    let r = matching_workflows(ws, needle);
    let p = matching_workflows(ws.drop_last(), needle);
    assert(forall|k: int| 0 <= k < p.len() ==> #[trigger] p[k] < ws.len() - 1) by {
        lemma_matching_workflows_below(ws.drop_last(), needle);
    }
    if i < ws.len() - 1 {
        lemma_matching_workflows_members(ws.drop_last(), needle, i);
        assert(ws.drop_last()[i] == ws[i]);
        if p.contains(i as usize) {
            let k = choose|k: int| 0 <= k < p.len() && p[k] == i as usize;
            assert(r[k] == p[k]);
        }
        if r.contains(i as usize) {
            let k = choose|k: int| 0 <= k < r.len() && r[k] == i as usize;
            if k >= p.len() {
                assert(r[k] == (ws.len() - 1) as usize);
            } else {
                assert(r[k] == p[k]);
            }
        }
    } else {
        if workflow_matches(ws[i], needle) {
            assert(r[p.len() as int] == i as usize);
        }
        if r.contains(i as usize) {
            let k = choose|k: int| 0 <= k < r.len() && r[k] == i as usize;
            if k < p.len() {
                assert(r[k] == p[k]);
            }
        }
    }
}

proof fn lemma_matching_workflows_below(ws: Seq<WorkflowSummaryView>, needle: Seq<char>)
    requires
        ws.len() <= usize::MAX,
    ensures
        forall|k: int|
            0 <= k < matching_workflows(ws, needle).len() ==> #[trigger] matching_workflows(ws, needle)[k] < ws.len(),
    decreases ws.len(),
{
    if ws.len() > 0 {
        lemma_matching_workflows_below(ws.drop_last(), needle);
        let p = matching_workflows(ws.drop_last(), needle);
        let r = matching_workflows(ws, needle);
        assert forall|k: int| 0 <= k < r.len() implies #[trigger] r[k] < ws.len() by {
            if k < p.len() {
                assert(r[k] == p[k]);
            }
        }
    }
}

/// Which workflows the search lists: with an empty search every workflow;
/// else a workflow is listed exactly when the lowered search text occurs in
/// its lowered name or in its lowered description.
pub proof fn lemma_filter_workflows(s: AppView, i: int)
    requires
        s.workflows.len() <= usize::MAX,
        0 <= i < s.workflows.len(),
    ensures
        filtered(s).filtered_workflows.contains(i as usize) <==> (s.search.len() == 0 || contains(
            ascii_lower(s.workflows[i].name),
            ascii_lower(s.search),
        ) || contains(ascii_lower(s.workflows[i].description), ascii_lower(s.search))),
{
    lemma_matching_workflows_members(s.workflows, ascii_lower(s.search), i);
}

} // verus!
