//! Positions in a payload, and what redaction keeps: everything but the
//! values that the schema marks secret.
use vstd::prelude::*;
use crate::json::{get, key_lt, keys_sorted, lemma_get_at, lemma_key_absent, wf, Json};
use crate::schema::{is_secret, redacted, redacted_items, redacted_marker, redacted_members};

verus! {

/// One step into a JSON value: an object member by key, or an array
/// element by index.
pub enum PathStep {
    Key(Seq<char>),
    Index(int),
}

/// The value one step below `v`, if there is one.
pub open spec fn child_value(v: Json, step: PathStep) -> Option<Json> {
    match step {
        PathStep::Key(k) => match v {
            Json::Object(_) => get(v, k),
            _ => None,
        },
        PathStep::Index(i) => match v {
            Json::Array(xs) => if 0 <= i < xs.len() {
                Some(xs[i])
            } else {
                None
            },
            _ => None,
        },
    }
}

/// The value at a path, if the path leads anywhere.
pub open spec fn value_at(v: Json, path: Seq<PathStep>) -> Option<Json>
    decreases path.len(),
{
    if path.len() == 0 {
        Some(v)
    } else {
        match child_value(v, path[0]) {
            Some(c) => value_at(c, path.drop_first()),
            None => None,
        }
    }
}

/// The schema one step below: `properties[k]` for a member, `items` for an
/// element.
pub open spec fn child_schema(schema: Json, step: PathStep) -> Option<Json> {
    match step {
        PathStep::Key(k) => match get(schema, "properties"@) {
            Some(Json::Object(ps)) => get(Json::Object(ps), k),
            _ => None,
        },
        PathStep::Index(_) => get(schema, "items"@),
    }
}

/// No schema met along the path, from the root to its end, marks its value
/// secret.
pub open spec fn clear_path(schema: Json, path: Seq<PathStep>) -> bool
    decreases path.len(),
{
    !is_secret(schema) && (path.len() == 0 || match child_schema(schema, path[0]) {
        Some(c) => clear_path(c, path.drop_first()),
        None => true,
    })
}

/// The schema at the end of the path marks its value secret, and none
/// before it does.
pub open spec fn secret_at(schema: Json, path: Seq<PathStep>) -> bool
    decreases path.len(),
{
    if path.len() == 0 {
        is_secret(schema)
    } else {
        !is_secret(schema) && match child_schema(schema, path[0]) {
            Some(c) => secret_at(c, path.drop_first()),
            None => false,
        }
    }
}

pub open spec fn member_keys_of(es: Seq<(Seq<char>, Json)>) -> Seq<Seq<char>> {
    Seq::new(es.len(), |i: int| es[i].0)
}

/// `y` has the outline of `x`: the same keys in the same order for an
/// object, the same length for an array, the same value otherwise.
pub open spec fn same_outline(x: Json, y: Json) -> bool {
    match x {
        Json::Object(es) => y is Object && member_keys_of(y->Object_0) == member_keys_of(es),
        Json::Array(xs) => y is Array && y->Array_0.len() == xs.len(),
        _ => y == x,
    }
}

proof fn lemma_same_path(v: Json, path: Seq<PathStep>)
    ensures
        value_at(v, path) matches Some(x) ==> same_outline(x, x),
{
    match value_at(v, path) {
        Some(x) => {
            if x is Object {
                assert(member_keys_of(x->Object_0) =~= member_keys_of(x->Object_0));
            }
        },
        None => {},
    }
}

/// Where the schema opens no further, the rest of the path reads the same
/// in both values.
proof fn lemma_untouched_below(schema: Json, path: Seq<PathStep>)
    requires
        path.len() > 0,
        !is_secret(schema),
        child_schema(schema, path[0]) is None,
    ensures
        clear_path(schema, path),
        !secret_at(schema, path),
{
}

proof fn lemma_redacted_members_sorted(ps: Seq<(Seq<char>, Json)>, es: Seq<(Seq<char>, Json)>)
    requires
        keys_sorted(es),
    ensures
        keys_sorted(redacted_members(ps, es)),
        redacted_members(ps, es).len() == es.len(),
        forall|i: int| 0 <= i < es.len() ==> (#[trigger] redacted_members(ps, es)[i]).0 == es[i].0,
{
    let out = redacted_members(ps, es);
    assert forall|a: int, b: int| 0 <= a < b < out.len() implies key_lt(#[trigger] out[a].0, #[trigger] out[b].0) by {
        assert(out[a].0 == es[a].0);
        assert(out[b].0 == es[b].0);
    }
}

/// Redaction changes a payload only at the positions that the schema marks
/// secret (`writeOnly` or `format: password`, met through `properties` into
/// objects and `items` into arrays): it adds no position; at every position
/// reached without passing a secret schema the result keeps the payload's
/// outline (an object's keys in order, an array's length, any other value
/// itself); and at every secret position that the payload has, the result
/// holds `<redacted>`.
pub proof fn lemma_redaction_keeps_the_rest(schema: Json, v: Json, path: Seq<PathStep>)
    requires
        wf(v),
    ensures
        value_at(redacted(schema, v), path) is Some ==> value_at(v, path) is Some,
        clear_path(schema, path) && value_at(v, path) is Some ==> (value_at(redacted(schema, v), path) matches Some(
            y,
        ) && same_outline(value_at(v, path)->Some_0, y)),
        secret_at(schema, path) && value_at(v, path) is Some ==> value_at(redacted(schema, v), path) == Some(
            Json::Str(redacted_marker()),
        ),
    decreases path.len(),
{
    let r = redacted(schema, v);
    if path.len() == 0 {
        if !is_secret(schema) {
            match v {
                Json::Object(es) => match get(schema, "properties"@) {
                    Some(Json::Object(ps)) => {
                        lemma_redacted_members_sorted(ps, es);
                        assert(member_keys_of(redacted_members(ps, es)) =~= member_keys_of(es));
                    },
                    _ => lemma_same_path(v, path),
                },
                Json::Array(xs) => {},
                _ => {},
            }
        }
    } else if is_secret(schema) {
        assert(child_value(r, path[0]) is None);
    } else {
        let step = path[0];
        let rest = path.drop_first();
        match step {
            PathStep::Key(k) => match v {
                Json::Object(es) => match get(schema, "properties"@) {
                    Some(Json::Object(ps)) => {
                        let out = redacted_members(ps, es);
                        lemma_redacted_members_sorted(ps, es);
                        assert(r == Json::Object(out));
                        if exists|i: int| 0 <= i < es.len() && (#[trigger] es[i]).0 == k {
                            let i = choose|i: int| 0 <= i < es.len() && (#[trigger] es[i]).0 == k;
                            lemma_get_at(es, k, i);
                            lemma_get_at(out, k, i);
                            assert(wf(es[i].1));
                            match get(Json::Object(ps), k) {
                                Some(c) => {
                                    assert(out[i].1 == redacted(c, es[i].1));
                                    lemma_redaction_keeps_the_rest(c, es[i].1, rest);
                                },
                                None => {
                                    assert(out[i].1 == es[i].1);
                                    lemma_untouched_below(schema, path);
                                    lemma_same_path(es[i].1, rest);
                                },
                            }
                        } else {
                            lemma_key_absent(es, k);
                            assert forall|j: int| 0 <= j < out.len() implies (#[trigger] out[j]).0 != k by {
                                assert(out[j].0 == es[j].0);
                            }
                            lemma_key_absent(out, k);
                        }
                    },
                    _ => {
                        assert(r == v);
                        lemma_untouched_below(schema, path);
                        lemma_same_path(v, path);
                    },
                },
                Json::Array(xs) => {},
                _ => {
                    assert(r == v);
                },
            },
            PathStep::Index(i) => match v {
                Json::Array(xs) => match get(schema, "items"@) {
                    Some(item) => {
                        if 0 <= i < xs.len() {
                            assert(r == Json::Array(redacted_items(item, xs)));
                            assert(wf(xs[i]));
                            lemma_redaction_keeps_the_rest(item, xs[i], rest);
                        }
                    },
                    None => {
                        assert(r == v);
                        lemma_untouched_below(schema, path);
                        lemma_same_path(v, path);
                    },
                },
                Json::Object(es) => {},
                _ => {
                    assert(r == v);
                },
            },
        }
    }
}

} // verus!
