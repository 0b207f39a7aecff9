//! The structural diff as a list of findings, and what exchanging the two
//! compared values does to it.
use vstd::prelude::*;
use crate::diff::{
    added_line, array_diff, array_diff_parts, change_line, concat_all, diff_lines, index_diff, key_diff, max_len,
    member_keys, merge_keys, object_diff, object_diff_parts, removed_line,
};
use crate::json::{json_equal, key_index, key_lt, lemma_key_lt_asymmetric, lemma_key_lt_total, Json};
use crate::json_text::{json_compact, nat_text};

verus! {

/// One finding of the structural diff, at a path.
pub enum DiffEntry {
    /// Both sides hold a value there, and the two differ.
    Changed(Seq<char>, Json, Json),
    /// Only the first side holds a value there.
    Removed(Seq<char>, Json),
    /// Only the second side holds a value there.
    Added(Seq<char>, Json),
}

/// The report line of a finding.
pub open spec fn entry_line(e: DiffEntry) -> Seq<char> {
    match e {
        DiffEntry::Changed(p, a, b) => "~ "@ + p + ": "@ + json_compact(a) + " -> "@ + json_compact(b),
        DiffEntry::Removed(p, a) => removed_line(p, a),
        DiffEntry::Added(p, b) => added_line(p, b),
    }
}

pub open spec fn entry_lines(es: Seq<DiffEntry>) -> Seq<Seq<char>> {
    es.map_values(|e: DiffEntry| entry_line(e))
}

/// The same finding seen from the other side.
pub open spec fn swap_entry(e: DiffEntry) -> DiffEntry {
    match e {
        DiffEntry::Changed(p, a, b) => DiffEntry::Changed(p, b, a),
        DiffEntry::Removed(p, a) => DiffEntry::Added(p, a),
        DiffEntry::Added(p, b) => DiffEntry::Removed(p, b),
    }
}

pub open spec fn swap_entries(es: Seq<DiffEntry>) -> Seq<DiffEntry> {
    es.map_values(|e: DiffEntry| swap_entry(e))
}

pub open spec fn concat_entries(parts: Seq<Seq<DiffEntry>>) -> Seq<DiffEntry>
    decreases parts.len(),
{
    if parts.len() == 0 {
        Seq::empty()
    } else {
        concat_entries(parts.drop_last()) + parts.last()
    }
}

pub open spec fn change_entry(path: Seq<char>, a: Json, b: Json) -> Seq<DiffEntry> {
    if json_equal(a, b) {
        Seq::empty()
    } else {
        seq![DiffEntry::Changed(path, a, b)]
    }
}

/// The findings of the structural diff of `a` against `b` at `path`, in the
/// order in which the diff reports them.
pub open spec fn diff_entries(path: Seq<char>, a: Json, b: Json) -> Seq<DiffEntry>
    decreases a, 3nat,
{
    match a {
        Json::Object(l) => match b {
            Json::Object(r) => object_entries(path, l, r),
            _ => change_entry(path, a, b),
        },
        Json::Array(l) => match b {
            Json::Array(r) => array_entries(path, l, r),
            _ => change_entry(path, a, b),
        },
        _ => change_entry(path, a, b),
    }
}

pub open spec fn object_entries(path: Seq<char>, l: Seq<(Seq<char>, Json)>, r: Seq<(Seq<char>, Json)>) -> Seq<
    DiffEntry,
>
    decreases l, 2nat,
{
    concat_entries(object_entry_parts(path, l, r))
}

pub open spec fn object_entry_parts(
    path: Seq<char>,
    l: Seq<(Seq<char>, Json)>,
    r: Seq<(Seq<char>, Json)>,
) -> Seq<Seq<DiffEntry>>
    decreases l, 1nat,
{
    let keys = merge_keys(member_keys(l), member_keys(r));
    Seq::new(
        keys.len(),
        |i: int|
            if 0 <= i < keys.len() {
                key_entries(path + "."@ + keys[i], keys[i], l, r)
            } else {
                Seq::empty()
            },
    )
}

pub open spec fn key_entries(
    child: Seq<char>,
    k: Seq<char>,
    l: Seq<(Seq<char>, Json)>,
    r: Seq<(Seq<char>, Json)>,
) -> Seq<DiffEntry>
    decreases l, 0nat,
{
    let p = key_index(l, k);
    let q = key_index(r, k);
    if 0 <= p < l.len() {
        if 0 <= q < r.len() {
            diff_entries(child, l[p].1, r[q].1)
        } else {
            seq![DiffEntry::Removed(child, l[p].1)]
        }
    } else if 0 <= q < r.len() {
        seq![DiffEntry::Added(child, r[q].1)]
    } else {
        Seq::empty()
    }
}

pub open spec fn array_entries(path: Seq<char>, l: Seq<Json>, r: Seq<Json>) -> Seq<DiffEntry>
    decreases l, 2nat,
{
    concat_entries(array_entry_parts(path, l, r))
}

pub open spec fn array_entry_parts(path: Seq<char>, l: Seq<Json>, r: Seq<Json>) -> Seq<Seq<DiffEntry>>
    decreases l, 1nat,
{
    let n = max_len(l.len(), r.len());
    Seq::new(
        n,
        |i: int|
            if 0 <= i < n {
                index_entries(path + "["@ + nat_text(i as nat) + "]"@, i, l, r)
            } else {
                Seq::empty()
            },
    )
}

pub open spec fn index_entries(child: Seq<char>, i: int, l: Seq<Json>, r: Seq<Json>) -> Seq<DiffEntry>
    decreases l, 0nat,
{
    if 0 <= i < l.len() {
        if i < r.len() {
            diff_entries(child, l[i], r[i])
        } else {
            seq![DiffEntry::Removed(child, l[i])]
        }
    } else if 0 <= i < r.len() {
        seq![DiffEntry::Added(child, r[i])]
    } else {
        Seq::empty()
    }
}

proof fn lemma_lines_concat(pl: Seq<Seq<Seq<char>>>, pe: Seq<Seq<DiffEntry>>)
    requires
        pl.len() == pe.len(),
        forall|i: int| 0 <= i < pl.len() ==> #[trigger] pl[i] == entry_lines(pe[i]),
    ensures
        concat_all(pl) == entry_lines(concat_entries(pe)),
    decreases pl.len(),
{
    if pl.len() == 0 {
        assert(entry_lines(Seq::<DiffEntry>::empty()) =~= Seq::<Seq<char>>::empty());
    } else {
        let (il, ie) = (pl.drop_last(), pe.drop_last());
        assert forall|i: int| 0 <= i < il.len() implies #[trigger] il[i] == entry_lines(ie[i]) by {
            assert(il[i] == pl[i]);
        }
        lemma_lines_concat(il, ie);
        assert(pl.last() == pl[pl.len() - 1]);
        assert(entry_lines(concat_entries(ie) + pe.last()) =~= entry_lines(concat_entries(ie)) + entry_lines(
            pe.last(),
        ));
    }
}

proof fn lemma_swap_concat(pe: Seq<Seq<DiffEntry>>, ps: Seq<Seq<DiffEntry>>)
    requires
        ps.len() == pe.len(),
        forall|i: int| 0 <= i < ps.len() ==> #[trigger] ps[i] == swap_entries(pe[i]),
    ensures
        concat_entries(ps) == swap_entries(concat_entries(pe)),
    decreases ps.len(),
{
    if ps.len() == 0 {
        assert(swap_entries(Seq::<DiffEntry>::empty()) =~= Seq::<DiffEntry>::empty());
    } else {
        let (is, ie) = (ps.drop_last(), pe.drop_last());
        assert forall|i: int| 0 <= i < is.len() implies #[trigger] is[i] == swap_entries(ie[i]) by {
            assert(is[i] == ps[i]);
        }
        lemma_swap_concat(ie, is);
        assert(ps.last() == ps[ps.len() - 1]);
        assert(swap_entries(concat_entries(ie) + pe.last()) =~= swap_entries(concat_entries(ie)) + swap_entries(
            pe.last(),
        ));
    }
}

proof fn lemma_merge_keys_symmetric(a: Seq<Seq<char>>, b: Seq<Seq<char>>)
    ensures
        merge_keys(a, b) == merge_keys(b, a),
    decreases a.len() + b.len(),
{
    if a.len() > 0 && b.len() > 0 {
        if a[0] == b[0] {
            lemma_merge_keys_symmetric(a.drop_first(), b.drop_first());
        } else {
            lemma_key_lt_asymmetric(a[0], b[0]);
            lemma_key_lt_total(a[0], b[0]);
            if key_lt(a[0], b[0]) {
                lemma_merge_keys_symmetric(a.drop_first(), b);
            } else {
                lemma_merge_keys_symmetric(a, b.drop_first());
            }
        }
    }
}

proof fn lemma_json_equal_symmetric(a: Json, b: Json)
    ensures
        json_equal(a, b) == json_equal(b, a),
    decreases a,
{
    match a {
        Json::Array(xs) => match b {
            Json::Array(ys) => {
                if xs.len() == ys.len() {
                    assert forall|i: int| 0 <= i < xs.len() implies json_equal(#[trigger] xs[i], ys[i]) == json_equal(
                        ys[i],
                        xs[i],
                    ) by {
                        lemma_json_equal_symmetric(xs[i], ys[i]);
                    }
                }
            },
            _ => {},
        },
        Json::Object(xs) => match b {
            Json::Object(ys) => {
                if xs.len() == ys.len() {
                    assert forall|i: int| 0 <= i < xs.len() implies json_equal(#[trigger] xs[i].1, ys[i].1)
                        == json_equal(ys[i].1, xs[i].1) by {
                        lemma_json_equal_symmetric(xs[i].1, ys[i].1);
                    }
                }
            },
            _ => {},
        },
        _ => {},
    }
}

proof fn lemma_change_entry(path: Seq<char>, a: Json, b: Json)
    ensures
        change_line(path, a, b) == entry_lines(change_entry(path, a, b)),
        change_entry(path, b, a) == swap_entries(change_entry(path, a, b)),
{
    lemma_json_equal_symmetric(a, b);
    assert(entry_lines(change_entry(path, a, b)) =~= change_line(path, a, b));
    assert(swap_entries(change_entry(path, a, b)) =~= change_entry(path, b, a));
}

proof fn lemma_one_entry(e: DiffEntry)
    ensures
        entry_lines(seq![e]) == seq![entry_line(e)],
        swap_entries(seq![e]) == seq![swap_entry(e)],
{
    assert(entry_lines(seq![e]) =~= seq![entry_line(e)]);
    assert(swap_entries(seq![e]) =~= seq![swap_entry(e)]);
}

proof fn lemma_no_entry()
    ensures
        entry_lines(Seq::empty()) == Seq::<Seq<char>>::empty(),
        swap_entries(Seq::empty()) == Seq::<DiffEntry>::empty(),
{
    assert(entry_lines(Seq::empty()) =~= Seq::<Seq<char>>::empty());
    assert(swap_entries(Seq::empty()) =~= Seq::<DiffEntry>::empty());
}

proof fn lemma_diff_entries(path: Seq<char>, a: Json, b: Json)
    ensures
        diff_lines(path, a, b) == entry_lines(diff_entries(path, a, b)),
        diff_entries(path, b, a) == swap_entries(diff_entries(path, a, b)),
    decreases a, 3nat,
{
    match a {
        Json::Object(l) => match b {
            Json::Object(r) => lemma_object_entries(path, l, r),
            _ => lemma_change_entry(path, a, b),
        },
        Json::Array(l) => match b {
            Json::Array(r) => lemma_array_entries(path, l, r),
            _ => lemma_change_entry(path, a, b),
        },
        _ => lemma_change_entry(path, a, b),
    }
}

proof fn lemma_object_entries(path: Seq<char>, l: Seq<(Seq<char>, Json)>, r: Seq<(Seq<char>, Json)>)
    ensures
        object_diff(path, l, r) == entry_lines(object_entries(path, l, r)),
        object_entries(path, r, l) == swap_entries(object_entries(path, l, r)),
    decreases l, 2nat,
{
    let keys = merge_keys(member_keys(l), member_keys(r));
    lemma_merge_keys_symmetric(member_keys(l), member_keys(r));
    let pl = object_diff_parts(path, l, r);
    let pe = object_entry_parts(path, l, r);
    let ps = object_entry_parts(path, r, l);
    assert forall|i: int| 0 <= i < keys.len() implies #[trigger] pl[i] == entry_lines(pe[i]) && ps[i]
        == swap_entries(pe[i]) by {
        lemma_key_entries(path + "."@ + keys[i], keys[i], l, r);
    }
    assert forall|i: int| 0 <= i < ps.len() implies #[trigger] ps[i] == swap_entries(pe[i]) by {
        assert(pl[i] == entry_lines(pe[i]));
    }
    lemma_lines_concat(pl, pe);
    lemma_swap_concat(pe, ps);
}

proof fn lemma_key_entries(child: Seq<char>, k: Seq<char>, l: Seq<(Seq<char>, Json)>, r: Seq<(Seq<char>, Json)>)
    ensures
        key_diff(child, k, l, r) == entry_lines(key_entries(child, k, l, r)),
        key_entries(child, k, r, l) == swap_entries(key_entries(child, k, l, r)),
    decreases l, 0nat,
{
    let p = key_index(l, k);
    let q = key_index(r, k);
    if 0 <= p < l.len() {
        if 0 <= q < r.len() {
            lemma_diff_entries(child, l[p].1, r[q].1);
        } else {
            lemma_one_entry(DiffEntry::Removed(child, l[p].1));
        }
    } else if 0 <= q < r.len() {
        lemma_one_entry(DiffEntry::Added(child, r[q].1));
    } else {
        lemma_no_entry();
    }
}

proof fn lemma_array_entries(path: Seq<char>, l: Seq<Json>, r: Seq<Json>)
    ensures
        array_diff(path, l, r) == entry_lines(array_entries(path, l, r)),
        array_entries(path, r, l) == swap_entries(array_entries(path, l, r)),
    decreases l, 2nat,
{
    let n = max_len(l.len(), r.len());
    let pl = array_diff_parts(path, l, r);
    let pe = array_entry_parts(path, l, r);
    let ps = array_entry_parts(path, r, l);
    assert forall|i: int| 0 <= i < n implies #[trigger] pl[i] == entry_lines(pe[i]) && ps[i] == swap_entries(
        pe[i],
    ) by {
        lemma_index_entries(path + "["@ + nat_text(i as nat) + "]"@, i, l, r);
    }
    assert forall|i: int| 0 <= i < ps.len() implies #[trigger] ps[i] == swap_entries(pe[i]) by {
        assert(pl[i] == entry_lines(pe[i]));
    }
    lemma_lines_concat(pl, pe);
    lemma_swap_concat(pe, ps);
}

proof fn lemma_index_entries(child: Seq<char>, i: int, l: Seq<Json>, r: Seq<Json>)
    ensures
        index_diff(child, i, l, r) == entry_lines(index_entries(child, i, l, r)),
        index_entries(child, i, r, l) == swap_entries(index_entries(child, i, l, r)),
    decreases l, 0nat,
{
    if 0 <= i < l.len() {
        if i < r.len() {
            lemma_diff_entries(child, l[i], r[i]);
        } else {
            lemma_one_entry(DiffEntry::Removed(child, l[i]));
        }
    } else if 0 <= i < r.len() {
        lemma_one_entry(DiffEntry::Added(child, r[i]));
    } else {
        lemma_no_entry();
    }
}

/// The structural diff's lines are its findings written one per line; and
/// comparing the two values the other way round gives the same findings in
/// the same order, each seen from the other side: a change from `x` to `y`
/// becomes a change from `y` to `x` at the same path, a removal becomes an
/// addition of the same value, and an addition a removal.
pub proof fn lemma_json_diff_swap(path: Seq<char>, before: Json, after: Json)
    ensures
        diff_lines(path, before, after) == entry_lines(diff_entries(path, before, after)),
        diff_lines(path, after, before) == entry_lines(swap_entries(diff_entries(path, before, after))),
{
    lemma_diff_entries(path, before, after);
    lemma_diff_entries(path, after, before);
}

} // verus!
