//! Comparing data versions: a structural diff of JSON values, a line diff of
//! text, and the choice of how content is shown.
use vstd::prelude::*;
use vstd::string::*;
use crate::json::{get, json_eq, json_equal, key_index, key_less, key_lt, keys_sorted, wf, Json, JsonValue};
use crate::json_text::{json_compact, compact_text, nat_text, json_pretty, pretty_text, u64_text};
use crate::text::{
    join, join_strings, lemma_split_join, lemma_text_lines_one_line, one_line, push_char, split_lines, split_newline,
    starts_with, str_eq, text_lines, views,
};

verus! {

/// The pieces concatenated in order.
pub open spec fn concat_all(parts: Seq<Seq<Seq<char>>>) -> Seq<Seq<char>>
    decreases parts.len(),
{
    if parts.len() == 0 {
        Seq::empty()
    } else {
        concat_all(parts.drop_last()) + parts.last()
    }
}

pub open spec fn member_keys(es: Seq<(Seq<char>, Json)>) -> Seq<Seq<char>> {
    Seq::new(es.len(), |i: int| es[i].0)
}

/// The keys of two key-ordered objects merged in order, each once
/// (the `BTreeSet` of both objects' keys).
pub open spec fn merge_keys(a: Seq<Seq<char>>, b: Seq<Seq<char>>) -> Seq<Seq<char>>
    decreases a.len() + b.len(),
{
    if a.len() == 0 {
        b
    } else if b.len() == 0 {
        a
    } else if a[0] == b[0] {
        seq![a[0]] + merge_keys(a.drop_first(), b.drop_first())
    } else if key_lt(a[0], b[0]) {
        seq![a[0]] + merge_keys(a.drop_first(), b)
    } else {
        seq![b[0]] + merge_keys(a, b.drop_first())
    }
}

/// The line reported when two leaves (or values of different shapes) differ.
pub open spec fn change_line(path: Seq<char>, a: Json, b: Json) -> Seq<Seq<char>> {
    if json_equal(a, b) {
        Seq::empty()
    } else {
        seq!["~ "@ + path + ": "@ + json_compact(a) + " -> "@ + json_compact(b)]
    }
}

pub open spec fn removed_line(path: Seq<char>, a: Json) -> Seq<char> {
    "- "@ + path + " = "@ + json_compact(a)
}

pub open spec fn added_line(path: Seq<char>, b: Json) -> Seq<char> {
    "+ "@ + path + " = "@ + json_compact(b)
}

/// The lines of the structural diff of `a` against `b` at `path`.
pub open spec fn diff_lines(path: Seq<char>, a: Json, b: Json) -> Seq<Seq<char>>
    decreases a, 3nat,
{
    match a {
        Json::Object(l) => match b {
            Json::Object(r) => object_diff(path, l, r),
            _ => change_line(path, a, b),
        },
        Json::Array(l) => match b {
            Json::Array(r) => array_diff(path, l, r),
            _ => change_line(path, a, b),
        },
        _ => change_line(path, a, b),
    }
}

pub open spec fn object_diff(path: Seq<char>, l: Seq<(Seq<char>, Json)>, r: Seq<(Seq<char>, Json)>) -> Seq<
    Seq<char>,
>
    decreases l, 2nat,
{
    concat_all(object_diff_parts(path, l, r))
}

pub open spec fn object_diff_parts(
    path: Seq<char>,
    l: Seq<(Seq<char>, Json)>,
    r: Seq<(Seq<char>, Json)>,
) -> Seq<Seq<Seq<char>>>
    decreases l, 1nat,
{
    let keys = merge_keys(member_keys(l), member_keys(r));
    Seq::new(
        keys.len(),
        |i: int|
            if 0 <= i < keys.len() {
                key_diff(path + "."@ + keys[i], keys[i], l, r)
            } else {
                Seq::empty()
            },
    )
}

pub open spec fn key_diff(
    child: Seq<char>,
    k: Seq<char>,
    l: Seq<(Seq<char>, Json)>,
    r: Seq<(Seq<char>, Json)>,
) -> Seq<Seq<char>>
    decreases l, 0nat,
{
    let p = key_index(l, k);
    let q = key_index(r, k);
    if 0 <= p < l.len() {
        if 0 <= q < r.len() {
            diff_lines(child, l[p].1, r[q].1)
        } else {
            seq![removed_line(child, l[p].1)]
        }
    } else if 0 <= q < r.len() {
        seq![added_line(child, r[q].1)]
    } else {
        Seq::empty()
    }
}

pub open spec fn array_diff(path: Seq<char>, l: Seq<Json>, r: Seq<Json>) -> Seq<Seq<char>>
    decreases l, 2nat,
{
    concat_all(array_diff_parts(path, l, r))
}

pub open spec fn max_len(a: nat, b: nat) -> nat {
    if a >= b {
        a
    } else {
        b
    }
}

pub open spec fn array_diff_parts(path: Seq<char>, l: Seq<Json>, r: Seq<Json>) -> Seq<Seq<Seq<char>>>
    decreases l, 1nat,
{
    let n = max_len(l.len(), r.len());
    Seq::new(
        n,
        |i: int|
            if 0 <= i < n {
                index_diff(path + "["@ + nat_text(i as nat) + "]"@, i, l, r)
            } else {
                Seq::empty()
            },
    )
}

pub open spec fn index_diff(child: Seq<char>, i: int, l: Seq<Json>, r: Seq<Json>) -> Seq<Seq<char>>
    decreases l, 0nat,
{
    if 0 <= i < l.len() {
        if i < r.len() {
            diff_lines(child, l[i], r[i])
        } else {
            seq![removed_line(child, l[i])]
        }
    } else if 0 <= i < r.len() {
        seq![added_line(child, r[i])]
    } else {
        Seq::empty()
    }
}

/// What `json_diff` returns for the diff lines it found.
pub open spec fn diff_report(lines: Seq<Seq<char>>) -> Seq<char> {
    if lines.len() == 0 {
        "No differences"@
    } else {
        join(lines, "\n"@)
    }
}

} // verus!

verus! {

fn merge_key_lists(l: &Vec<(String, JsonValue)>, r: &Vec<(String, JsonValue)>, Ghost(lv): Ghost<
    Seq<(Seq<char>, Json)>,
>, Ghost(rv): Ghost<Seq<(Seq<char>, Json)>>) -> (keys: Vec<String>)
    requires
        lv.len() == l@.len(),
        rv.len() == r@.len(),
        forall|i: int| 0 <= i < l@.len() ==> (#[trigger] lv[i]).0 == l@[i].0@,
        forall|i: int| 0 <= i < r@.len() ==> (#[trigger] rv[i]).0 == r@[i].0@,
    ensures
        views(keys@) == merge_keys(member_keys(lv), member_keys(rv)),
{
    let ghost ka = member_keys(lv);
    let ghost kb = member_keys(rv);
    let mut out: Vec<String> = Vec::new();
    let mut i: usize = 0;
    let mut j: usize = 0;
    proof {
        assert(ka.skip(0) =~= ka);
        assert(kb.skip(0) =~= kb);
        assert(views(out@) =~= Seq::empty());
    }
    while i < l.len() || j < r.len()
        invariant
            i <= l.len(),
            j <= r.len(),
            ka == member_keys(lv),
            kb == member_keys(rv),
            lv.len() == l@.len(),
            rv.len() == r@.len(),
            forall|k: int| 0 <= k < l@.len() ==> (#[trigger] lv[k]).0 == l@[k].0@,
            forall|k: int| 0 <= k < r@.len() ==> (#[trigger] rv[k]).0 == r@[k].0@,
            views(out@) + merge_keys(ka.skip(i as int), kb.skip(j as int)) == merge_keys(ka, kb),
        decreases l.len() + r.len() - i - j,
    {
        let ghost rest_a = ka.skip(i as int);
        let ghost rest_b = kb.skip(j as int);
        let ghost before = views(out@);
        if i == l.len() {
            out.push(r[j].0.clone());
            proof {
                assert(rest_b[0] == r@[j as int].0@);
                assert(rest_b.drop_first() =~= kb.skip(j as int + 1));
                assert(rest_a.len() == 0);
                assert(merge_keys(rest_a, rest_b) == rest_b);
                assert(merge_keys(rest_a, kb.skip(j as int + 1)) == kb.skip(j as int + 1));
                assert(views(out@) =~= before.push(rest_b[0]));
                assert(rest_b =~= seq![rest_b[0]] + rest_b.drop_first());
            }
            j = j + 1;
        } else if j == r.len() {
            out.push(l[i].0.clone());
            proof {
                assert(rest_a[0] == l@[i as int].0@);
                assert(rest_a.drop_first() =~= ka.skip(i as int + 1));
                assert(rest_b.len() == 0);
                assert(views(out@) =~= before.push(rest_a[0]));
                assert(rest_a =~= seq![rest_a[0]] + rest_a.drop_first());
            }
            i = i + 1;
        } else if l[i].0 == r[j].0 {
            out.push(l[i].0.clone());
            proof {
                assert(rest_a[0] == l@[i as int].0@);
                assert(rest_b[0] == r@[j as int].0@);
                assert(rest_a.drop_first() =~= ka.skip(i as int + 1));
                assert(rest_b.drop_first() =~= kb.skip(j as int + 1));
                assert(views(out@) =~= before.push(rest_a[0]));
                assert(seq![rest_a[0]] + merge_keys(rest_a.drop_first(), rest_b.drop_first()) == merge_keys(
                    rest_a,
                    rest_b,
                ));
                assert(views(out@) + merge_keys(ka.skip(i as int + 1), kb.skip(j as int + 1)) =~= before
                    + merge_keys(rest_a, rest_b));
            }
            i = i + 1;
            j = j + 1;
        } else if key_less(l[i].0.as_str(), r[j].0.as_str()) {
            out.push(l[i].0.clone());
            proof {
                assert(rest_a[0] == l@[i as int].0@);
                assert(rest_b[0] == r@[j as int].0@);
                assert(rest_a.drop_first() =~= ka.skip(i as int + 1));
                assert(views(out@) =~= before.push(rest_a[0]));
                assert(seq![rest_a[0]] + merge_keys(rest_a.drop_first(), rest_b) == merge_keys(rest_a, rest_b));
                assert(views(out@) + merge_keys(ka.skip(i as int + 1), kb.skip(j as int)) =~= before
                    + merge_keys(rest_a, rest_b));
            }
            i = i + 1;
        } else {
            out.push(r[j].0.clone());
            proof {
                assert(rest_a[0] == l@[i as int].0@);
                assert(rest_b[0] == r@[j as int].0@);
                assert(rest_b.drop_first() =~= kb.skip(j as int + 1));
                assert(views(out@) =~= before.push(rest_b[0]));
                assert(seq![rest_b[0]] + merge_keys(rest_a, rest_b.drop_first()) == merge_keys(rest_a, rest_b));
                assert(views(out@) + merge_keys(ka.skip(i as int), kb.skip(j as int + 1)) =~= before
                    + merge_keys(rest_a, rest_b));
            }
            j = j + 1;
        }
    }
    proof {
        assert(ka.skip(i as int).len() == 0);
        assert(kb.skip(j as int).len() == 0);
        assert(merge_keys(ka.skip(i as int), kb.skip(j as int)) =~= Seq::empty());
        assert(views(out@) =~= merge_keys(ka, kb));
    }
    out
}

} // verus!

verus! {

fn line_with_value(prefix: &str, path: &String, sep: &str, v: &JsonValue) -> (r: String)
    ensures
        r@ == prefix@ + path@ + sep@ + json_compact(v@),
{
    let mut s = String::from_str(prefix);
    s.append(path.as_str());
    s.append(sep);
    let t = compact_text(v);
    s.append(t.as_str());
    s
}

proof fn lemma_concat_all_step(parts: Seq<Seq<Seq<char>>>, i: int)
    requires
        0 <= i < parts.len(),
    ensures
        concat_all(parts.take(i + 1)) == concat_all(parts.take(i)) + parts[i],
{
    assert(parts.take(i + 1).drop_last() =~= parts.take(i));
}

fn compare_json(path: &String, before: &JsonValue, after: &JsonValue, lines: &mut Vec<String>)
    requires
        wf(before@),
        wf(after@),
    ensures
        views(final(lines)@) == views(old(lines)@) + diff_lines(path@, before@, after@),
    decreases before,
{
    let ghost start = views(lines@);
    match (before, after) {
        (JsonValue::Object(l), JsonValue::Object(r)) => {
            let ghost lv = before@->Object_0;
            let ghost rv = after@->Object_0;
            proof {
                assert forall|k: int| 0 <= k < l@.len() implies (#[trigger] lv[k]).0 == l@[k].0@ by {
                    assert(lv[k] == (l@[k].0@, l@[k].1@));
                }
                assert forall|k: int| 0 <= k < r@.len() implies (#[trigger] rv[k]).0 == r@[k].0@ by {
                    assert(rv[k] == (r@[k].0@, r@[k].1@));
                }
            }
            let keys = merge_key_lists(l, r, Ghost(lv), Ghost(rv));
            let ghost parts = object_diff_parts(path@, lv, rv);
            let mut i: usize = 0;
            proof {
                assert(parts.take(0) =~= Seq::<Seq<Seq<char>>>::empty());
                assert(views(lines@) =~= start + concat_all(parts.take(0)));
            }
            while i < keys.len()
                invariant
                    i <= keys.len(),
                    *before == JsonValue::Object(*l),
                    *after == JsonValue::Object(*r),
                    lv == before@->Object_0,
                    rv == after@->Object_0,
                    wf(before@),
                    wf(after@),
                    views(keys@) == merge_keys(member_keys(lv), member_keys(rv)),
                    parts == object_diff_parts(path@, lv, rv),
                    parts.len() == keys.len(),
                    views(lines@) == start + concat_all(parts.take(i as int)),
                decreases keys.len() - i,
            {
                let ghost k = keys@[i as int]@;
                let ghost prev = views(lines@);
                let mut child = path.clone();
                child.append(".");
                child.append(keys[i].as_str());
                proof {
                    assert(parts[i as int] == key_diff(path@ + "."@ + k, k, lv, rv));
                    lemma_concat_all_step(parts, i as int);
                }
                let pl = before.position(keys[i].as_str());
                let pr = after.position(keys[i].as_str());
                match pl {
                    Some(p) => {
                        proof {
                            assert(lv[p as int] == (l@[p as int].0@, l@[p as int].1@));
                            assert(wf(lv[p as int].1));
                        }
                        match pr {
                            Some(q) => {
                                proof {
                                    assert(rv[q as int] == (r@[q as int].0@, r@[q as int].1@));
                                    assert(wf(rv[q as int].1));
                                    assert(decreases_to!(*before => before->Object_0));
                                    assert(decreases_to!(before->Object_0 => l@));
                                    assert(decreases_to!(l@ => l@[p as int]));
                                    assert(decreases_to!(l@[p as int] => l@[p as int].1));
                                }
                                compare_json(&child, &l[p].1, &r[q].1, lines);
                                proof {
                                    assert(key_index(lv, k) == p as int);
                                    assert(key_index(rv, k) == q as int);
                                    assert(views(lines@) =~= prev + parts[i as int]);
                                }
                            },
                            None => {
                                let line = line_with_value("- ", &child, " = ", &l[p].1);
                                lines.push(line);
                                proof {
                                    assert(key_index(lv, k) == p as int);
                                    assert(key_index(rv, k) == -1);
                                    assert(views(lines@) =~= prev + parts[i as int]);
                                }
                            },
                        }
                    },
                    None => {
                        match pr {
                            Some(q) => {
                                proof {
                                    assert(rv[q as int] == (r@[q as int].0@, r@[q as int].1@));
                                }
                                let line = line_with_value("+ ", &child, " = ", &r[q].1);
                                lines.push(line);
                                proof {
                                    assert(key_index(lv, k) == -1);
                                    assert(key_index(rv, k) == q as int);
                                    assert(views(lines@) =~= prev + parts[i as int]);
                                }
                            },
                            None => {
                                proof {
                                    assert(key_index(lv, k) == -1);
                                    assert(key_index(rv, k) == -1);
                                    assert(views(lines@) =~= prev + parts[i as int]);
                                }
                            },
                        }
                    },
                }
                proof {
                    assert(views(lines@) =~= start + concat_all(parts.take(i as int + 1)));
                }
                i = i + 1;
            }
            proof {
                assert(parts.take(keys.len() as int) =~= parts);
                assert(before@ == Json::Object(lv));
                assert(after@ == Json::Object(rv));
            }
        },
        (JsonValue::Array(l), JsonValue::Array(r)) => {
            let ghost lv = before@->Array_0;
            let ghost rv = after@->Array_0;
            let n = if l.len() >= r.len() {
                l.len()
            } else {
                r.len()
            };
            let ghost parts = array_diff_parts(path@, lv, rv);
            let mut i: usize = 0;
            proof {
                assert(parts.take(0) =~= Seq::<Seq<Seq<char>>>::empty());
                assert(views(lines@) =~= start + concat_all(parts.take(0)));
            }
            while i < n
                invariant
                    i <= n,
                    n == max_len(l@.len(), r@.len()),
                    *before == JsonValue::Array(*l),
                    *after == JsonValue::Array(*r),
                    lv == before@->Array_0,
                    rv == after@->Array_0,
                    wf(before@),
                    wf(after@),
                    parts == array_diff_parts(path@, lv, rv),
                    views(lines@) == start + concat_all(parts.take(i as int)),
                decreases n - i,
            {
                let mut child = path.clone();
                child.append("[");
                let num = u64_text(i as u64);
                child.append(num.as_str());
                child.append("]");
                let ghost prev = views(lines@);
                proof {
                    assert(child@ == path@ + "["@ + nat_text(i as nat) + "]"@);
                    assert(parts[i as int] == index_diff(child@, i as int, lv, rv));
                    lemma_concat_all_step(parts, i as int);
                    assert(lv.len() == l@.len());
                    assert(rv.len() == r@.len());
                }
                if i < l.len() {
                    if i < r.len() {
                        proof {
                            assert(wf(lv[i as int]));
                            assert(wf(rv[i as int]));
                            assert(decreases_to!(*before => before->Array_0));
                            assert(decreases_to!(before->Array_0 => l@));
                            assert(decreases_to!(l@ => l@[i as int]));
                        }
                        compare_json(&child, &l[i], &r[i], lines);
                        proof {
                            assert(views(lines@) =~= prev + parts[i as int]);
                        }
                    } else {
                        let line = line_with_value("- ", &child, " = ", &l[i]);
                        lines.push(line);
                        proof {
                            assert(views(lines@) =~= prev + parts[i as int]);
                        }
                    }
                } else if i < r.len() {
                    let line = line_with_value("+ ", &child, " = ", &r[i]);
                    lines.push(line);
                    proof {
                        assert(views(lines@) =~= prev + parts[i as int]);
                    }
                } else {
                    proof {
                        assert(views(lines@) =~= prev + parts[i as int]);
                    }
                }
                proof {
                    assert(views(lines@) =~= start + concat_all(parts.take(i as int + 1)));
                }
                i = i + 1;
            }
            proof {
                assert(parts.take(n as int) =~= parts);
                assert(before@ == Json::Array(lv));
                assert(after@ == Json::Array(rv));
            }
        },
        _ => {
            if !json_eq(before, after) {
                let mut s = String::from_str("~ ");
                s.append(path.as_str());
                s.append(": ");
                let a = compact_text(before);
                s.append(a.as_str());
                s.append(" -> ");
                let b = compact_text(after);
                s.append(b.as_str());
                lines.push(s);
                proof {
                    assert(views(lines@) =~= start.push(s@));
                }
            } else {
                proof {
                    assert(views(lines@) =~= start + Seq::<Seq<char>>::empty());
                }
            }
            proof {
                assert(!(before@ is Object && after@ is Object));
                assert(!(before@ is Array && after@ is Array));
            }
        },
    }
}

/// The structural diff of two JSON values: one line per changed leaf
/// (`~ path: old -> new`), removed member (`- path = old`) or added member
/// (`+ path = new`), paths starting at `$`; `No differences` when there are none.
pub fn json_diff(before: &JsonValue, after: &JsonValue) -> (r: String)
    requires
        wf(before@),
        wf(after@),
    ensures
        r@ == diff_report(diff_lines("$"@, before@, after@)),
{
    let mut lines: Vec<String> = Vec::new();
    let root = String::from_str("$");
    compare_json(&root, before, after, &mut lines);
    proof {
        assert(views(lines@) =~= diff_lines("$"@, before@, after@));
    }
    if lines.len() == 0 {
        String::from_str("No differences")
    } else {
        join_strings(&lines, "\n")
    }
}

} // verus!

verus! {

/// Length of the longest common subsequence of `a[i..]` and `b[j..]`.
pub open spec fn lcs(a: Seq<Seq<char>>, b: Seq<Seq<char>>, i: int, j: int) -> nat
    decreases (a.len() - i) + (b.len() - j),
{
    if i < 0 || j < 0 || i >= a.len() || j >= b.len() {
        0
    } else if a[i] == b[j] {
        lcs(a, b, i + 1, j + 1) + 1
    } else {
        let down = lcs(a, b, i + 1, j);
        let right = lcs(a, b, i, j + 1);
        if down >= right {
            down
        } else {
            right
        }
    }
}

/// The edit script from `a[i..]` to `b[j..]`: `' '` keeps a common line,
/// `'+'` adds a line of `b`, `'-'` removes a line of `a`. Common lines are
/// taken first; otherwise an addition when it loses no common line.
pub open spec fn edit_script(a: Seq<Seq<char>>, b: Seq<Seq<char>>, i: int, j: int) -> Seq<(char, Seq<char>)>
    decreases (a.len() - i) + (b.len() - j),
{
    if i < 0 || j < 0 || i > a.len() || j > b.len() || (i == a.len() && j == b.len()) {
        Seq::empty()
    } else if i < a.len() && j < b.len() && a[i] == b[j] {
        seq![(' ', a[i])] + edit_script(a, b, i + 1, j + 1)
    } else if j < b.len() && (i == a.len() || lcs(a, b, i, j + 1) >= lcs(a, b, i + 1, j)) {
        seq![('+', b[j])] + edit_script(a, b, i, j + 1)
    } else {
        seq![('-', a[i])] + edit_script(a, b, i + 1, j)
    }
}

pub open spec fn op_line(op: (char, Seq<char>)) -> Seq<char> {
    seq![op.0] + op.1
}

pub open spec fn op_lines(ops: Seq<(char, Seq<char>)>) -> Seq<Seq<char>> {
    Seq::new(ops.len(), |i: int| op_line(ops[i]))
}

/// The unified line diff that `text_diff` returns.
pub open spec fn text_diff_spec(
    before_label: Seq<char>,
    before: Seq<char>,
    after_label: Seq<char>,
    after: Seq<char>,
) -> Seq<char> {
    let header = seq!["--- "@ + before_label, "+++ "@ + after_label];
    join(header + op_lines(edit_script(text_lines(before), text_lines(after), 0, 0)), "\n"@)
}

/// The lines an edit script keeps from one side: those tagged `' '` or `tag`.
pub open spec fn side(ops: Seq<(char, Seq<char>)>, tag: char) -> Seq<Seq<char>>
    decreases ops.len(),
{
    if ops.len() == 0 {
        Seq::empty()
    } else if ops[0].0 == ' ' || ops[0].0 == tag {
        seq![ops[0].1] + side(ops.drop_first(), tag)
    } else {
        side(ops.drop_first(), tag)
    }
}

/// The number of lines an edit script keeps in common.
pub open spec fn common_count(ops: Seq<(char, Seq<char>)>) -> nat
    decreases ops.len(),
{
    if ops.len() == 0 {
        0
    } else if ops[0].0 == ' ' {
        1 + common_count(ops.drop_first())
    } else {
        common_count(ops.drop_first())
    }
}

proof fn lemma_side_prepend(op: (char, Seq<char>), rest: Seq<(char, Seq<char>)>, tag: char)
    ensures
        side(seq![op] + rest, tag) == if op.0 == ' ' || op.0 == tag {
            seq![op.1] + side(rest, tag)
        } else {
            side(rest, tag)
        },
        common_count(seq![op] + rest) == if op.0 == ' ' {
            1 + common_count(rest)
        } else {
            common_count(rest)
        },
{
    assert((seq![op] + rest).drop_first() =~= rest);
}

/// A text diff loses nothing: the kept and removed lines are the old text,
/// the kept and added lines are the new text, and the kept lines are as many
/// as the longest common subsequence of the two.
pub proof fn lemma_edit_script_sides(a: Seq<Seq<char>>, b: Seq<Seq<char>>, i: int, j: int)
    requires
        0 <= i <= a.len(),
        0 <= j <= b.len(),
    ensures
        side(edit_script(a, b, i, j), '-') == a.skip(i),
        side(edit_script(a, b, i, j), '+') == b.skip(j),
        common_count(edit_script(a, b, i, j)) == lcs(a, b, i, j),
    decreases (a.len() - i) + (b.len() - j),
{
    if i >= a.len() && j >= b.len() {
        assert(a.skip(i) =~= Seq::empty());
        assert(b.skip(j) =~= Seq::empty());
    } else if i < a.len() && j < b.len() && a[i] == b[j] {
        lemma_edit_script_sides(a, b, i + 1, j + 1);
        lemma_side_prepend((' ', a[i]), edit_script(a, b, i + 1, j + 1), '-');
        lemma_side_prepend((' ', a[i]), edit_script(a, b, i + 1, j + 1), '+');
        assert(a.skip(i) =~= seq![a[i]] + a.skip(i + 1));
        assert(b.skip(j) =~= seq![b[j]] + b.skip(j + 1));
    } else if j < b.len() && (i == a.len() || lcs(a, b, i, j + 1) >= lcs(a, b, i + 1, j)) {
        lemma_edit_script_sides(a, b, i, j + 1);
        lemma_side_prepend(('+', b[j]), edit_script(a, b, i, j + 1), '-');
        lemma_side_prepend(('+', b[j]), edit_script(a, b, i, j + 1), '+');
        assert(b.skip(j) =~= seq![b[j]] + b.skip(j + 1));
    } else {
        lemma_edit_script_sides(a, b, i + 1, j);
        lemma_side_prepend(('-', a[i]), edit_script(a, b, i + 1, j), '-');
        lemma_side_prepend(('-', a[i]), edit_script(a, b, i + 1, j), '+');
        assert(a.skip(i) =~= seq![a[i]] + a.skip(i + 1));
    }
}

proof fn lemma_lcs_bounded(a: Seq<Seq<char>>, b: Seq<Seq<char>>, i: int, j: int)
    requires
        0 <= i <= a.len(),
        0 <= j <= b.len(),
    ensures
        lcs(a, b, i, j) <= a.len() - i,
    decreases (a.len() - i) + (b.len() - j),
{
    if i < a.len() && j < b.len() {
        lemma_lcs_bounded(a, b, i + 1, j + 1);
        lemma_lcs_bounded(a, b, i + 1, j);
        lemma_lcs_bounded(a, b, i, j + 1);
    }
}

/// A unified line diff of two texts: a `--- before_label` and a
/// `+++ after_label` header, then one line per edit, prefixed with `' '`,
/// `'+'` or `'-'`.
pub fn text_diff(before_label: &str, before: &str, after_label: &str, after: &str) -> (r: String)
    ensures
        r@ == text_diff_spec(before_label@, before@, after_label@, after@),
{
    let left = split_lines(before);
    let right = split_lines(after);
    let ghost a = views(left@);
    let ghost b = views(right@);
    let n = left.len();
    let m = right.len();
    // rows[x] holds lcs(a, b, n - x, _) for every column.
    let mut zeros: Vec<usize> = Vec::new();
    let mut z: usize = 0;
    while z < m
        invariant
            z <= m,
            zeros.len() == z,
            forall|y: int| 0 <= y < z ==> zeros@[y] == 0usize,
        decreases m - z,
    {
        zeros.push(0);
        z = z + 1;
    }
    zeros.push(0);
    let mut rows: Vec<Vec<usize>> = Vec::new();
    rows.push(zeros);
    proof {
        assert forall|y: int| 0 <= y <= m implies (#[trigger] rows@[0]@[y]) as int == lcs(a, b, n - 0, y) by {
        }
    }
    let mut c: usize = 0;
    while c < n
        invariant
            c <= n,
            n == left.len(),
            m == right.len(),
            a == views(left@),
            b == views(right@),
            rows.len() == c + 1,
            forall|x: int| 0 <= x <= c ==> (#[trigger] rows@[x]).len() == m + 1,
            forall|x: int, y: int|
                0 <= x <= c && 0 <= y <= m ==> (#[trigger] rows@[x]@[y]) as int == lcs(a, b, n - x, y),
        decreases n - c,
    {
        let i = n - 1 - c;
        let mut row: Vec<usize> = Vec::new();
        let mut z: usize = 0;
        while z < m
            invariant
                z <= m,
                row.len() == z,
            decreases m - z,
        {
            row.push(0);
            z = z + 1;
        }
        row.push(0);
        let mut j: usize = m;
        while j > 0
            invariant
                j <= m,
                i == n - 1 - c,
                c < n,
                n == left.len(),
                m == right.len(),
                a == views(left@),
                b == views(right@),
                rows.len() == c + 1,
                row.len() == m + 1,
                forall|x: int| 0 <= x <= c ==> (#[trigger] rows@[x]).len() == m + 1,
                forall|x: int, y: int|
                    0 <= x <= c && 0 <= y <= m ==> (#[trigger] rows@[x]@[y]) as int == lcs(a, b, n - x, y),
                j == m ==> row@[m as int] == 0usize,
                forall|y: int| j <= y <= m ==> (#[trigger] row@[y]) as int == lcs(a, b, i as int, y),
            decreases j,
        {
            let jj = j - 1;
            proof {
                lemma_lcs_bounded(a, b, i as int + 1, jj as int + 1);
                assert(rows@[c as int]@[jj as int + 1] as int == lcs(a, b, i as int + 1, jj as int + 1));
                assert(rows@[c as int]@[jj as int] as int == lcs(a, b, i as int + 1, jj as int));
                assert(a[i as int] == left@[i as int]@);
                assert(b[jj as int] == right@[jj as int]@);
            }
            let value = if left[i] == right[jj] {
                rows[c][jj + 1] + 1
            } else {
                let down = rows[c][jj];
                let across = row[jj + 1];
                if down >= across {
                    down
                } else {
                    across
                }
            };
            proof {
                assert(value as int == lcs(a, b, i as int, jj as int));
            }
            row.set(jj, value);
            j = jj;
        }
        rows.push(row);
        c = c + 1;
    }
    // lcs(a, b, i, j) == rows[n - i][j]
    let mut ops: Vec<String> = Vec::new();
    let mut i: usize = 0;
    let mut j: usize = 0;
    let ghost script = edit_script(a, b, 0, 0);
    proof {
        assert(op_lines(Seq::empty()) =~= Seq::<Seq<char>>::empty());
        assert(Seq::<(char, Seq<char>)>::empty() + edit_script(a, b, 0, 0) =~= script);
    }
    let ghost mut done: Seq<(char, Seq<char>)> = Seq::empty();
    while i < n || j < m
        invariant
            i <= n,
            j <= m,
            n == left.len(),
            m == right.len(),
            a == views(left@),
            b == views(right@),
            rows.len() == n + 1,
            forall|x: int| 0 <= x <= n ==> (#[trigger] rows@[x]).len() == m + 1,
            forall|x: int, y: int|
                0 <= x <= n && 0 <= y <= m ==> (#[trigger] rows@[x]@[y]) as int == lcs(a, b, n - x, y),
            script == edit_script(a, b, 0, 0),
            done + edit_script(a, b, i as int, j as int) == script,
            views(ops@) == op_lines(done),
        decreases (n - i) + (m - j),
    {
        let ghost rest = edit_script(a, b, i as int, j as int);
        let ghost old_ops = views(ops@);
        if i < n && j < m && left[i] == right[j] {
            let mut line = String::new();
            push_char(&mut line, ' ');
            line.append(left[i].as_str());
            ops.push(line);
            proof {
                assert(rest == seq![(' ', a[i as int])] + edit_script(a, b, i as int + 1, j as int + 1));
                assert(views(ops@) =~= old_ops.push(op_line((' ', a[i as int]))));
                done = done.push((' ', a[i as int]));
            }
            i = i + 1;
            j = j + 1;
        } else if j < m && (i == n || rows[n - i][j + 1] >= rows[n - i - 1][j]) {
            proof {
                if i < n {
                    assert(rows@[n - i]@[j + 1] as int == lcs(a, b, i as int, j as int + 1));
                    assert(rows@[n - i - 1]@[j as int] as int == lcs(a, b, i as int + 1, j as int));
                }
            }
            let mut line = String::new();
            push_char(&mut line, '+');
            line.append(right[j].as_str());
            ops.push(line);
            proof {
                assert(rest == seq![('+', b[j as int])] + edit_script(a, b, i as int, j as int + 1));
                assert(views(ops@) =~= old_ops.push(op_line(('+', b[j as int]))));
                done = done.push(('+', b[j as int]));
            }
            j = j + 1;
        } else {
            proof {
                if j < m {
                    assert(rows@[n - i]@[j + 1] as int == lcs(a, b, i as int, j as int + 1));
                    assert(rows@[n - i - 1]@[j as int] as int == lcs(a, b, i as int + 1, j as int));
                }
            }
            let mut line = String::new();
            push_char(&mut line, '-');
            line.append(left[i].as_str());
            ops.push(line);
            proof {
                assert(rest == seq![('-', a[i as int])] + edit_script(a, b, i as int + 1, j as int));
                assert(views(ops@) =~= old_ops.push(op_line(('-', a[i as int]))));
                done = done.push(('-', a[i as int]));
            }
            i = i + 1;
        }
        proof {
            assert(views(ops@) =~= op_lines(done));
            assert(done + edit_script(a, b, i as int, j as int) =~= script);
        }
    }
    proof {
        assert(edit_script(a, b, i as int, j as int) =~= Seq::empty());
        assert(done =~= script);
    }
    let mut output: Vec<String> = Vec::new();
    let mut h1 = String::from_str("--- ");
    h1.append(before_label);
    output.push(h1);
    let mut h2 = String::from_str("+++ ");
    h2.append(after_label);
    output.push(h2);
    let mut t: usize = 0;
    while t < ops.len()
        invariant
            t <= ops.len(),
            output.len() == t + 2,
            output@[0]@ == "--- "@ + before_label@,
            output@[1]@ == "+++ "@ + after_label@,
            forall|x: int| 2 <= x < t + 2 ==> (#[trigger] output@[x])@ == ops@[x - 2]@,
            views(ops@) == op_lines(script),
        decreases ops.len() - t,
    {
        output.push(ops[t].clone());
        t = t + 1;
    }
    proof {
        let header = seq!["--- "@ + before_label@, "+++ "@ + after_label@];
        assert(views(output@) =~= header + op_lines(script));
    }
    join_strings(&output, "\n")
}

} // verus!

verus! {

/// The text shown for content of the given type: pretty JSON for JSON (and
/// for any value that is not a string), the string itself for text and YAML,
/// nothing for other (binary) types.
pub open spec fn display_content_spec(content_type: Seq<char>, content: Json) -> Option<Seq<char>> {
    if content_type == "application/json"@ || !(content is Str) {
        Some(json_pretty(content))
    } else if "text/"@.is_prefix_of(content_type) || content_type == "application/yaml"@ || content_type
        == "application/x-yaml"@ {
        Some(content->Str_0)
    } else {
        None
    }
}

pub fn display_content(content_type: &str, content: &JsonValue) -> (r: Option<String>)
    ensures
        match r {
            Some(s) => display_content_spec(content_type@, content@) == Some(s@),
            None => display_content_spec(content_type@, content@) is None,
        },
{
    if str_eq(content_type, "application/json") || !content.is_string() {
        Some(pretty_text(content))
    } else if starts_with(content_type, "text/") || str_eq(content_type, "application/yaml") || str_eq(
        content_type,
        "application/x-yaml",
    ) {
        match content.as_str() {
            Some(s) => Some(s.clone()),
            None => None,
        }
    } else {
        None
    }
}

} // verus!

verus! {

proof fn lemma_json_equal_refl(a: Json)
    ensures
        json_equal(a, a),
    decreases a,
{
    match a {
        Json::Array(xs) => {
            assert forall|i: int| 0 <= i < xs.len() implies json_equal(#[trigger] xs[i], xs[i]) by {
                lemma_json_equal_refl(xs[i]);
            }
        },
        Json::Object(es) => {
            assert forall|i: int| 0 <= i < es.len() implies (#[trigger] es[i]).0 == es[i].0 && json_equal(
                es[i].1,
                es[i].1,
            ) by {
                lemma_json_equal_refl(es[i].1);
            }
        },
        _ => {},
    }
}

proof fn lemma_merge_self(a: Seq<Seq<char>>)
    ensures
        merge_keys(a, a) == a,
    decreases a.len(),
{
    if a.len() > 0 {
        lemma_merge_self(a.drop_first());
        assert(seq![a[0]] + a.drop_first() =~= a);
    }
}

proof fn lemma_concat_all_empty(parts: Seq<Seq<Seq<char>>>)
    requires
        forall|i: int| 0 <= i < parts.len() ==> (#[trigger] parts[i]).len() == 0,
    ensures
        concat_all(parts).len() == 0,
    decreases parts.len(),
{
    if parts.len() > 0 {
        lemma_concat_all_empty(parts.drop_last());
    }
}

/// A value compared with itself shows no differences: the structural diff
/// of a well-formed value against itself has no lines, at any path.
pub proof fn lemma_diff_self(path: Seq<char>, a: Json)
    requires
        wf(a),
    ensures
        diff_lines(path, a, a).len() == 0,
    decreases a,
{
    lemma_json_equal_refl(a);
    match a {
        Json::Object(l) => {
            let keys = merge_keys(member_keys(l), member_keys(l));
            lemma_merge_self(member_keys(l));
            let parts = object_diff_parts(path, l, l);
            assert forall|i: int| 0 <= i < parts.len() implies (#[trigger] parts[i]).len() == 0 by {
                assert(keys[i] == l[i].0);
                crate::json::lemma_get_at(l, l[i].0, i);
                lemma_diff_self(path + "."@ + keys[i], l[i].1);
            }
            lemma_concat_all_empty(parts);
        },
        Json::Array(l) => {
            let parts = array_diff_parts(path, l, l);
            assert forall|i: int| 0 <= i < parts.len() implies (#[trigger] parts[i]).len() == 0 by {
                lemma_diff_self(path + "["@ + nat_text(i as nat) + "]"@, l[i]);
            }
            lemma_concat_all_empty(parts);
        },
        _ => {},
    }
}

} // verus!

verus! {

/// The lines of a unified diff that belong to one side: those starting with
/// `' '` or `tag`, without that first character.
pub open spec fn marked_lines(ls: Seq<Seq<char>>, tag: char) -> Seq<Seq<char>>
    decreases ls.len(),
{
    if ls.len() == 0 {
        Seq::empty()
    } else if ls[0].len() > 0 && (ls[0][0] == ' ' || ls[0][0] == tag) {
        seq![ls[0].drop_first()] + marked_lines(ls.drop_first(), tag)
    } else {
        marked_lines(ls.drop_first(), tag)
    }
}

proof fn lemma_marked_op_lines(ops: Seq<(char, Seq<char>)>, tag: char)
    ensures
        marked_lines(op_lines(ops), tag) == side(ops, tag),
    decreases ops.len(),
{
    if ops.len() > 0 {
        lemma_marked_op_lines(ops.drop_first(), tag);
        assert(op_lines(ops).drop_first() =~= op_lines(ops.drop_first()));
        assert(op_lines(ops)[0].drop_first() =~= ops[0].1);
    }
}

proof fn lemma_script_ops(a: Seq<Seq<char>>, b: Seq<Seq<char>>, i: int, j: int)
    ensures
        forall|k: int|
            0 <= k < edit_script(a, b, i, j).len() ==> {
                let op = #[trigger] edit_script(a, b, i, j)[k];
                &&& (op.0 == ' ' || op.0 == '+' || op.0 == '-')
                &&& (a.contains(op.1) || b.contains(op.1))
            },
    decreases (a.len() - i) + (b.len() - j),
{
    let e = edit_script(a, b, i, j);
    if i < 0 || j < 0 || i > a.len() || j > b.len() || (i == a.len() && j == b.len()) {
    } else if i < a.len() && j < b.len() && a[i] == b[j] {
        lemma_script_ops(a, b, i + 1, j + 1);
        assert(a.contains(a[i]));
        assert forall|k: int| 1 <= k < e.len() implies e[k] == edit_script(a, b, i + 1, j + 1)[k - 1] by {}
    } else if j < b.len() && (i == a.len() || lcs(a, b, i, j + 1) >= lcs(a, b, i + 1, j)) {
        lemma_script_ops(a, b, i, j + 1);
        assert(b.contains(b[j]));
        assert forall|k: int| 1 <= k < e.len() implies e[k] == edit_script(a, b, i, j + 1)[k - 1] by {}
    } else {
        lemma_script_ops(a, b, i + 1, j);
        assert(a.contains(a[i]));
        assert forall|k: int| 1 <= k < e.len() implies e[k] == edit_script(a, b, i + 1, j)[k - 1] by {}
    }
}

/// A text diff, read back line by line, loses nothing: split at line breaks
/// it is the two header lines, then lines each starting with `' '`, `'+'`
/// or `'-'`; those starting with `' '` or `'-'` are the old text's lines,
/// and those starting with `' '` or `'+'` the new text's (each without its
/// first character).
pub proof fn lemma_text_diff_lines(
    before_label: Seq<char>,
    before: Seq<char>,
    after_label: Seq<char>,
    after: Seq<char>,
)
    requires
        one_line(before_label),
        one_line(after_label),
    ensures
        ({
            let ls = split_newline(text_diff_spec(before_label, before, after_label, after));
            &&& ls.len() >= 2
            &&& ls[0] == "--- "@ + before_label
            &&& ls[1] == "+++ "@ + after_label
            &&& forall|i: int| 2 <= i < ls.len() ==> (#[trigger] ls[i]).len() > 0 && (ls[i][0] == ' ' || ls[i][0] == '+'
                || ls[i][0] == '-')
            &&& marked_lines(ls.skip(2), '-') == text_lines(before)
            &&& marked_lines(ls.skip(2), '+') == text_lines(after)
        }),
{
    reveal_strlit("--- ");
    reveal_strlit("+++ ");
    let a = text_lines(before);
    let b = text_lines(after);
    let ops = edit_script(a, b, 0, 0);
    lemma_text_lines_one_line(before);
    lemma_text_lines_one_line(after);
    lemma_script_ops(a, b, 0, 0);
    let header = seq!["--- "@ + before_label, "+++ "@ + after_label];
    let parts = header + op_lines(ops);
    assert forall|k: int| 0 <= k < parts.len() implies one_line(#[trigger] parts[k]) by {
        if k >= 2 {
            let op = ops[k - 2];
            assert(parts[k] == seq![op.0] + op.1);
            if a.contains(op.1) {
                let w = choose|w: int| 0 <= w < a.len() && a[w] == op.1;
                assert(one_line(a[w]));
            } else {
                let w = choose|w: int| 0 <= w < b.len() && b[w] == op.1;
                assert(one_line(b[w]));
            }
            assert forall|c: int| 0 <= c < parts[k].len() implies parts[k][c] != '\n' by {
                if c > 0 {
                    assert(parts[k][c] == op.1[c - 1]);
                }
            }
        }
    }
    lemma_split_join(parts);
    let ls = split_newline(text_diff_spec(before_label, before, after_label, after));
    assert(ls == parts);
    assert(ls.skip(2) =~= op_lines(ops));
    assert forall|i: int| 2 <= i < ls.len() implies (#[trigger] ls[i]).len() > 0 && (ls[i][0] == ' ' || ls[i][0]
        == '+' || ls[i][0] == '-') by {
        assert(ls[i] == seq![ops[i - 2].0] + ops[i - 2].1);
    }
    lemma_marked_op_lines(ops, '-');
    lemma_marked_op_lines(ops, '+');
    lemma_edit_script_sides(a, b, 0, 0);
    assert(a.skip(0) =~= a);
    assert(b.skip(0) =~= b);
}

} // verus!
