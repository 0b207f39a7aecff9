//! JSON values as the library holds them, their mathematical model, and the
//! queries the rest of the library makes of them.
use vstd::prelude::*;
use crate::text::str_eq;

verus! {

/// A JSON number: a non-negative integer, a negative integer, or a finite
/// binary float held as the decimal text that serde_json writes for it.
pub enum JsonNumber {
    PosInt(u64),
    NegInt(i64),
    Float(String),
}

/// A JSON value. Object members are held in a vector ordered by key.
pub enum JsonValue {
    Null,
    Bool(bool),
    Number(JsonNumber),
    String(String),
    Array(Vec<JsonValue>),
    Object(Vec<(String, JsonValue)>),
}

/// Model of a JSON number.
pub enum Num {
    PosInt(u64),
    NegInt(i64),
    Float(Seq<char>),
}

/// Model of a JSON value.
pub enum Json {
    Null,
    Bool(bool),
    Number(Num),
    Str(Seq<char>),
    Array(Seq<Json>),
    Object(Seq<(Seq<char>, Json)>),
}

pub open spec fn num_view(n: JsonNumber) -> Num {
    match n {
        JsonNumber::PosInt(u) => Num::PosInt(u),
        JsonNumber::NegInt(i) => Num::NegInt(i),
        JsonNumber::Float(t) => Num::Float(t@),
    }
}

pub open spec fn json_view(v: JsonValue) -> Json
    decreases v,
{
    match v {
        JsonValue::Null => Json::Null,
        JsonValue::Bool(b) => Json::Bool(b),
        JsonValue::Number(n) => Json::Number(num_view(n)),
        JsonValue::String(s) => Json::Str(s@),
        JsonValue::Array(a) => Json::Array(
            Seq::new(a@.len(), |i: int| if 0 <= i < a@.len() { json_view(a@[i]) } else { Json::Null }),
        ),
        JsonValue::Object(o) => Json::Object(
            Seq::new(
                o@.len(),
                |i: int|
                    if 0 <= i < o@.len() {
                        (o@[i].0@, json_view(o@[i].1))
                    } else {
                        (Seq::empty(), Json::Null)
                    },
            ),
        ),
    }
}

impl View for JsonNumber {
    type V = Num;

    open spec fn view(&self) -> Num {
        num_view(*self)
    }
}

impl View for JsonValue {
    type V = Json;

    open spec fn view(&self) -> Json {
        json_view(*self)
    }
}

/// Strict order on keys: lexicographic by character code, which is the
/// order of their UTF-8 bytes.
pub open spec fn key_lt(a: Seq<char>, b: Seq<char>) -> bool
    decreases a.len(),
{
    if a.len() == 0 {
        b.len() > 0
    } else if b.len() == 0 {
        false
    } else if a[0] != b[0] {
        (a[0] as int) < (b[0] as int)
    } else {
        key_lt(a.drop_first(), b.drop_first())
    }
}

/// Members strictly ordered by key (hence no key twice).
pub open spec fn keys_sorted(es: Seq<(Seq<char>, Json)>) -> bool {
    forall|i: int, j: int| 0 <= i < j < es.len() ==> key_lt(#[trigger] es[i].0, #[trigger] es[j].0)
}

/// Well-formed: every object, at every depth, has its members ordered by key.
pub open spec fn wf(j: Json) -> bool
    decreases j,
{
    match j {
        Json::Array(xs) => forall|i: int| 0 <= i < xs.len() ==> wf(#[trigger] xs[i]),
        Json::Object(es) => keys_sorted(es) && forall|i: int| 0 <= i < es.len() ==> wf(#[trigger] es[i].1),
        _ => true,
    }
}

/// The index of the member with the given key, or -1.
pub open spec fn key_index(es: Seq<(Seq<char>, Json)>, key: Seq<char>) -> int {
    if exists|i: int| 0 <= i < es.len() && (#[trigger] es[i]).0 == key {
        choose|i: int| 0 <= i < es.len() && (#[trigger] es[i]).0 == key
    } else {
        -1
    }
}

/// The member of an object with the given key (`Value::get` with a string key).
pub open spec fn get(j: Json, key: Seq<char>) -> Option<Json> {
    match j {
        Json::Object(es) => if 0 <= key_index(es, key) < es.len() {
            Some(es[key_index(es, key)].1)
        } else {
            None
        },
        _ => None,
    }
}

pub open spec fn get_str(j: Json, key: Seq<char>) -> Option<Seq<char>> {
    match get(j, key) {
        Some(Json::Str(s)) => Some(s),
        _ => None,
    }
}

pub open spec fn get_bool(j: Json, key: Seq<char>) -> Option<bool> {
    match get(j, key) {
        Some(Json::Bool(b)) => Some(b),
        _ => None,
    }
}

pub proof fn lemma_key_lt_irreflexive(a: Seq<char>)
    ensures
        !key_lt(a, a),
    decreases a.len(),
{
    if a.len() > 0 {
        lemma_key_lt_irreflexive(a.drop_first());
    }
}

pub proof fn lemma_key_lt_asymmetric(a: Seq<char>, b: Seq<char>)
    ensures
        key_lt(a, b) ==> !key_lt(b, a),
    decreases a.len(),
{
    if a.len() > 0 && b.len() > 0 && a[0] == b[0] {
        lemma_key_lt_asymmetric(a.drop_first(), b.drop_first());
    }
}

pub proof fn lemma_key_lt_transitive(a: Seq<char>, b: Seq<char>, c: Seq<char>)
    ensures
        key_lt(a, b) && key_lt(b, c) ==> key_lt(a, c),
    decreases a.len(),
{
    if a.len() > 0 && b.len() > 0 && c.len() > 0 && a[0] == b[0] && b[0] == c[0] {
        lemma_key_lt_transitive(a.drop_first(), b.drop_first(), c.drop_first());
    }
}

pub proof fn lemma_key_lt_total(a: Seq<char>, b: Seq<char>)
    ensures
        a != b ==> key_lt(a, b) || key_lt(b, a),
    decreases a.len(),
{
    if a.len() > 0 && b.len() > 0 && a[0] == b[0] {
        lemma_key_lt_total(a.drop_first(), b.drop_first());
        if a != b {
            assert(a.drop_first() != b.drop_first()) by {
                if a.drop_first() == b.drop_first() {
                    assert(a =~= seq![a[0]] + a.drop_first());
                    assert(b =~= seq![b[0]] + b.drop_first());
                }
            }
        }
    } else if a.len() == 0 && b.len() == 0 {
        assert(a =~= b);
    } else if a.len() > 0 && b.len() > 0 {
        assert(a[0] as int != b[0] as int);
    }
}

/// In an object whose keys are sorted, a matching index is the chosen one.
pub proof fn lemma_get_at(es: Seq<(Seq<char>, Json)>, key: Seq<char>, i: int)
    requires
        keys_sorted(es),
        0 <= i < es.len(),
        es[i].0 == key,
    ensures
        key_index(es, key) == i,
        get(Json::Object(es), key) == Some(es[i].1),
{
    assert(exists|k: int| 0 <= k < es.len() && (#[trigger] es[k]).0 == key);
    let k = choose|k: int| 0 <= k < es.len() && (#[trigger] es[k]).0 == key;
    assert(0 <= k < es.len() && es[k].0 == key);
    lemma_key_lt_irreflexive(key);
    if k < i {
        assert(key_lt(es[k].0, es[i].0));
    } else if i < k {
        assert(key_lt(es[i].0, es[k].0));
    }
}

/// No member has the key.
pub proof fn lemma_key_absent(es: Seq<(Seq<char>, Json)>, key: Seq<char>)
    requires
        forall|j: int| 0 <= j < es.len() ==> (#[trigger] es[j]).0 != key,
    ensures
        key_index(es, key) == -1,
        get(Json::Object(es), key) is None,
{
}

impl JsonValue {
    /// The index of the object member with the given key.
    pub fn position(&self, key: &str) -> (r: Option<usize>)
        requires
            wf(self@),
        ensures
            match r {
                Some(p) => self@ is Object && p < self@->Object_0.len() && p == key_index(self@->Object_0, key@)
                    && self is Object && p < self->Object_0@.len(),
                None => get(self@, key@) is None && (self@ is Object ==> key_index(self@->Object_0, key@)
                    == -1),
            },
    {
        match self {
            JsonValue::Object(es) => {
                let mut i: usize = 0;
                while i < es.len()
                    invariant
                        i <= es.len(),
                        *self == JsonValue::Object(*es),
                        wf(self@),
                        forall|j: int| 0 <= j < i ==> (#[trigger] es@[j]).0@ != key@,
                    decreases es.len() - i,
                {
                    if str_eq(es[i].0.as_str(), key) {
                        proof {
                            let m = self@->Object_0;
                            assert(self@ == Json::Object(m));
                            assert(keys_sorted(m));
                            assert(m[i as int] == (es@[i as int].0@, es@[i as int].1@));
                            lemma_get_at(m, key@, i as int);
                        }
                        return Some(i);
                    }
                    i = i + 1;
                }
                proof {
                    let m = self@->Object_0;
                    assert forall|j: int| 0 <= j < m.len() implies (#[trigger] m[j]).0 != key@ by {
                        assert(m[j] == (es@[j].0@, es@[j].1@));
                    }
                    lemma_key_absent(m, key@);
                }
                None
            },
            _ => None,
        }
    }

    /// `Value::get` with a string key.
    pub fn get(&self, key: &str) -> (r: Option<&JsonValue>)
        requires
            wf(self@),
        ensures
            match r {
                Some(v) => get(self@, key@) == Some(v@),
                None => get(self@, key@) is None,
            },
    {
        match self.position(key) {
            Some(p) => match self {
                JsonValue::Object(es) => {
                    proof {
                        assert(self@->Object_0[p as int] == (es@[p as int].0@, es@[p as int].1@));
                    }
                    Some(&es[p].1)
                },
                _ => None,
            },
            None => None,
        }
    }

    pub fn as_str(&self) -> (r: Option<&String>)
        ensures
            match r {
                Some(s) => self@ == Json::Str(s@),
                None => !(self@ is Str),
            },
    {
        match self {
            JsonValue::String(s) => Some(s),
            _ => None,
        }
    }

    pub fn as_bool(&self) -> (r: Option<bool>)
        ensures
            match r {
                Some(b) => self@ == Json::Bool(b),
                None => !(self@ is Bool),
            },
    {
        match self {
            JsonValue::Bool(b) => Some(*b),
            _ => None,
        }
    }

    pub fn is_string(&self) -> (r: bool)
        ensures
            r == self@ is Str,
    {
        match self {
            JsonValue::String(_) => true,
            _ => false,
        }
    }

    pub fn is_object(&self) -> (r: bool)
        ensures
            r == self@ is Object,
    {
        match self {
            JsonValue::Object(_) => true,
            _ => false,
        }
    }

    pub fn is_array(&self) -> (r: bool)
        ensures
            r == self@ is Array,
    {
        match self {
            JsonValue::Array(_) => true,
            _ => false,
        }
    }
}

} // verus!

verus! {

/// Whether a float's decimal text denotes zero (its digits before any
/// exponent are all `0`).
pub open spec fn float_is_zero(t: Seq<char>) -> bool {
    forall|i: int|
        0 <= i < t.len() && (forall|j: int| 0 <= j <= i ==> #[trigger] t[j] != 'e' && t[j] != 'E') ==> (
        t[i] == '0' || t[i] == '.' || t[i] == '-')
}

/// Number equality as `serde_json::Number`'s `==`: integers by value, floats
/// by their text, `0.0` and `-0.0` alike (for texts that serde_json writes,
/// one text per float, this is equality of the floats), never an integer
/// with a float.
pub open spec fn num_equal(a: Num, b: Num) -> bool {
    match (a, b) {
        (Num::PosInt(x), Num::PosInt(y)) => x == y,
        (Num::NegInt(x), Num::NegInt(y)) => x == y,
        (Num::Float(x), Num::Float(y)) => x == y || (float_is_zero(x) && float_is_zero(y)),
        _ => false,
    }
}

/// Value equality as `serde_json::Value`'s `==`.
pub open spec fn json_equal(a: Json, b: Json) -> bool
    decreases a,
{
    match a {
        Json::Null => b is Null,
        Json::Bool(x) => b == Json::Bool(x),
        Json::Number(x) => match b {
            Json::Number(y) => num_equal(x, y),
            _ => false,
        },
        Json::Str(x) => b == Json::Str(x),
        Json::Array(xs) => match b {
            Json::Array(ys) => xs.len() == ys.len() && forall|i: int|
                0 <= i < xs.len() ==> json_equal(#[trigger] xs[i], ys[i]),
            _ => false,
        },
        Json::Object(xs) => match b {
            Json::Object(ys) => xs.len() == ys.len() && forall|i: int|
                0 <= i < xs.len() ==> (#[trigger] xs[i]).0 == ys[i].0 && json_equal(xs[i].1, ys[i].1),
            _ => false,
        },
    }
}

fn float_text_is_zero(t: &String) -> (r: bool)
    ensures
        r == float_is_zero(t@),
{
    let cs = crate::text::chars_of(t.as_str());
    let mut i: usize = 0;
    while i < cs.len()
        invariant
            i <= cs.len(),
            cs@ == t@,
            forall|j: int| 0 <= j < i ==> #[trigger] cs@[j] != 'e' && cs@[j] != 'E',
            forall|j: int| 0 <= j < i ==> (#[trigger] cs@[j] == '0' || cs@[j] == '.' || cs@[j] == '-'),
        decreases cs.len() - i,
    {
        let c = cs[i];
        if c == 'e' || c == 'E' {
            return true;
        }
        if !(c == '0' || c == '.' || c == '-') {
            proof {
                let k = i as int;
                assert(forall|j: int| 0 <= j <= k ==> #[trigger] t@[j] != 'e' && t@[j] != 'E');
            }
            return false;
        }
        i = i + 1;
    }
    true
}

pub fn number_eq(a: &JsonNumber, b: &JsonNumber) -> (r: bool)
    ensures
        r == num_equal(a@, b@),
{
    match (a, b) {
        (JsonNumber::PosInt(x), JsonNumber::PosInt(y)) => *x == *y,
        (JsonNumber::NegInt(x), JsonNumber::NegInt(y)) => *x == *y,
        (JsonNumber::Float(x), JsonNumber::Float(y)) => {
            *x == *y || (float_text_is_zero(x) && float_text_is_zero(y))
        },
        _ => false,
    }
}

/// `serde_json::Value`'s `==`.
pub fn json_eq(a: &JsonValue, b: &JsonValue) -> (r: bool)
    ensures
        r == json_equal(a@, b@),
    decreases a,
{
    match (a, b) {
        (JsonValue::Null, JsonValue::Null) => true,
        (JsonValue::Bool(x), JsonValue::Bool(y)) => *x == *y,
        (JsonValue::Number(x), JsonValue::Number(y)) => number_eq(x, y),
        (JsonValue::String(x), JsonValue::String(y)) => *x == *y,
        (JsonValue::Array(xs), JsonValue::Array(ys)) => {
            if xs.len() != ys.len() {
                return false;
            }
            let mut i: usize = 0;
            while i < xs.len()
                invariant
                    i <= xs.len(),
                    xs.len() == ys.len(),
                    *a == JsonValue::Array(*xs),
                    *b == JsonValue::Array(*ys),
                    forall|k: int| 0 <= k < i ==> json_equal(#[trigger] a@->Array_0[k], b@->Array_0[k]),
                decreases xs.len() - i,
            {
                proof {
                    assert(decreases_to!(*a => a->Array_0));
                    assert(decreases_to!(a->Array_0 => xs@));
                    assert(decreases_to!(xs@ => xs@[i as int]));
                }
                if !json_eq(&xs[i], &ys[i]) {
                    proof {
                        assert(a@->Array_0[i as int] == xs@[i as int]@);
                        assert(b@->Array_0[i as int] == ys@[i as int]@);
                    }
                    return false;
                }
                proof {
                    assert(a@->Array_0[i as int] == xs@[i as int]@);
                    assert(b@->Array_0[i as int] == ys@[i as int]@);
                }
                i = i + 1;
            }
            true
        },
        (JsonValue::Object(xs), JsonValue::Object(ys)) => {
            if xs.len() != ys.len() {
                return false;
            }
            let mut i: usize = 0;
            while i < xs.len()
                invariant
                    i <= xs.len(),
                    xs.len() == ys.len(),
                    *a == JsonValue::Object(*xs),
                    *b == JsonValue::Object(*ys),
                    forall|k: int|
                        0 <= k < i ==> (#[trigger] a@->Object_0[k]).0 == b@->Object_0[k].0 && json_equal(
                            a@->Object_0[k].1,
                            b@->Object_0[k].1,
                        ),
                decreases xs.len() - i,
            {
                proof {
                    assert(decreases_to!(*a => a->Object_0));
                    assert(decreases_to!(a->Object_0 => xs@));
                    assert(decreases_to!(xs@ => xs@[i as int]));
                    assert(decreases_to!(xs@[i as int] => xs@[i as int].1));
                }
                proof {
                    assert(a@->Object_0[i as int] == (xs@[i as int].0@, xs@[i as int].1@));
                    assert(b@->Object_0[i as int] == (ys@[i as int].0@, ys@[i as int].1@));
                }
                if xs[i].0 != ys[i].0 {
                    return false;
                }
                if !json_eq(&xs[i].1, &ys[i].1) {
                    return false;
                }
                i = i + 1;
            }
            true
        },
        _ => false,
    }
}

} // verus!

verus! {

/// Key order on string slices: `key_lt`.
pub fn key_less(a: &str, b: &str) -> (r: bool)
    ensures
        r == key_lt(a@, b@),
{
    let xs = crate::text::chars_of(a);
    let ys = crate::text::chars_of(b);
    let mut i: usize = 0;
    proof {
        assert(a@.skip(0) =~= a@);
        assert(b@.skip(0) =~= b@);
    }
    while i < xs.len() && i < ys.len()
        invariant
            i <= xs.len(),
            i <= ys.len(),
            xs@ == a@,
            ys@ == b@,
            key_lt(a@, b@) == key_lt(a@.skip(i as int), b@.skip(i as int)),
        decreases xs.len() - i,
    {
        if xs[i] != ys[i] {
            proof {
                assert(a@.skip(i as int)[0] == xs@[i as int]);
                assert(b@.skip(i as int)[0] == ys@[i as int]);
            }
            return xs[i] < ys[i];
        }
        proof {
            assert(a@.skip(i as int).drop_first() =~= a@.skip(i as int + 1));
            assert(b@.skip(i as int).drop_first() =~= b@.skip(i as int + 1));
        }
        i = i + 1;
    }
    proof {
        assert(a@.skip(i as int).len() == 0 || b@.skip(i as int).len() == 0);
    }
    i == xs.len() && i < ys.len()
}

} // verus!

verus! {

/// A copy of a value.
pub fn clone_json(v: &JsonValue) -> (r: JsonValue)
    ensures
        r@ == v@,
    decreases v,
{
    match v {
        JsonValue::Null => JsonValue::Null,
        JsonValue::Bool(b) => JsonValue::Bool(*b),
        JsonValue::Number(n) => JsonValue::Number(
            match n {
                JsonNumber::PosInt(u) => JsonNumber::PosInt(*u),
                JsonNumber::NegInt(i) => JsonNumber::NegInt(*i),
                JsonNumber::Float(t) => JsonNumber::Float(t.clone()),
            },
        ),
        JsonValue::String(s) => JsonValue::String(s.clone()),
        JsonValue::Array(xs) => {
            let mut out: Vec<JsonValue> = Vec::new();
            let mut i: usize = 0;
            while i < xs.len()
                invariant
                    i <= xs.len(),
                    *v == JsonValue::Array(*xs),
                    out.len() == i,
                    forall|k: int| 0 <= k < i ==> (#[trigger] out@[k])@ == xs@[k]@,
                decreases xs.len() - i,
            {
                proof {
                    assert(decreases_to!(*v => v->Array_0));
                    assert(decreases_to!(v->Array_0 => xs@));
                    assert(decreases_to!(xs@ => xs@[i as int]));
                }
                out.push(clone_json(&xs[i]));
                i = i + 1;
            }
            proof {
                assert(json_view(JsonValue::Array(out))->Array_0 =~= v@->Array_0);
            }
            JsonValue::Array(out)
        },
        JsonValue::Object(es) => {
            let mut out: Vec<(String, JsonValue)> = Vec::new();
            let mut i: usize = 0;
            while i < es.len()
                invariant
                    i <= es.len(),
                    *v == JsonValue::Object(*es),
                    out.len() == i,
                    forall|k: int| 0 <= k < i ==> (#[trigger] out@[k]).0@ == es@[k].0@ && out@[k].1@ == es@[k].1@,
                decreases es.len() - i,
            {
                proof {
                    assert(decreases_to!(*v => v->Object_0));
                    assert(decreases_to!(v->Object_0 => es@));
                    assert(decreases_to!(es@ => es@[i as int]));
                    assert(decreases_to!(es@[i as int] => es@[i as int].1));
                }
                let k = es[i].0.clone();
                let c = clone_json(&es[i].1);
                out.push((k, c));
                i = i + 1;
            }
            proof {
                assert(json_view(JsonValue::Object(out))->Object_0 =~= v@->Object_0);
            }
            JsonValue::Object(out)
        },
    }
}

} // verus!

verus! {

/// Whether every object in a value, at every depth, has its members
/// ordered by key.
pub fn is_well_formed(v: &JsonValue) -> (r: bool)
    ensures
        r == wf(v@),
    decreases v,
{
    match v {
        JsonValue::Array(xs) => {
            let ghost m = v@->Array_0;
            let mut i: usize = 0;
            while i < xs.len()
                invariant
                    i <= xs.len(),
                    *v == JsonValue::Array(*xs),
                    m == v@->Array_0,
                    m.len() == xs.len(),
                    forall|k: int| 0 <= k < i ==> wf(#[trigger] m[k]),
                decreases xs.len() - i,
            {
                proof {
                    assert(decreases_to!(*v => v->Array_0));
                    assert(decreases_to!(v->Array_0 => xs@));
                    assert(decreases_to!(xs@ => xs@[i as int]));
                    assert(m[i as int] == xs@[i as int]@);
                }
                if !is_well_formed(&xs[i]) {
                    return false;
                }
                i = i + 1;
            }
            true
        },
        JsonValue::Object(es) => {
            let ghost m = v@->Object_0;
            let mut i: usize = 0;
            while i < es.len()
                invariant
                    i <= es.len(),
                    *v == JsonValue::Object(*es),
                    m == v@->Object_0,
                    m.len() == es.len(),
                    keys_sorted(m.take(i as int)),
                    forall|k: int| 0 <= k < i ==> wf(#[trigger] m[k].1),
                decreases es.len() - i,
            {
                proof {
                    assert(decreases_to!(*v => v->Object_0));
                    assert(decreases_to!(v->Object_0 => es@));
                    assert(decreases_to!(es@ => es@[i as int]));
                    assert(decreases_to!(es@[i as int] => es@[i as int].1));
                    assert(m[i as int] == (es@[i as int].0@, es@[i as int].1@));
                }
                if i > 0 {
                    proof {
                        assert(m[i as int - 1] == (es@[i as int - 1].0@, es@[i as int - 1].1@));
                    }
                    if !key_less(es[i - 1].0.as_str(), es[i].0.as_str()) {
                        proof {
                            assert(!key_lt(m[i as int - 1].0, m[i as int].0));
                            assert(!keys_sorted(m));
                        }
                        return false;
                    }
                }
                if !is_well_formed(&es[i].1) {
                    proof {
                        assert(!wf(m[i as int].1));
                    }
                    return false;
                }
                proof {
                    let t = m.take(i as int + 1);
                    assert forall|a: int, b: int| 0 <= a < b < t.len() implies key_lt(#[trigger] t[a].0, #[trigger] t[b].0) by {
                        if b < i {
                            assert(m.take(i as int)[a] == t[a] && m.take(i as int)[b] == t[b]);
                        } else if a < i - 1 {
                            assert(m.take(i as int)[a] == t[a]);
                            assert(m.take(i as int)[i - 1] == t[i - 1]);
                            lemma_key_lt_transitive(t[a].0, t[i - 1].0, t[b].0);
                        }
                    }
                }
                i = i + 1;
            }
            proof {
                assert(m.take(i as int) =~= m);
            }
            true
        },
        _ => true,
    }
}

} // verus!
