//! Method input forms derived from JSON Schemas: which fields a schema gives,
//! how field text becomes a payload, how a payload is checked against the
//! schema, and how secrets are kept out of the review screen.
use vstd::prelude::*;
use vstd::string::*;
use crate::text::{chars_of, clone_strings, contains_at, join, join_strings, str_eq, string_from_chars, views};
use crate::json::{
    clone_json, get, get_bool, get_str, json_equal, json_view, key_index, key_less, key_lt, keys_sorted,
    lemma_get_at, lemma_key_absent, lemma_key_lt_asymmetric, lemma_key_lt_irreflexive, lemma_key_lt_total,
    lemma_key_lt_transitive, wf, Json, JsonNumber, JsonValue, Num,
};
use crate::numbers::{float_display, float_input, float_order, parse_float_input};
use crate::error::Error;
use crate::diff::concat_all;
use crate::pattern::{regex_compiles, regex_matches};
use crate::json_text::{json_compact, compact_text, json_read, json_read_error, nat_text, read_json};

verus! {

pub enum FieldKind {
    String,
    Integer,
    Number,
    Boolean,
    Enum(Vec<String>),
    Json,
}

pub struct FormField {
    pub path: Vec<String>,
    pub label: String,
    pub description: String,
    pub required: bool,
    pub secret: bool,
    pub kind: FieldKind,
    pub value: String,
}

pub enum FormMode {
    Fields(Vec<FormField>),
    RawJson(String),
}

/// Model of a field kind.
pub enum KindView {
    String,
    Integer,
    Number,
    Boolean,
    Enum(Seq<Seq<char>>),
    Json,
}

/// Model of a form field.
pub struct FieldView {
    pub path: Seq<Seq<char>>,
    pub label: Seq<char>,
    pub description: Seq<char>,
    pub required: bool,
    pub secret: bool,
    pub kind: KindView,
    pub value: Seq<char>,
}

/// Model of a form.
pub enum ModeView {
    Fields(Seq<FieldView>),
    RawJson(Seq<char>),
}

impl View for FieldKind {
    type V = KindView;

    open spec fn view(&self) -> KindView {
        match self {
            FieldKind::String => KindView::String,
            FieldKind::Integer => KindView::Integer,
            FieldKind::Number => KindView::Number,
            FieldKind::Boolean => KindView::Boolean,
            FieldKind::Enum(values) => KindView::Enum(views(values@)),
            FieldKind::Json => KindView::Json,
        }
    }
}

impl View for FormField {
    type V = FieldView;

    open spec fn view(&self) -> FieldView {
        FieldView {
            path: views(self.path@),
            label: self.label@,
            description: self.description@,
            required: self.required,
            secret: self.secret,
            kind: self.kind@,
            value: self.value@,
        }
    }
}

pub open spec fn field_views(fields: Seq<FormField>) -> Seq<FieldView> {
    Seq::new(fields.len(), |i: int| fields[i]@)
}

impl View for FormMode {
    type V = ModeView;

    open spec fn view(&self) -> ModeView {
        match self {
            FormMode::Fields(fields) => ModeView::Fields(field_views(fields@)),
            FormMode::RawJson(text) => ModeView::RawJson(text@),
        }
    }
}

/// The text that masks a secret value.
pub open spec fn mask() -> Seq<char> {
    seq!['•', '•', '•', '•', '•', '•', '•', '•']
}

impl FormField {
    /// The value as the form shows it: masked when the field is secret and
    /// not empty.
    pub fn display_value(&self) -> (r: String)
        ensures
            r@ == if self.secret && self.value@.len() > 0 {
                mask()
            } else {
                self.value@
            },
    {
        if self.secret && !self.value.as_str().is_empty() {
            let dots: Vec<char> = vec!['•', '•', '•', '•', '•', '•', '•', '•'];
            let r = string_from_chars(&dots);
            proof {
                assert(dots@ =~= mask());
            }
            r
        } else {
            self.value.clone()
        }
    }
}

/// The words that mark a method as destructive.
pub open spec fn destructive_actions() -> Seq<Seq<char>> {
    seq![
        "delete"@,
        "destroy"@,
        "remove"@,
        "terminate"@,
        "purge"@,
        "revoke"@,
        "stop"@,
    ]
}

pub open spec fn is_upper(c: char) -> bool {
    'A' <= c <= 'Z'
}

pub open spec fn lower(c: char) -> char {
    if is_upper(c) {
        ((c as int) + 32) as char
    } else {
        c
    }
}

pub open spec fn is_alnum(c: char) -> bool {
    ('0' <= c <= '9') || ('a' <= c <= 'z') || ('A' <= c <= 'Z')
}

/// A method name in snake case: every upper-case ASCII letter after the
/// first character gets a `_` before it, and ASCII letters are lowered.
pub open spec fn snake(name: Seq<char>) -> Seq<char>
    decreases name.len(),
{
    if name.len() == 0 {
        Seq::empty()
    } else if name.len() > 1 && is_upper(name.last()) {
        snake(name.drop_last()).push('_').push(lower(name.last()))
    } else {
        snake(name.drop_last()).push(lower(name.last()))
    }
}

/// `word` stands in `s` at `at` as a whole token: what is next to it on
/// either side is an end of `s` or a character that is not ASCII
/// alphanumeric.
pub open spec fn token_at(s: Seq<char>, word: Seq<char>, at: int) -> bool {
    &&& contains_at(s, word, at)
    &&& (at == 0 || !is_alnum(s[at - 1]))
    &&& (at + word.len() == s.len() || !is_alnum(s[at + word.len()]))
}

/// A method looks destructive when one of the action words is a token of its
/// snake-case name.
pub open spec fn is_destructive(name: Seq<char>) -> bool {
    exists|w: int, at: int| 0 <= w < destructive_actions().len() && token_at(snake(name), destructive_actions()[w], at)
}

fn is_upper_exec(c: char) -> (r: bool)
    ensures
        r == is_upper(c),
{
    'A' <= c && c <= 'Z'
}

fn is_alnum_exec(c: char) -> (r: bool)
    ensures
        r == is_alnum(c),
{
    ('0' <= c && c <= '9') || ('a' <= c && c <= 'z') || ('A' <= c && c <= 'Z')
}

fn lower_exec(c: char) -> (r: char)
    ensures
        r == lower(c),
{
    if 'A' <= c && c <= 'Z' {
        let code: u32 = c as u32;
        let lowered: u8 = (code + 32) as u8;
        proof {
            assert(code == c as int);
        }
        lowered as char
    } else {
        c
    }
}

fn snake_chars(name: &Vec<char>) -> (r: Vec<char>)
    ensures
        r@ == snake(name@),
{
    let mut out: Vec<char> = Vec::new();
    let mut i: usize = 0;
    proof {
        assert(name@.take(0) =~= Seq::<char>::empty());
    }
    while i < name.len()
        invariant
            i <= name.len(),
            out@ == snake(name@.take(i as int)),
        decreases name.len() - i,
    {
        let c = name[i];
        proof {
            assert(name@.take(i as int + 1).drop_last() =~= name@.take(i as int));
            assert(name@.take(i as int + 1).last() == c);
        }
        if i > 0 && is_upper_exec(c) {
            out.push('_');
        }
        out.push(lower_exec(c));
        i = i + 1;
    }
    proof {
        assert(name@.take(i as int) =~= name@);
    }
    out
}

fn token_at_exec(s: &Vec<char>, word: &Vec<char>, at: usize) -> (r: bool)
    ensures
        r == token_at(s@, word@, at as int),
{
    if at > s.len() || word.len() > s.len() - at {
        return false;
    }
    let mut i: usize = 0;
    while i < word.len()
        invariant
            i <= word.len(),
            at + word.len() <= s.len(),
            forall|k: int| 0 <= k < i ==> word@[k] == s@[at + k],
        decreases word.len() - i,
    {
        if word[i] != s[at + i] {
            proof {
                assert(s@.subrange(at as int, at + word.len())[i as int] == s@[at + i]);
            }
            return false;
        }
        i = i + 1;
    }
    proof {
        assert(s@.subrange(at as int, at + word.len()) =~= word@);
    }
    let left_ok = at == 0 || !is_alnum_exec(s[at - 1]);
    let right_ok = at + word.len() == s.len() || !is_alnum_exec(s[at + word.len()]);
    left_ok && right_ok
}

fn action_words() -> (r: Vec<Vec<char>>)
    ensures
        r.len() == destructive_actions().len(),
        forall|w: int| 0 <= w < r.len() ==> (#[trigger] r@[w])@ == destructive_actions()[w],
{
    let mut r: Vec<Vec<char>> = Vec::new();
    r.push(chars_of("delete"));
    r.push(chars_of("destroy"));
    r.push(chars_of("remove"));
    r.push(chars_of("terminate"));
    r.push(chars_of("purge"));
    r.push(chars_of("revoke"));
    r.push(chars_of("stop"));
    r
}

/// Whether a method name looks destructive (`delete`, `destroy`, `remove`,
/// `terminate`, `purge`, `revoke` or `stop` as a token of its snake-case form).
pub fn is_destructive_method(name: &str) -> (r: bool)
    ensures
        r == is_destructive(name@),
{
    let chars = chars_of(name);
    let normalized = snake_chars(&chars);
    let words = action_words();
    let mut w: usize = 0;
    while w < words.len()
        invariant
            w <= words.len(),
            normalized@ == snake(name@),
            words.len() == destructive_actions().len(),
            forall|x: int| 0 <= x < words.len() ==> (#[trigger] words@[x])@ == destructive_actions()[x],
            forall|x: int, at: int| 0 <= x < w ==> !token_at(snake(name@), destructive_actions()[x], at),
        decreases words.len() - w,
    {
        let mut at: usize = 0;
        while at < normalized.len()
            invariant
                w < words.len(),
                words.len() == destructive_actions().len(),
                at <= normalized.len(),
                normalized@ == snake(name@),
                words@[w as int]@ == destructive_actions()[w as int],
                forall|x: int| 0 <= x < at ==> !token_at(snake(name@), destructive_actions()[w as int], x),
            decreases normalized.len() - at,
        {
            if token_at_exec(&normalized, &words[w], at) {
                proof {
                    assert(0 <= w < destructive_actions().len());
                    assert(token_at(snake(name@), destructive_actions()[w as int], at as int));
                }
                return true;
            }
            at = at + 1;
        }
        if token_at_exec(&normalized, &words[w], at) {
            proof {
                assert(0 <= w < destructive_actions().len());
                assert(token_at(snake(name@), destructive_actions()[w as int], at as int));
            }
            return true;
        }
        proof {
            assert forall|x: int| !token_at(snake(name@), destructive_actions()[w as int], x) by {
                if x > at as int {
                }
            }
        }
        w = w + 1;
    }
    false
}

} // verus!

verus! {

/// Schema keywords that the field form does not represent.
pub open spec fn unsupported_key(k: Seq<char>) -> bool {
    k == "$ref"@ || k == "oneOf"@ || k == "anyOf"@ || k == "allOf"@ || k == "if"@ || k == "then"@ || k
        == "else"@
}

/// Whether a schema uses, at any depth, references, composition or conditionals.
pub open spec fn contains_unsupported(j: Json) -> bool
    decreases j,
{
    match j {
        Json::Object(es) => (exists|i: int| 0 <= i < es.len() && unsupported_key(#[trigger] es[i].0)) || (exists|i: int|
            0 <= i < es.len() && contains_unsupported(#[trigger] es[i].1)),
        Json::Array(xs) => exists|i: int| 0 <= i < xs.len() && contains_unsupported(#[trigger] xs[i]),
        _ => false,
    }
}

fn is_unsupported_key(k: &str) -> (r: bool)
    ensures
        r == unsupported_key(k@),
{
    str_eq(k, "$ref") || str_eq(k, "oneOf") || str_eq(k, "anyOf") || str_eq(k, "allOf") || str_eq(k, "if")
        || str_eq(k, "then") || str_eq(k, "else")
}

fn contains_unsupported_exec(v: &JsonValue) -> (r: bool)
    ensures
        r == contains_unsupported(v@),
    decreases v,
{
    match v {
        JsonValue::Object(es) => {
            let ghost m = v@->Object_0;
            let mut i: usize = 0;
            while i < es.len()
                invariant
                    i <= es.len(),
                    *v == JsonValue::Object(*es),
                    m == v@->Object_0,
                    forall|k: int| 0 <= k < i ==> !unsupported_key(#[trigger] m[k].0),
                decreases es.len() - i,
            {
                proof {
                    assert(m[i as int] == (es@[i as int].0@, es@[i as int].1@));
                }
                if is_unsupported_key(es[i].0.as_str()) {
                    proof {
                        assert(v@ == Json::Object(m));
                        assert(unsupported_key(m[i as int].0));
                    }
                    return true;
                }
                i = i + 1;
            }
            let mut i: usize = 0;
            while i < es.len()
                invariant
                    i <= es.len(),
                    *v == JsonValue::Object(*es),
                    m == v@->Object_0,
                    forall|k: int| 0 <= k < m.len() ==> !unsupported_key(#[trigger] m[k].0),
                    forall|k: int| 0 <= k < i ==> !contains_unsupported(#[trigger] m[k].1),
                decreases es.len() - i,
            {
                proof {
                    assert(m[i as int] == (es@[i as int].0@, es@[i as int].1@));
                    assert(decreases_to!(*v => v->Object_0));
                    assert(decreases_to!(v->Object_0 => es@));
                    assert(decreases_to!(es@ => es@[i as int]));
                    assert(decreases_to!(es@[i as int] => es@[i as int].1));
                }
                if contains_unsupported_exec(&es[i].1) {
                    proof {
                        assert(v@ == Json::Object(m));
                        assert(contains_unsupported(m[i as int].1));
                    }
                    return true;
                }
                i = i + 1;
            }
            proof {
                assert(v@ == Json::Object(m));
            }
            false
        },
        JsonValue::Array(xs) => {
            let ghost m = v@->Array_0;
            let mut i: usize = 0;
            while i < xs.len()
                invariant
                    i <= xs.len(),
                    *v == JsonValue::Array(*xs),
                    m == v@->Array_0,
                    forall|k: int| 0 <= k < i ==> !contains_unsupported(#[trigger] m[k]),
                decreases xs.len() - i,
            {
                proof {
                    assert(decreases_to!(*v => v->Array_0));
                    assert(decreases_to!(v->Array_0 => xs@));
                    assert(decreases_to!(xs@ => xs@[i as int]));
                }
                if contains_unsupported_exec(&xs[i]) {
                    proof {
                        assert(v@ == Json::Array(m));
                        assert(contains_unsupported(m[i as int]));
                    }
                    return true;
                }
                i = i + 1;
            }
            proof {
                assert(v@ == Json::Array(m));
            }
            false
        },
        _ => false,
    }
}

/// The text a JSON value gives a form field: a string as it is, anything
/// else as compact JSON.
pub open spec fn input_text(v: Json) -> Seq<char> {
    match v {
        Json::Str(s) => s,
        _ => json_compact(v),
    }
}

pub open spec fn is_required_name(schema: Json, name: Seq<char>) -> bool {
    match get(schema, "required"@) {
        Some(Json::Array(xs)) => exists|i: int| 0 <= i < xs.len() && xs[i] == Json::Str(name),
        _ => false,
    }
}

pub open spec fn kind_of(p: Json) -> KindView {
    match get(p, "enum"@) {
        Some(Json::Array(vs)) => KindView::Enum(Seq::new(vs.len(), |i: int| input_text(vs[i]))),
        _ => match get_str(p, "type"@) {
            None => KindView::String,
            Some(t) => if t == "string"@ {
                KindView::String
            } else if t == "integer"@ {
                KindView::Integer
            } else if t == "number"@ {
                KindView::Number
            } else if t == "boolean"@ {
                KindView::Boolean
            } else {
                KindView::Json
            },
        },
    }
}

pub open spec fn default_value(p: Json) -> Seq<char> {
    match get(p, "default"@) {
        Some(d) => input_text(d),
        None => if kind_of(p) is Boolean {
            "false"@
        } else {
            Seq::empty()
        },
    }
}

/// A property is secret when it is `writeOnly` or has `format: password`.
pub open spec fn is_secret(p: Json) -> bool {
    get_bool(p, "writeOnly"@) == Some(true) || get_str(p, "format"@) == Some("password"@)
}

/// A property that is itself an object with properties opens nested fields.
pub open spec fn is_nested(p: Json) -> bool {
    get_str(p, "type"@) == Some("object"@) && get(p, "properties"@) is Some
}

pub open spec fn description_of(p: Json) -> Seq<char> {
    match get_str(p, "description"@) {
        Some(d) => d,
        None => Seq::empty(),
    }
}

/// The fields that a schema's properties give, depth first in key order.
pub open spec fn collect_spec(schema: Json, parent: Seq<Seq<char>>, parent_required: bool) -> Seq<FieldView>
    decreases schema, 1nat,
{
    match schema {
        Json::Object(es) => {
            let pi = key_index(es, "properties"@);
            if 0 <= pi < es.len() {
                match es[pi].1 {
                    Json::Object(props) => concat_fields(property_parts(schema, props, parent, parent_required)),
                    _ => Seq::empty(),
                }
            } else {
                Seq::empty()
            }
        },
        _ => Seq::empty(),
    }
}

/// The fields of each property, in key order.
pub open spec fn property_parts(
    schema: Json,
    props: Seq<(Seq<char>, Json)>,
    parent: Seq<Seq<char>>,
    parent_required: bool,
) -> Seq<Seq<FieldView>>
    decreases props, 0nat,
{
    Seq::new(
        props.len(),
        |i: int|
            if 0 <= i < props.len() {
                property_fields(schema, props[i].0, props[i].1, parent, parent_required)
            } else {
                Seq::empty()
            },
    )
}

/// The fields of one property of `schema`.
pub open spec fn property_fields(
    schema: Json,
    name: Seq<char>,
    prop: Json,
    parent: Seq<Seq<char>>,
    parent_required: bool,
) -> Seq<FieldView>
    decreases prop, 2nat,
{
    let path = parent.push(name);
    let required = parent_required || is_required_name(schema, name);
    if is_nested(prop) {
        collect_spec(prop, path, required)
    } else {
        seq![
            FieldView {
                path: path,
                label: join(path, "."@),
                description: description_of(prop),
                required: required,
                secret: is_secret(prop),
                kind: kind_of(prop),
                value: default_value(prop),
            },
        ]
    }
}

pub open spec fn concat_fields(parts: Seq<Seq<FieldView>>) -> Seq<FieldView>
    decreases parts.len(),
{
    if parts.len() == 0 {
        Seq::empty()
    } else {
        concat_fields(parts.drop_last()) + parts.last()
    }
}

/// The form a method's argument schema gives: fields, or a raw JSON editor
/// holding `{}` when the schema uses unsupported constructs or gives no
/// fields without being an object schema.
pub open spec fn form_for_spec(schema: Json) -> ModeView {
    if contains_unsupported(schema) {
        ModeView::RawJson("{}"@)
    } else {
        let fields = collect_spec(schema, Seq::empty(), false);
        if fields.len() == 0 && get_str(schema, "type"@) != Some("object"@) {
            ModeView::RawJson("{}"@)
        } else {
            ModeView::Fields(fields)
        }
    }
}

} // verus!

verus! {

pub(crate) fn get_str_of<'a>(v: &'a JsonValue, key: &str) -> (r: Option<&'a String>)
    requires
        wf(v@),
    ensures
        match r {
            Some(s) => get_str(v@, key@) == Some(s@),
            None => get_str(v@, key@) is None,
        },
{
    match v.get(key) {
        Some(x) => x.as_str(),
        None => None,
    }
}

pub(crate) fn get_bool_of(v: &JsonValue, key: &str) -> (r: Option<bool>)
    requires
        wf(v@),
    ensures
        r == get_bool(v@, key@),
{
    match v.get(key) {
        Some(x) => x.as_bool(),
        None => None,
    }
}

/// `value_to_input`: a string as it is, anything else as compact JSON.
pub fn input_text_of(v: &JsonValue) -> (r: String)
    ensures
        r@ == input_text(v@),
{
    match v.as_str() {
        Some(s) => s.clone(),
        None => compact_text(v),
    }
}

pub(crate) fn is_required_name_exec(schema: &JsonValue, name: &String) -> (r: bool)
    requires
        wf(schema@),
    ensures
        r == is_required_name(schema@, name@),
{
    let found = schema.get("required");
    match found {
        Some(arr) => match arr {
            JsonValue::Array(xs) => {
                let ghost items = arr@->Array_0;
                proof {
                    assert(arr@ == Json::Array(items));
                }
                let mut i: usize = 0;
                while i < xs.len()
                    invariant
                        i <= xs.len(),
                        *arr == JsonValue::Array(*xs),
                        items == arr@->Array_0,
                        arr@ == Json::Array(items),
                        get(schema@, "required"@) == Some(arr@),
                        forall|k: int| 0 <= k < i ==> items[k] != Json::Str(name@),
                    decreases xs.len() - i,
                {
                    proof {
                        assert(items[i as int] == xs@[i as int]@);
                    }
                    match &xs[i] {
                        JsonValue::String(s) => {
                            if *s == *name {
                                proof {
                                    assert(xs@[i as int]@ == Json::Str(s@));
                                    assert(items[i as int] == Json::Str(name@));
                                    assert(get(schema@, "required"@) == Some(Json::Array(items)));
                                }
                                return true;
                            }
                        },
                        _ => {},
                    }
                    i = i + 1;
                }
                false
            },
            _ => false,
        },
        None => false,
    }
}

} // verus!

verus! {

fn kind_of_exec(p: &JsonValue) -> (r: FieldKind)
    requires
        wf(p@),
    ensures
        r@ == kind_of(p@),
{
    match p.get("enum") {
        Some(arr) => match arr {
            JsonValue::Array(vs) => {
                let ghost items = arr@->Array_0;
                proof {
                    assert(arr@ == Json::Array(items));
                }
                let mut out: Vec<String> = Vec::new();
                let mut i: usize = 0;
                while i < vs.len()
                    invariant
                        i <= vs.len(),
                        *arr == JsonValue::Array(*vs),
                        items == arr@->Array_0,
                        out.len() == i,
                        forall|k: int| 0 <= k < i ==> (#[trigger] out@[k])@ == input_text(items[k]),
                    decreases vs.len() - i,
                {
                    proof {
                        assert(items[i as int] == vs@[i as int]@);
                    }
                    out.push(input_text_of(&vs[i]));
                    i = i + 1;
                }
                proof {
                    assert(views(out@) =~= Seq::new(items.len(), |k: int| input_text(items[k])));
                }
                return FieldKind::Enum(out);
            },
            _ => {},
        },
        None => {},
    }
    match get_str_of(p, "type") {
        None => FieldKind::String,
        Some(t) => {
            if str_eq(t.as_str(), "string") {
                FieldKind::String
            } else if str_eq(t.as_str(), "integer") {
                FieldKind::Integer
            } else if str_eq(t.as_str(), "number") {
                FieldKind::Number
            } else if str_eq(t.as_str(), "boolean") {
                FieldKind::Boolean
            } else {
                FieldKind::Json
            }
        },
    }
}

fn default_value_exec(p: &JsonValue, kind: &FieldKind) -> (r: String)
    requires
        wf(p@),
        kind@ == kind_of(p@),
    ensures
        r@ == default_value(p@),
{
    match p.get("default") {
        Some(d) => input_text_of(d),
        None => match kind {
            FieldKind::Boolean => String::from_str("false"),
            _ => String::new(),
        },
    }
}

fn is_secret_exec(p: &JsonValue) -> (r: bool)
    requires
        wf(p@),
    ensures
        r == is_secret(p@),
{
    let write_only = match get_bool_of(p, "writeOnly") {
        Some(b) => b,
        None => false,
    };
    let password = match get_str_of(p, "format") {
        Some(f) => str_eq(f.as_str(), "password"),
        None => false,
    };
    write_only || password
}

fn is_nested_exec(p: &JsonValue) -> (r: bool)
    requires
        wf(p@),
    ensures
        r == is_nested(p@),
{
    let object_type = match get_str_of(p, "type") {
        Some(t) => str_eq(t.as_str(), "object"),
        None => false,
    };
    object_type && p.get("properties").is_some()
}

fn description_exec(p: &JsonValue) -> (r: String)
    requires
        wf(p@),
    ensures
        r@ == description_of(p@),
{
    match get_str_of(p, "description") {
        Some(d) => d.clone(),
        None => String::new(),
    }
}

proof fn lemma_concat_fields_step(parts: Seq<Seq<FieldView>>, i: int)
    requires
        0 <= i < parts.len(),
    ensures
        concat_fields(parts.take(i + 1)) == concat_fields(parts.take(i)) + parts[i],
{
    assert(parts.take(i + 1).drop_last() =~= parts.take(i));
}

fn collect_fields(schema: &JsonValue, parent: &Vec<String>, parent_required: bool, fields: &mut Vec<FormField>)
    requires
        wf(schema@),
    ensures
        field_views(final(fields)@) == field_views(old(fields)@) + collect_spec(
            schema@,
            views(parent@),
            parent_required,
        ),
    decreases schema,
{
    let ghost start = field_views(fields@);
    let ghost parent_v = views(parent@);
    match schema {
        JsonValue::Object(es) => {
            let ghost m = schema@->Object_0;
            match schema.position("properties") {
                Some(pi) => {
                    proof {
                        assert(schema@ == Json::Object(m));
                        assert(m[pi as int] == (es@[pi as int].0@, es@[pi as int].1@));
                        assert(wf(m[pi as int].1));
                    }
                    match &es[pi].1 {
                        JsonValue::Object(props) => {
                            let ghost pv = es@[pi as int].1@->Object_0;
                            let ghost parts = property_parts(schema@, pv, parent_v, parent_required);
                            proof {
                                assert(es@[pi as int].1@ == Json::Object(pv));
                                assert(collect_spec(schema@, parent_v, parent_required) == concat_fields(parts));
                                assert(parts.take(0) =~= Seq::<Seq<FieldView>>::empty());
                                assert(field_views(fields@) =~= start + concat_fields(parts.take(0)));
                            }
                            let mut i: usize = 0;
                            while i < props.len()
                                invariant
                                    i <= props.len(),
                                    *schema == JsonValue::Object(*es),
                                    pi < es@.len(),
                                    es@[pi as int].1 == JsonValue::Object(*props),
                                    pv == es@[pi as int].1@->Object_0,
                                    es@[pi as int].1@ == Json::Object(pv),
                                    wf(schema@),
                                    wf(es@[pi as int].1@),
                                    parent_v == views(parent@),
                                    parts.len() == pv.len(),
                                    forall|k: int|
                                        0 <= k < pv.len() ==> #[trigger] parts[k] == property_fields(
                                            schema@,
                                            pv[k].0,
                                            pv[k].1,
                                            parent_v,
                                            parent_required,
                                        ),
                                    field_views(fields@) == start + concat_fields(parts.take(i as int)),
                                decreases props.len() - i,
                            {
                                let ghost prev = field_views(fields@);
                                proof {
                                    assert(pv[i as int] == (props@[i as int].0@, props@[i as int].1@));
                                    assert(wf(pv[i as int].1));
                                    lemma_concat_fields_step(parts, i as int);
                                }
                                let name = &props[i].0;
                                let prop = &props[i].1;
                                let mut path = clone_strings(parent);
                                path.push(name.clone());
                                proof {
                                    assert(views(path@) =~= parent_v.push(name@));
                                }
                                let required = parent_required || is_required_name_exec(schema, name);
                                if is_nested_exec(prop) {
                                    proof {
                                        assert(decreases_to!(*schema => schema->Object_0));
                                        assert(decreases_to!(schema->Object_0 => es@));
                                        assert(decreases_to!(es@ => es@[pi as int]));
                                        assert(decreases_to!(es@[pi as int] => es@[pi as int].1));
                                        assert(decreases_to!(es@[pi as int].1 => es@[pi as int].1->Object_0));
                                        assert(decreases_to!(es@[pi as int].1->Object_0 => props@));
                                        assert(decreases_to!(props@ => props@[i as int]));
                                        assert(decreases_to!(props@[i as int] => props@[i as int].1));
                                    }
                                    collect_fields(prop, &path, required, fields);
                                    proof {
                                        assert(field_views(fields@) =~= prev + parts[i as int]);
                                    }
                                } else {
                                    let label = join_strings(&path, ".");
                                    let description = description_exec(prop);
                                    let secret = is_secret_exec(prop);
                                    let kind = kind_of_exec(prop);
                                    let value = default_value_exec(prop, &kind);
                                    let field = FormField {
                                        path: path,
                                        label: label,
                                        description: description,
                                        required: required,
                                        secret: secret,
                                        kind: kind,
                                        value: value,
                                    };
                                    fields.push(field);
                                    proof {
                                        assert(field_views(fields@) =~= prev + parts[i as int]);
                                    }
                                }
                                i = i + 1;
                            }
                            proof {
                                assert(parts.take(props.len() as int) =~= parts);
                            }
                        },
                        _ => {
                            proof {
                                assert(!(es@[pi as int].1@ is Object));
                                assert(field_views(fields@) =~= start + collect_spec(
                                    schema@,
                                    parent_v,
                                    parent_required,
                                ));
                            }
                        },
                    }
                },
                None => {
                    proof {
                        assert(field_views(fields@) =~= start + collect_spec(schema@, parent_v, parent_required));
                    }
                },
            }
        },
        _ => {
            proof {
                assert(field_views(fields@) =~= start + collect_spec(schema@, parent_v, parent_required));
            }
        },
    }
}

/// The input form for a method's argument schema.
pub fn form_for(schema: &JsonValue) -> (r: FormMode)
    requires
        wf(schema@),
    ensures
        r@ == form_for_spec(schema@),
{
    if contains_unsupported_exec(schema) {
        return FormMode::RawJson(String::from_str("{}"));
    }
    let mut fields: Vec<FormField> = Vec::new();
    let parent: Vec<String> = Vec::new();
    proof {
        assert(views(parent@) =~= Seq::<Seq<char>>::empty());
        assert(field_views(fields@) =~= Seq::<FieldView>::empty());
    }
    collect_fields(schema, &parent, false, &mut fields);
    proof {
        assert(field_views(fields@) =~= collect_spec(schema@, Seq::empty(), false));
    }
    let object_type = match get_str_of(schema, "type") {
        Some(t) => str_eq(t.as_str(), "object"),
        None => false,
    };
    if fields.len() == 0 && !object_type {
        FormMode::RawJson(String::from_str("{}"))
    } else {
        FormMode::Fields(fields)
    }
}

} // verus!

verus! {

/// What the review screen shows of a secret value.
pub open spec fn redacted_marker() -> Seq<char> {
    "<redacted>"@
}

/// A payload with every value that the schema marks secret replaced by
/// `<redacted>`, following `properties` into objects and `items` into arrays.
pub open spec fn redacted(schema: Json, v: Json) -> Json
    decreases v, 1nat,
{
    if is_secret(schema) {
        Json::Str(redacted_marker())
    } else {
        match v {
            Json::Object(es) => match get(schema, "properties"@) {
                Some(Json::Object(ps)) => Json::Object(redacted_members(ps, es)),
                _ => v,
            },
            Json::Array(xs) => match get(schema, "items"@) {
                Some(item_schema) => Json::Array(redacted_items(item_schema, xs)),
                None => v,
            },
            _ => v,
        }
    }
}

pub open spec fn redacted_members(ps: Seq<(Seq<char>, Json)>, es: Seq<(Seq<char>, Json)>) -> Seq<
    (Seq<char>, Json),
>
    decreases es, 0nat,
{
    Seq::new(
        es.len(),
        |i: int|
            if 0 <= i < es.len() {
                (
                    es[i].0,
                    match get(Json::Object(ps), es[i].0) {
                        Some(child_schema) => redacted(child_schema, es[i].1),
                        None => es[i].1,
                    },
                )
            } else {
                (Seq::empty(), Json::Null)
            },
    )
}

pub open spec fn redacted_items(item_schema: Json, xs: Seq<Json>) -> Seq<Json>
    decreases xs, 0nat,
{
    Seq::new(xs.len(), |i: int| if 0 <= i < xs.len() { redacted(item_schema, xs[i]) } else { Json::Null })
}

fn redacted_value(schema: &JsonValue, v: &JsonValue) -> (r: JsonValue)
    requires
        wf(schema@),
    ensures
        r@ == redacted(schema@, v@),
    decreases v,
{
    if is_secret_exec(schema) {
        return JsonValue::String(String::from_str("<redacted>"));
    }
    match v {
        JsonValue::Object(es) => {
            let found = schema.get("properties");
            match found {
                Some(props) => match props {
                    JsonValue::Object(_) => {
                        let ghost ps = props@->Object_0;
                        let ghost m = v@->Object_0;
                        proof {
                            assert(props@ == Json::Object(ps));
                            assert(wf(props@));
                        }
                        let mut out: Vec<(String, JsonValue)> = Vec::new();
                        let mut i: usize = 0;
                        while i < es.len()
                            invariant
                                i <= es.len(),
                                *v == JsonValue::Object(*es),
                                m == v@->Object_0,
                                props@ == Json::Object(ps),
                                wf(props@),
                                out.len() == i,
                                forall|k: int|
                                    0 <= k < i ==> (#[trigger] out@[k]).0@ == m[k].0 && out@[k].1@ == (match get(
                                        Json::Object(ps),
                                        m[k].0,
                                    ) {
                                        Some(child_schema) => redacted(child_schema, m[k].1),
                                        None => m[k].1,
                                    }),
                            decreases es.len() - i,
                        {
                            proof {
                                assert(m[i as int] == (es@[i as int].0@, es@[i as int].1@));
                            }
                            let key = es[i].0.clone();
                            let child = match props.get(es[i].0.as_str()) {
                                Some(child_schema) => {
                                    proof {
                                        assert(decreases_to!(*v => v->Object_0));
                                        assert(decreases_to!(v->Object_0 => es@));
                                        assert(decreases_to!(es@ => es@[i as int]));
                                        assert(decreases_to!(es@[i as int] => es@[i as int].1));
                                        let cs = child_schema@;
                                        let idx = key_index(ps, m[i as int].0);
                                        assert(0 <= idx < ps.len());
                                        assert(wf(ps[idx].1));
                                    }
                                    redacted_value(child_schema, &es[i].1)
                                },
                                None => clone_json(&es[i].1),
                            };
                            out.push((key, child));
                            i = i + 1;
                        }
                        proof {
                            assert(json_view(JsonValue::Object(out)) == Json::Object(redacted_members(ps, m))) by {
                                assert(json_view(JsonValue::Object(out))->Object_0 =~= redacted_members(ps, m));
                            }
                            assert(v@ == Json::Object(m));
                        }
                        JsonValue::Object(out)
                    },
                    _ => {
                        proof {
                            assert(!(props@ is Object));
                        }
                        clone_json(v)
                    },
                },
                None => clone_json(v),
            }
        },
        JsonValue::Array(xs) => {
            match schema.get("items") {
                Some(item_schema) => {
                    let ghost m = v@->Array_0;
                    proof {
                        let idx = key_index(schema@->Object_0, "items"@);
                        assert(wf(item_schema@));
                    }
                    let mut out: Vec<JsonValue> = Vec::new();
                    let mut i: usize = 0;
                    while i < xs.len()
                        invariant
                            i <= xs.len(),
                            *v == JsonValue::Array(*xs),
                            m == v@->Array_0,
                            wf(item_schema@),
                            out.len() == i,
                            forall|k: int| 0 <= k < i ==> (#[trigger] out@[k])@ == redacted(item_schema@, m[k]),
                        decreases xs.len() - i,
                    {
                        proof {
                            assert(decreases_to!(*v => v->Array_0));
                            assert(decreases_to!(v->Array_0 => xs@));
                            assert(decreases_to!(xs@ => xs@[i as int]));
                        }
                        out.push(redacted_value(item_schema, &xs[i]));
                        i = i + 1;
                    }
                    proof {
                        assert(json_view(JsonValue::Array(out)) == Json::Array(redacted_items(item_schema@, m))) by {
                            assert(json_view(JsonValue::Array(out))->Array_0 =~= redacted_items(item_schema@, m));
                        }
                        assert(v@ == Json::Array(m));
                    }
                    JsonValue::Array(out)
                },
                None => clone_json(v),
            }
        },
        _ => clone_json(v),
    }
}

/// A payload as the review screen shows it: values the schema marks secret
/// (`writeOnly`, `format: password`) replaced by `<redacted>`.
pub fn redacted_payload(payload: &JsonValue, schema: &JsonValue) -> (r: JsonValue)
    requires
        wf(schema@),
    ensures
        r@ == redacted(schema@, payload@),
{
    redacted_value(schema, payload)
}

} // verus!

verus! {

/// Whether a value has the JSON Schema `type` that is given (any value when
/// no or an unknown type is given).
pub open spec fn type_ok(t: Option<Seq<char>>, v: Json) -> bool {
    match t {
        Some(t) => if t == "object"@ {
            v is Object
        } else if t == "array"@ {
            v is Array
        } else if t == "string"@ {
            v is Str
        } else if t == "integer"@ {
            v matches Json::Number(n) && !(n is Float)
        } else if t == "number"@ {
            v is Number
        } else if t == "boolean"@ {
            v is Bool
        } else if t == "null"@ {
            v is Null
        } else {
            true
        },
        None => true,
    }
}

/// `Value::as_u64`.
pub open spec fn as_u64(v: Option<Json>) -> Option<u64> {
    match v {
        Some(Json::Number(Num::PosInt(u))) => Some(u),
        _ => None,
    }
}

pub open spec fn allowed_by_enum(schema: Json, v: Json) -> bool {
    match get(schema, "enum"@) {
        Some(Json::Array(allowed)) => exists|i: int| 0 <= i < allowed.len() && json_equal(allowed[i], v),
        _ => true,
    }
}

pub open spec fn enum_errors(schema: Json, v: Json, path: Seq<char>) -> Seq<Seq<char>> {
    if allowed_by_enum(schema, v) {
        Seq::empty()
    } else {
        seq![path + " is not an allowed value"@]
    }
}

pub open spec fn string_errors(schema: Json, v: Json, path: Seq<char>) -> Seq<Seq<char>> {
    match v {
        Json::Str(text) => {
            let short = match as_u64(get(schema, "minLength"@)) {
                Some(min) => if text.len() < min {
                    seq![path + " is shorter than "@ + nat_text(min as nat) + " characters"@]
                } else {
                    Seq::empty()
                },
                None => Seq::empty(),
            };
            let long = match as_u64(get(schema, "maxLength"@)) {
                Some(max) => if text.len() > max {
                    seq![path + " is longer than "@ + nat_text(max as nat) + " characters"@]
                } else {
                    Seq::empty()
                },
                None => Seq::empty(),
            };
            let mismatch = match get_str(schema, "pattern"@) {
                Some(p) => if regex_compiles(p) && !regex_matches(p, text) {
                    seq![path + " does not match "@ + p]
                } else {
                    Seq::empty()
                },
                None => Seq::empty(),
            };
            short + long + mismatch
        },
        _ => Seq::empty(),
    }
}

/// Whether `x` lies on the allowed side of the bound `limit`.
pub open spec fn bound_ok(x: Num, limit: Num, inclusive: bool, lower: bool) -> bool {
    let o = float_order(x, limit);
    if lower {
        if inclusive {
            o >= 0
        } else {
            o > 0
        }
    } else {
        if inclusive {
            o <= 0
        } else {
            o < 0
        }
    }
}

pub open spec fn bound_errors(
    schema: Json,
    x: Num,
    key: Seq<char>,
    inclusive: bool,
    lower: bool,
    path: Seq<char>,
) -> Seq<Seq<char>> {
    match get(schema, key) {
        Some(Json::Number(limit)) => if bound_ok(x, limit, inclusive, lower) {
            Seq::empty()
        } else {
            seq![path + " violates "@ + key + " "@ + float_display(limit)]
        },
        _ => Seq::empty(),
    }
}

pub open spec fn number_errors(schema: Json, v: Json, path: Seq<char>) -> Seq<Seq<char>> {
    match v {
        Json::Number(x) => bound_errors(schema, x, "minimum"@, true, true, path) + bound_errors(
            schema,
            x,
            "exclusiveMinimum"@,
            false,
            true,
            path,
        ) + bound_errors(schema, x, "maximum"@, true, false, path) + bound_errors(
            schema,
            x,
            "exclusiveMaximum"@,
            false,
            false,
            path,
        ),
        _ => Seq::empty(),
    }
}

/// Keys inserted into a key-ordered sequence, each once (`BTreeSet::insert`).
pub open spec fn set_insert(s: Seq<Seq<char>>, k: Seq<char>) -> Seq<Seq<char>>
    decreases s.len(),
{
    if s.len() == 0 {
        seq![k]
    } else if s[0] == k {
        s
    } else if key_lt(k, s[0]) {
        seq![k] + s
    } else {
        seq![s[0]] + set_insert(s.drop_first(), k)
    }
}

/// The strings of a JSON array collected into a `BTreeSet`, in order.
pub open spec fn string_set(xs: Seq<Json>) -> Seq<Seq<char>>
    decreases xs.len(),
{
    if xs.len() == 0 {
        Seq::empty()
    } else {
        match xs.last() {
            Json::Str(s) => set_insert(string_set(xs.drop_last()), s),
            _ => string_set(xs.drop_last()),
        }
    }
}

/// The distinct names in the schema's `required` list, in key order.
pub open spec fn required_set(schema: Json) -> Seq<Seq<char>> {
    match get(schema, "required"@) {
        Some(Json::Array(xs)) => string_set(xs),
        _ => Seq::empty(),
    }
}

pub open spec fn has_key(es: Seq<(Seq<char>, Json)>, k: Seq<char>) -> bool {
    exists|i: int| 0 <= i < es.len() && (#[trigger] es[i]).0 == k
}

pub open spec fn missing_errors(names: Seq<Seq<char>>, es: Seq<(Seq<char>, Json)>, path: Seq<char>) -> Seq<
    Seq<char>,
>
    decreases names.len(),
{
    if names.len() == 0 {
        Seq::empty()
    } else {
        missing_errors(names.drop_last(), es, path) + if has_key(es, names.last()) {
            Seq::empty()
        } else {
            seq![path + "."@ + names.last() + " is required"@]
        }
    }
}

} // verus!

verus! {

/// The errors of checking `v` against `schema` at `path`: a type mismatch
/// alone, or else the errors of `enum`, string length and `pattern`, numeric
/// bounds, required and unexpected members, members and items, in that order.
pub open spec fn validation_errors(schema: Json, v: Json, path: Seq<char>) -> Seq<Seq<char>>
    decreases schema, 3nat,
{
    let t = get_str(schema, "type"@);
    if !type_ok(t, v) {
        seq![path + " must be "@ + t->Some_0]
    } else {
        enum_errors(schema, v, path) + string_errors(schema, v, path) + number_errors(schema, v, path)
            + object_errors(schema, v, path) + items_errors(schema, v, path)
    }
}

pub open spec fn object_errors(schema: Json, v: Json, path: Seq<char>) -> Seq<Seq<char>>
    decreases schema, 2nat,
{
    match v {
        Json::Object(es) => missing_errors(required_set(schema), es, path) + concat_all(
            member_error_parts(schema, es, path),
        ),
        _ => Seq::empty(),
    }
}

pub open spec fn member_error_parts(schema: Json, es: Seq<(Seq<char>, Json)>, path: Seq<char>) -> Seq<
    Seq<Seq<char>>,
>
    decreases schema, 1nat,
{
    match get(schema, "properties"@) {
        Some(Json::Object(_)) => Seq::new(
            es.len(),
            |i: int|
                if 0 <= i < es.len() {
                    member_errors(schema, es[i].0, es[i].1, path)
                } else {
                    Seq::empty()
                },
        ),
        _ => Seq::empty(),
    }
}

/// The errors of one member of an object value.
pub open spec fn member_errors(schema: Json, key: Seq<char>, child: Json, path: Seq<char>) -> Seq<Seq<char>>
    decreases schema, 0nat,
{
    match schema {
        Json::Object(ses) => {
            let pi = key_index(ses, "properties"@);
            if 0 <= pi < ses.len() {
                match ses[pi].1 {
                    Json::Object(ps) => {
                        let ci = key_index(ps, key);
                        if 0 <= ci < ps.len() {
                            validation_errors(ps[ci].1, child, path + "."@ + key)
                        } else if get_bool(schema, "additionalProperties"@) == Some(false) {
                            seq![path + "."@ + key + " is not allowed"@]
                        } else {
                            Seq::empty()
                        }
                    },
                    _ => Seq::empty(),
                }
            } else {
                Seq::empty()
            }
        },
        _ => Seq::empty(),
    }
}

pub open spec fn items_errors(schema: Json, v: Json, path: Seq<char>) -> Seq<Seq<char>>
    decreases schema, 2nat,
{
    match v {
        Json::Array(xs) => concat_all(item_error_parts(schema, xs, path)),
        _ => Seq::empty(),
    }
}

pub open spec fn item_error_parts(schema: Json, xs: Seq<Json>, path: Seq<char>) -> Seq<Seq<Seq<char>>>
    decreases schema, 1nat,
{
    match schema {
        Json::Object(ses) => {
            let ii = key_index(ses, "items"@);
            if 0 <= ii < ses.len() {
                Seq::new(
                    xs.len(),
                    |i: int|
                        if 0 <= i < xs.len() {
                            validation_errors(ses[ii].1, xs[i], path + "["@ + nat_text(i as nat) + "]"@)
                        } else {
                            Seq::empty()
                        },
                )
            } else {
                Seq::empty()
            }
        },
        _ => Seq::empty(),
    }
}

} // verus!

verus! {

fn type_ok_exec(t: Option<&String>, v: &JsonValue) -> (r: bool)
    ensures
        r == type_ok(
            match t {
                Some(s) => Some(s@),
                None => None,
            },
            v@,
        ),
{
    match t {
        None => true,
        Some(t) => {
            let t = t.as_str();
            if str_eq(t, "object") {
                v.is_object()
            } else if str_eq(t, "array") {
                v.is_array()
            } else if str_eq(t, "string") {
                v.is_string()
            } else if str_eq(t, "integer") {
                match v {
                    JsonValue::Number(JsonNumber::Float(_)) => false,
                    JsonValue::Number(_) => true,
                    _ => false,
                }
            } else if str_eq(t, "number") {
                match v {
                    JsonValue::Number(_) => true,
                    _ => false,
                }
            } else if str_eq(t, "boolean") {
                match v {
                    JsonValue::Bool(_) => true,
                    _ => false,
                }
            } else if str_eq(t, "null") {
                match v {
                    JsonValue::Null => true,
                    _ => false,
                }
            } else {
                true
            }
        },
    }
}

fn as_u64_of(v: Option<&JsonValue>) -> (r: Option<u64>)
    ensures
        r == as_u64(
            match v {
                Some(x) => Some(x@),
                None => None,
            },
        ),
{
    match v {
        Some(JsonValue::Number(JsonNumber::PosInt(u))) => Some(*u),
        _ => None,
    }
}

fn allowed_by_enum_exec(schema: &JsonValue, v: &JsonValue) -> (r: bool)
    requires
        wf(schema@),
    ensures
        r == allowed_by_enum(schema@, v@),
{
    match schema.get("enum") {
        Some(arr) => match arr {
            JsonValue::Array(allowed) => {
                let ghost items = arr@->Array_0;
                proof {
                    assert(arr@ == Json::Array(items));
                }
                let mut i: usize = 0;
                while i < allowed.len()
                    invariant
                        i <= allowed.len(),
                        *arr == JsonValue::Array(*allowed),
                        items == arr@->Array_0,
                        arr@ == Json::Array(items),
                        get(schema@, "enum"@) == Some(arr@),
                        forall|k: int| 0 <= k < i ==> !json_equal(#[trigger] items[k], v@),
                    decreases allowed.len() - i,
                {
                    proof {
                        assert(items[i as int] == allowed@[i as int]@);
                    }
                    if crate::json::json_eq(&allowed[i], v) {
                        return true;
                    }
                    i = i + 1;
                }
                false
            },
            _ => true,
        },
        None => true,
    }
}

fn string_errors_exec(schema: &JsonValue, v: &JsonValue, path: &String, errors: &mut Vec<String>)
    requires
        wf(schema@),
    ensures
        views(final(errors)@) == views(old(errors)@) + string_errors(schema@, v@, path@),
{
    let ghost start = views(errors@);
    match v {
        JsonValue::String(text) => {
            let count = chars_of(text.as_str()).len();
            proof {
                assert(v@ == Json::Str(text@));
            }
            match as_u64_of(schema.get("minLength")) {
                Some(min) => {
                    if (count as u64) < min {
                        let n = crate::json_text::u64_text(min);
                        let mut m = path.clone();
                        m.append(" is shorter than ");
                        m.append(n.as_str());
                        m.append(" characters");
                        errors.push(m);
                    }
                },
                None => {},
            }
            let ghost after_min = views(errors@);
            proof {
                let short = match as_u64(get(schema@, "minLength"@)) {
                    Some(min) => if text@.len() < min {
                        seq![path@ + " is shorter than "@ + nat_text(min as nat) + " characters"@]
                    } else {
                        Seq::empty()
                    },
                    None => Seq::empty(),
                };
                assert(after_min =~= start + short);
            }
            match as_u64_of(schema.get("maxLength")) {
                Some(max) => {
                    if (count as u64) > max {
                        let n = crate::json_text::u64_text(max);
                        let mut m = path.clone();
                        m.append(" is longer than ");
                        m.append(n.as_str());
                        m.append(" characters");
                        errors.push(m);
                    }
                },
                None => {},
            }
            let ghost after_max = views(errors@);
            proof {
                let long = match as_u64(get(schema@, "maxLength"@)) {
                    Some(max) => if text@.len() > max {
                        seq![path@ + " is longer than "@ + nat_text(max as nat) + " characters"@]
                    } else {
                        Seq::empty()
                    },
                    None => Seq::empty(),
                };
                assert(after_max =~= after_min + long);
            }
            match get_str_of(schema, "pattern") {
                Some(p) => {
                    match crate::pattern::compile_pattern(p.as_str()) {
                        Some(c) => {
                            if !crate::pattern::pattern_matches(&c, text.as_str()) {
                                let mut m = path.clone();
                                m.append(" does not match ");
                                m.append(p.as_str());
                                errors.push(m);
                            }
                        },
                        None => {},
                    }
                },
                None => {},
            }
            proof {
                assert(views(errors@) =~= start + string_errors(schema@, v@, path@));
            }
        },
        _ => {
            proof {
                assert(views(errors@) =~= start + string_errors(schema@, v@, path@));
            }
        },
    }
}

} // verus!

verus! {

fn bound_errors_exec(
    schema: &JsonValue,
    x: &JsonNumber,
    key: &str,
    inclusive: bool,
    lower: bool,
    path: &String,
    errors: &mut Vec<String>,
)
    requires
        wf(schema@),
    ensures
        views(final(errors)@) == views(old(errors)@) + bound_errors(schema@, x@, key@, inclusive, lower, path@),
{
    let ghost start = views(errors@);
    match schema.get(key) {
        Some(JsonValue::Number(limit)) => {
            let o = crate::numbers::compare_as_floats(x, limit);
            let ok = if lower {
                if inclusive {
                    o >= 0
                } else {
                    o > 0
                }
            } else {
                if inclusive {
                    o <= 0
                } else {
                    o < 0
                }
            };
            if !ok {
                let mut m = path.clone();
                m.append(" violates ");
                m.append(key);
                m.append(" ");
                let shown = crate::numbers::float_text(limit);
                m.append(shown.as_str());
                errors.push(m);
            }
            proof {
                assert(views(errors@) =~= start + bound_errors(schema@, x@, key@, inclusive, lower, path@));
            }
        },
        _ => {
            proof {
                assert(views(errors@) =~= start + bound_errors(schema@, x@, key@, inclusive, lower, path@));
            }
        },
    }
}

fn number_errors_exec(schema: &JsonValue, v: &JsonValue, path: &String, errors: &mut Vec<String>)
    requires
        wf(schema@),
    ensures
        views(final(errors)@) == views(old(errors)@) + number_errors(schema@, v@, path@),
{
    let ghost start = views(errors@);
    match v {
        JsonValue::Number(x) => {
            bound_errors_exec(schema, x, "minimum", true, true, path, errors);
            bound_errors_exec(schema, x, "exclusiveMinimum", false, true, path, errors);
            bound_errors_exec(schema, x, "maximum", true, false, path, errors);
            bound_errors_exec(schema, x, "exclusiveMaximum", false, false, path, errors);
            proof {
                assert(v@ == Json::Number(x@));
                assert(views(errors@) =~= start + number_errors(schema@, v@, path@));
            }
        },
        _ => {
            proof {
                assert(views(errors@) =~= start + number_errors(schema@, v@, path@));
            }
        },
    }
}

/// `set_insert` on a vector of keys.
fn set_insert_exec(s: &mut Vec<String>, k: &String)
    ensures
        views(final(s)@) == set_insert(views(old(s)@), k@),
{
    let ghost whole = views(s@);
    let mut i: usize = 0;
    proof {
        assert(whole.skip(0) =~= whole);
        assert(whole.take(0) + set_insert(whole.skip(0), k@) =~= set_insert(whole, k@));
    }
    while i < s.len()
        invariant
            i <= s.len(),
            whole == views(s@),
            whole == views(old(s)@),
            whole.take(i as int) + set_insert(whole.skip(i as int), k@) == set_insert(whole, k@),
        decreases s.len() - i,
    {
        let ghost rest = whole.skip(i as int);
        proof {
            assert(rest[0] == s@[i as int]@);
            assert(rest.drop_first() =~= whole.skip(i as int + 1));
        }
        if s[i] == *k {
            proof {
                assert(set_insert(rest, k@) == rest);
                assert(whole.take(i as int) + rest =~= whole);
            }
            return;
        }
        if crate::json::key_less(k.as_str(), s[i].as_str()) {
            s.insert(i, k.clone());
            proof {
                assert(set_insert(rest, k@) == seq![k@] + rest);
                assert(views(s@) =~= whole.take(i as int) + (seq![k@] + rest));
            }
            return;
        }
        proof {
            assert(set_insert(rest, k@) == seq![rest[0]] + set_insert(rest.drop_first(), k@));
            assert(whole.take(i as int + 1) =~= whole.take(i as int).push(rest[0]));
            assert(whole.take(i as int + 1) + set_insert(whole.skip(i as int + 1), k@) =~= whole.take(i as int)
                + set_insert(rest, k@));
        }
        i = i + 1;
    }
    let ghost before = views(s@);
    s.push(k.clone());
    proof {
        assert(whole.skip(i as int) =~= Seq::<Seq<char>>::empty());
        assert(whole.take(i as int) =~= whole);
        assert(views(s@) =~= before.push(k@));
    }
}

fn required_set_exec(schema: &JsonValue) -> (r: Vec<String>)
    requires
        wf(schema@),
    ensures
        views(r@) == required_set(schema@),
{
    let mut out: Vec<String> = Vec::new();
    match schema.get("required") {
        Some(arr) => match arr {
            JsonValue::Array(xs) => {
                let ghost items = arr@->Array_0;
                proof {
                    assert(arr@ == Json::Array(items));
                    assert(items.take(0) =~= Seq::<Json>::empty());
                    assert(views(out@) =~= Seq::<Seq<char>>::empty());
                }
                let mut i: usize = 0;
                while i < xs.len()
                    invariant
                        i <= xs.len(),
                        *arr == JsonValue::Array(*xs),
                        items == arr@->Array_0,
                        views(out@) == string_set(items.take(i as int)),
                    decreases xs.len() - i,
                {
                    proof {
                        assert(items[i as int] == xs@[i as int]@);
                        assert(items.take(i as int + 1).drop_last() =~= items.take(i as int));
                        assert(items.take(i as int + 1).last() == items[i as int]);
                    }
                    match &xs[i] {
                        JsonValue::String(s) => {
                            set_insert_exec(&mut out, s);
                        },
                        _ => {},
                    }
                    i = i + 1;
                }
                proof {
                    assert(items.take(xs.len() as int) =~= items);
                }
                out
            },
            _ => out,
        },
        None => out,
    }
}

fn missing_errors_exec(
    names: &Vec<String>,
    value: &JsonValue,
    path: &String,
    errors: &mut Vec<String>,
)
    requires
        value@ is Object,
    ensures
        views(final(errors)@) == views(old(errors)@) + missing_errors(views(names@), value@->Object_0, path@),
{
    let ghost start = views(errors@);
    let ghost es = value@->Object_0;
    let ghost ns = views(names@);
    let mut i: usize = 0;
    proof {
        assert(ns.take(0) =~= Seq::<Seq<char>>::empty());
        assert(views(errors@) =~= start + missing_errors(ns.take(0), es, path@));
    }
    while i < names.len()
        invariant
            i <= names.len(),
            value@ is Object,
            es == value@->Object_0,
            ns == views(names@),
            views(errors@) == start + missing_errors(ns.take(i as int), es, path@),
        decreases names.len() - i,
    {
        let ghost prev = views(errors@);
        proof {
            assert(ns.take(i as int + 1).drop_last() =~= ns.take(i as int));
            assert(ns.take(i as int + 1).last() == names@[i as int]@);
        }
        let found = contains_key_exec(value, names[i].as_str());
        if !found {
            let mut m = path.clone();
            m.append(".");
            m.append(names[i].as_str());
            m.append(" is required");
            errors.push(m);
            proof {
                assert(views(errors@) =~= prev.push(m@));
            }
        }
        proof {
            assert(views(errors@) =~= start + missing_errors(ns.take(i as int + 1), es, path@));
        }
        i = i + 1;
    }
    proof {
        assert(ns.take(names.len() as int) =~= ns);
    }
}

/// `Map::contains_key` on an object value (without assuming key order).
fn contains_key_exec(value: &JsonValue, key: &str) -> (r: bool)
    requires
        value@ is Object,
    ensures
        r == has_key(value@->Object_0, key@),
{
    match value {
        JsonValue::Object(es) => {
            let ghost m = value@->Object_0;
            let mut i: usize = 0;
            while i < es.len()
                invariant
                    i <= es.len(),
                    *value == JsonValue::Object(*es),
                    m == value@->Object_0,
                    forall|k: int| 0 <= k < i ==> (#[trigger] m[k]).0 != key@,
                decreases es.len() - i,
            {
                proof {
                    assert(m[i as int] == (es@[i as int].0@, es@[i as int].1@));
                }
                if str_eq(es[i].0.as_str(), key) {
                    return true;
                }
                i = i + 1;
            }
            false
        },
        _ => false,
    }
}

} // verus!

verus! {

proof fn lemma_concat_all_step(parts: Seq<Seq<Seq<char>>>, i: int)
    requires
        0 <= i < parts.len(),
    ensures
        concat_all(parts.take(i + 1)) == concat_all(parts.take(i)) + parts[i],
{
    assert(parts.take(i + 1).drop_last() =~= parts.take(i));
}

fn validate_value(schema: &JsonValue, value: &JsonValue, path: &String, errors: &mut Vec<String>)
    requires
        wf(schema@),
    ensures
        views(final(errors)@) == views(old(errors)@) + validation_errors(schema@, value@, path@),
    decreases schema,
{
    let ghost start = views(errors@);
    let schema_type = get_str_of(schema, "type");
    if !type_ok_exec(schema_type, value) {
        let mut m = path.clone();
        m.append(" must be ");
        match schema_type {
            Some(t) => m.append(t.as_str()),
            None => {},
        }
        errors.push(m);
        proof {
            assert(views(errors@) =~= start + validation_errors(schema@, value@, path@));
        }
        return;
    }
    if !allowed_by_enum_exec(schema, value) {
        let mut m = path.clone();
        m.append(" is not an allowed value");
        errors.push(m);
    }
    let ghost after_enum = views(errors@);
    proof {
        assert(after_enum =~= start + enum_errors(schema@, value@, path@));
    }
    string_errors_exec(schema, value, path, errors);
    number_errors_exec(schema, value, path, errors);
    let ghost before_object = views(errors@);
    match value {
        JsonValue::Object(es) => {
            let names = required_set_exec(schema);
            missing_errors_exec(&names, value, path, errors);
            let ghost m = value@->Object_0;
            let ghost parts = member_error_parts(schema@, m, path@);
            let ghost after_missing = views(errors@);
            match schema.position("properties") {
                Some(pi) => match schema {
                    JsonValue::Object(ses) => {
                        proof {
                            assert(schema@->Object_0[pi as int] == (ses@[pi as int].0@, ses@[pi as int].1@));
                        }
                        match &ses[pi].1 {
                            JsonValue::Object(_) => {
                                let props = &ses[pi].1;
                                let ghost ps = props@->Object_0;
                                proof {
                                    assert(props@ == Json::Object(ps));
                                    assert(wf(props@));
                                    assert(get(schema@, "properties"@) == Some(props@));
                                    assert(parts.len() == m.len());
                                    assert(parts.take(0) =~= Seq::<Seq<Seq<char>>>::empty());
                                }
                                let mut i: usize = 0;
                                while i < es.len()
                                    invariant
                                        i <= es.len(),
                                        *value == JsonValue::Object(*es),
                                        *schema == JsonValue::Object(*ses),
                                        pi < ses@.len(),
                                        pi as int == key_index(schema@->Object_0, "properties"@),
                                        *props == ses@[pi as int].1,
                                        props@ == Json::Object(ps),
                                        schema@->Object_0[pi as int].1 == props@,
                                        wf(schema@),
                                        wf(props@),
                                        m == value@->Object_0,
                                        parts == member_error_parts(schema@, m, path@),
                                        parts.len() == m.len(),
                                        views(errors@) == after_missing + concat_all(parts.take(i as int)),
                                    decreases es.len() - i,
                                {
                                    let ghost prev = views(errors@);
                                    proof {
                                        assert(m[i as int] == (es@[i as int].0@, es@[i as int].1@));
                                        assert(parts[i as int] == member_errors(schema@, m[i as int].0, m[i as int].1, path@));
                                        lemma_concat_all_step(parts, i as int);
                                    }
                                    let mut child_path = path.clone();
                                    child_path.append(".");
                                    child_path.append(es[i].0.as_str());
                                    match props.position(es[i].0.as_str()) {
                                        Some(ci) => match props {
                                            JsonValue::Object(pes) => {
                                                proof {
                                                    assert(ps[ci as int] == (pes@[ci as int].0@, pes@[ci as int].1@));
                                                    assert(wf(ps[ci as int].1));
                                                    assert(decreases_to!(*schema => schema->Object_0));
                                                    assert(decreases_to!(schema->Object_0 => ses@));
                                                    assert(decreases_to!(ses@ => ses@[pi as int]));
                                                    assert(decreases_to!(ses@[pi as int] => ses@[pi as int].1));
                                                    assert(decreases_to!(ses@[pi as int].1 => ses@[pi as int].1->Object_0));
                                                    assert(decreases_to!(ses@[pi as int].1->Object_0 => pes@));
                                                    assert(decreases_to!(pes@ => pes@[ci as int]));
                                                    assert(decreases_to!(pes@[ci as int] => pes@[ci as int].1));
                                                }
                                                validate_value(&pes[ci].1, &es[i].1, &child_path, errors);
                                                proof {
                                                    assert(views(errors@) =~= prev + parts[i as int]);
                                                }
                                            },
                                            _ => {},
                                        },
                                        None => {
                                            let no_extra = match get_bool_of(schema, "additionalProperties") {
                                                Some(b) => !b,
                                                None => false,
                                            };
                                            if no_extra {
                                                let mut msg = child_path.clone();
                                                msg.append(" is not allowed");
                                                errors.push(msg);
                                            }
                                            proof {
                                                assert(views(errors@) =~= prev + parts[i as int]);
                                            }
                                        },
                                    }
                                    proof {
                                        assert(views(errors@) =~= after_missing + concat_all(parts.take(i as int + 1)));
                                    }
                                    i = i + 1;
                                }
                                proof {
                                    assert(parts.take(es.len() as int) =~= parts);
                                }
                            },
                            _ => {
                                proof {
                                    assert(!(schema@->Object_0[pi as int].1 is Object));
                                    assert(parts =~= Seq::<Seq<Seq<char>>>::empty());
                                    assert(views(errors@) =~= after_missing + concat_all(parts));
                                }
                            },
                        }
                    },
                    _ => {},
                },
                None => {
                    proof {
                        assert(parts =~= Seq::<Seq<Seq<char>>>::empty());
                        assert(views(errors@) =~= after_missing + concat_all(parts));
                    }
                },
            }
            proof {
                assert(value@ == Json::Object(m));
                assert(views(errors@) =~= before_object + object_errors(schema@, value@, path@));
            }
        },
        _ => {
            proof {
                assert(views(errors@) =~= before_object + object_errors(schema@, value@, path@));
            }
        },
    }
    let ghost before_items = views(errors@);
    match value {
        JsonValue::Array(xs) => {
            let ghost m = value@->Array_0;
            let ghost parts = item_error_parts(schema@, m, path@);
            match schema.position("items") {
                Some(ii) => match schema {
                    JsonValue::Object(ses) => {
                        proof {
                            assert(schema@->Object_0[ii as int] == (ses@[ii as int].0@, ses@[ii as int].1@));
                            assert(wf(ses@[ii as int].1@));
                            assert(parts.take(0) =~= Seq::<Seq<Seq<char>>>::empty());
                        }
                        let mut i: usize = 0;
                        while i < xs.len()
                            invariant
                                i <= xs.len(),
                                *value == JsonValue::Array(*xs),
                                *schema == JsonValue::Object(*ses),
                                ii < ses@.len(),
                                ii as int == key_index(schema@->Object_0, "items"@),
                                schema@->Object_0[ii as int].1 == ses@[ii as int].1@,
                                wf(ses@[ii as int].1@),
                                m == value@->Array_0,
                                parts == item_error_parts(schema@, m, path@),
                                parts.len() == m.len(),
                                views(errors@) == before_items + concat_all(parts.take(i as int)),
                            decreases xs.len() - i,
                        {
                            let ghost prev = views(errors@);
                            let mut child_path = path.clone();
                            child_path.append("[");
                            let num = crate::json_text::u64_text(i as u64);
                            child_path.append(num.as_str());
                            child_path.append("]");
                            proof {
                                lemma_concat_all_step(parts, i as int);
                                assert(decreases_to!(*schema => schema->Object_0));
                                assert(decreases_to!(schema->Object_0 => ses@));
                                assert(decreases_to!(ses@ => ses@[ii as int]));
                                assert(decreases_to!(ses@[ii as int] => ses@[ii as int].1));
                            }
                            validate_value(&ses[ii].1, &xs[i], &child_path, errors);
                            proof {
                                assert(views(errors@) =~= prev + parts[i as int]);
                                assert(views(errors@) =~= before_items + concat_all(parts.take(i as int + 1)));
                            }
                            i = i + 1;
                        }
                        proof {
                            assert(parts.take(xs.len() as int) =~= parts);
                        }
                    },
                    _ => {},
                },
                None => {
                    proof {
                        assert(parts =~= Seq::<Seq<Seq<char>>>::empty());
                    }
                },
            }
            proof {
                assert(value@ == Json::Array(m));
                assert(views(errors@) =~= before_items + items_errors(schema@, value@, path@));
            }
        },
        _ => {
            proof {
                assert(views(errors@) =~= before_items + items_errors(schema@, value@, path@));
            }
        },
    }
    proof {
        assert(views(errors@) =~= start + validation_errors(schema@, value@, path@));
    }
}

/// The errors of checking a payload against a schema, paths starting at `$`.
pub fn validate(schema: &JsonValue, value: &JsonValue) -> (r: Vec<String>)
    requires
        wf(schema@),
    ensures
        views(r@) == validation_errors(schema@, value@, "$"@),
{
    let mut errors: Vec<String> = Vec::new();
    let root = String::from_str("$");
    validate_value(schema, value, &root, &mut errors);
    proof {
        assert(views(errors@) =~= validation_errors(schema@, value@, "$"@));
    }
    errors
}

} // verus!

verus! {

/// Every character is an ASCII digit.
pub open spec fn all_digits(s: Seq<char>) -> bool {
    forall|i: int| 0 <= i < s.len() ==> '0' <= #[trigger] s[i] <= '9'
}

/// The number that a string of ASCII digits denotes in decimal.
pub open spec fn digits_value(s: Seq<char>) -> nat
    decreases s.len(),
{
    if s.len() == 0 {
        0
    } else {
        digits_value(s.drop_last()) * 10 + ((s.last() as int - '0' as int) as nat)
    }
}

/// What `str::parse::<i64>` accepts: an optional `+` or `-`, then one or
/// more ASCII digits, denoting a number in the range of `i64`.
pub open spec fn int_input(s: Seq<char>) -> Option<int> {
    let signed = s.len() > 0 && (s[0] == '-' || s[0] == '+');
    let body = if signed {
        s.drop_first()
    } else {
        s
    };
    if body.len() > 0 && all_digits(body) {
        let v: int = if s[0] == '-' {
            -(digits_value(body) as int)
        } else {
            digits_value(body) as int
        };
        if i64::MIN <= v <= i64::MAX {
            Some(v)
        } else {
            None
        }
    } else {
        None
    }
}

/// A JSON integer (`Value::from(i64)`).
pub open spec fn int_json(v: int) -> Json {
    if v >= 0 {
        Json::Number(Num::PosInt(v as u64))
    } else {
        Json::Number(Num::NegInt(v as i64))
    }
}

/// The value of one form field, or the message rejecting its text.
/// `parsed` is the field text read as JSON, when it is JSON.
pub open spec fn field_value(f: FieldView, parsed: Option<Json>) -> Result<Json, Seq<char>> {
    match f.kind {
        KindView::String => Ok(Json::Str(f.value)),
        KindView::Integer => match int_input(f.value) {
            Some(v) => Ok(int_json(v)),
            None => Err(f.label + " must be an integer"@),
        },
        KindView::Number => match float_input(f.value) {
            Some(j) => Ok(j),
            None => Err(f.label + " must be a number"@),
        },
        KindView::Boolean => if f.value == "true"@ {
            Ok(Json::Bool(true))
        } else if f.value == "false"@ {
            Ok(Json::Bool(false))
        } else {
            Err(f.label + " must be true or false"@)
        },
        KindView::Enum(values) => if values.contains(f.value) {
            match parsed {
                Some(j) => Ok(j),
                None => Ok(Json::Str(f.value)),
            }
        } else {
            Err(f.label + " must be one of "@ + join(values, ", "@))
        },
        KindView::Json => match parsed {
            Some(j) => Ok(j),
            None => Err(f.label + " must be valid JSON"@),
        },
    }
}

/// Inserting a member into an object as a map ordered by key does: the
/// member replaces one with the same key, or goes before the first
/// greater key.
pub open spec fn obj_insert(es: Seq<(Seq<char>, Json)>, k: Seq<char>, v: Json) -> Seq<(Seq<char>, Json)>
    decreases es.len(),
{
    if es.len() == 0 {
        seq![(k, v)]
    } else if es[0].0 == k {
        seq![(k, v)] + es.drop_first()
    } else if key_lt(k, es[0].0) {
        seq![(k, v)] + es
    } else {
        seq![es[0]] + obj_insert(es.drop_first(), k, v)
    }
}

/// The payload with `v` stored at `path`: each key but the last opens the
/// member it names, made an empty object when missing. `None` where a key
/// but the last meets a value that is not an object (the payload has no
/// place there). With a non-object at the last step nothing is stored.
pub open spec fn set_path(root: Json, path: Seq<Seq<char>>, v: Json) -> Option<Json>
    decreases path.len(),
{
    if path.len() == 0 {
        Some(root)
    } else {
        match root {
            Json::Object(es) => if path.len() == 1 {
                Some(Json::Object(obj_insert(es, path[0], v)))
            } else {
                let child = match get(root, path[0]) {
                    Some(c) => c,
                    None => Json::Object(Seq::empty()),
                };
                match set_path(child, path.drop_first(), v) {
                    Some(c2) => Some(Json::Object(obj_insert(es, path[0], c2))),
                    None => None,
                }
            },
            _ => if path.len() == 1 {
                Some(root)
            } else {
                None
            },
        }
    }
}

/// The payload of the first `n` fields, or the message of the first field
/// rejected; `None` where a field's path has no place in the payload.
pub open spec fn fields_payload(fields: Seq<FieldView>, parsed: Seq<Option<Json>>, n: nat) -> Option<
    Result<Json, Seq<char>>,
>
    decreases n,
{
    if n == 0 {
        Some(Ok(Json::Object(Seq::empty())))
    } else {
        match fields_payload(fields, parsed, (n - 1) as nat) {
            Some(Ok(p)) => {
                let f = fields[n - 1];
                if f.value.len() == 0 && !f.required {
                    Some(Ok(p))
                } else {
                    match field_value(f, parsed[n - 1]) {
                        Ok(v) => match set_path(p, f.path, v) {
                            Some(p2) => Some(Ok(p2)),
                            None => None,
                        },
                        Err(m) => Some(Err(m)),
                    }
                }
            },
            other => other,
        }
    }
}

/// A payload checked against the schema: the payload itself, or its
/// errors joined with `; `.
pub open spec fn checked_payload(schema: Json, p: Json) -> Result<Json, Seq<char>> {
    let errors = validation_errors(schema, p, "$"@);
    if errors.len() == 0 {
        Ok(p)
    } else {
        Err(join(errors, "; "@))
    }
}

/// What `build_payload` gives for a form. `parsed` holds, for raw JSON
/// input, the one outcome of reading the text (the value or the reader's
/// message); for fields, each field's text read as JSON (`Err` where it is
/// not JSON). `None` where a field's path has no place in the payload.
pub open spec fn payload_outcome(mode: ModeView, schema: Json, parsed: Seq<Result<Json, Seq<char>>>) -> Option<
    Result<Json, Seq<char>>,
> {
    match mode {
        ModeView::RawJson(_) => match parsed[0] {
            Ok(p) => Some(checked_payload(schema, p)),
            Err(m) => Some(Err("raw input is not valid JSON: "@ + m)),
        },
        ModeView::Fields(fields) => {
            let ps = Seq::new(parsed.len(), |i: int| parsed[i].ok());
            match fields_payload(fields, ps, fields.len()) {
                Some(Ok(p)) => Some(checked_payload(schema, p)),
                other => other,
            }
        },
    }
}

/// What reading a text as JSON gives: the value, or the reader's message.
pub open spec fn read_result(text: Seq<char>) -> Result<Json, Seq<char>> {
    match json_read(text) {
        Some(j) => Ok(j),
        None => Err(json_read_error(text)),
    }
}

/// A form's text read as JSON: for raw input the whole text, for fields
/// each field's text.
pub open spec fn form_readings(mode: ModeView) -> Seq<Result<Json, Seq<char>>> {
    match mode {
        ModeView::RawJson(t) => seq![read_result(t)],
        ModeView::Fields(fs) => Seq::new(fs.len(), |i: int| read_result(fs[i].value)),
    }
}

/// What `build_payload` gives for a form: its text read as JSON, the
/// payload built from it and checked against the schema. `None` where a
/// field's path has no place in the payload.
pub open spec fn form_payload(mode: ModeView, schema: Json) -> Option<Result<Json, Seq<char>>> {
    payload_outcome(mode, schema, form_readings(mode))
}

} // verus!

verus! {

proof fn lemma_digits_value_prefix(s: Seq<char>, k: int)
    requires
        0 <= k <= s.len(),
    ensures
        digits_value(s.take(k)) <= digits_value(s),
    decreases s.len(),
{
    if k < s.len() {
        assert(s.drop_last().take(k) =~= s.take(k));
        lemma_digits_value_prefix(s.drop_last(), k);
    } else {
        assert(s.take(k) =~= s);
    }
}

/// `str::parse::<i64>`.
fn parse_i64(s: &str) -> (r: Option<i64>)
    ensures
        match r {
            Some(v) => int_input(s@) == Some(v as int),
            None => int_input(s@) is None,
        },
{
    let cs = chars_of(s);
    let n = cs.len();
    if n == 0 {
        return None;
    }
    let signed = cs[0] == '-' || cs[0] == '+';
    let negative = cs[0] == '-';
    let start: usize = if signed {
        1
    } else {
        0
    };
    let ghost body = s@.subrange(start as int, n as int);
    proof {
        if signed {
            assert(body =~= s@.drop_first());
        } else {
            assert(body =~= s@);
        }
    }
    if start >= n {
        return None;
    }
    let mut acc: u64 = 0;
    let mut i: usize = start;
    while i < n
        invariant
            start <= i <= n,
            start < n,
            n == cs@.len(),
            cs@ == s@,
            body == s@.subrange(start as int, n as int),
            acc as nat == digits_value(body.take(i - start)),
            acc <= 9223372036854775808u64,
            all_digits(body.take(i - start)),
            s@.len() > 0,
            negative == (s@[0] == '-'),
            body == (if s@[0] == '-' || s@[0] == '+' {
                s@.drop_first()
            } else {
                s@
            }),
        decreases n - i,
    {
        let c = cs[i];
        let ghost k: int = i - start;
        proof {
            assert(body[k] == c);
        }
        if !('0' <= c && c <= '9') {
            proof {
                assert(!all_digits(body));
            }
            return None;
        }
        let d: u64 = (c as u32 - 48u32) as u64;
        proof {
            assert(body.take(k + 1).drop_last() =~= body.take(k));
            assert(body.take(k + 1).last() == c);
            assert(digits_value(body.take(k + 1)) == digits_value(body.take(k)) * 10 + d);
        }
        if acc > 922337203685477580u64 || (acc == 922337203685477580u64 && d > 8) {
            proof {
                lemma_digits_value_prefix(body, k + 1);
                assert(digits_value(body) > 9223372036854775808);
            }
            return None;
        }
        acc = acc * 10 + d;
        proof {
            assert forall|j: int| 0 <= j < k + 1 implies '0' <= #[trigger] body.take(k + 1)[j] <= '9' by {
                if j < k {
                    assert(body.take(k + 1)[j] == body.take(k)[j]);
                }
            }
        }
        i = i + 1;
    }
    proof {
        assert(body.take(n - start) =~= body);
    }
    if negative {
        if acc == 9223372036854775808u64 {
            Some(i64::MIN)
        } else {
            let m: i64 = acc as i64;
            Some(-m)
        }
    } else {
        if acc > 9223372036854775807u64 {
            None
        } else {
            Some(acc as i64)
        }
    }
}

} // verus!

verus! {

/// The view of an optional value.
pub open spec fn opt_view(o: Option<JsonValue>) -> Option<Json> {
    match o {
        Some(j) => Some(j@),
        None => None,
    }
}

/// A field's message as a validation error.
fn rejection(label: &String, tail: &str) -> (r: Error)
    ensures
        r matches Error::Validation(m) && m@ == label@ + tail@,
{
    let mut m = label.clone();
    m.append(tail);
    Error::Validation(m)
}

fn contains_string(values: &Vec<String>, s: &String) -> (r: bool)
    ensures
        r == views(values@).contains(s@),
{
    let mut i: usize = 0;
    while i < values.len()
        invariant
            i <= values.len(),
            forall|j: int| 0 <= j < i ==> views(values@)[j] != s@,
        decreases values.len() - i,
    {
        if str_eq(values[i].as_str(), s.as_str()) {
            proof {
                assert(views(values@)[i as int] == s@);
            }
            return true;
        }
        i = i + 1;
    }
    false
}

/// The value of one form field (`parsed` is its text read as JSON, where
/// it is JSON), or the validation error naming the field.
fn field_from(field: &FormField, parsed: Option<JsonValue>) -> (r: Result<JsonValue, Error>)
    ensures
        match field_value(field@, opt_view(parsed)) {
            Ok(j) => r matches Ok(v) && v@ == j,
            Err(m) => r matches Err(Error::Validation(t)) && t@ == m,
        },
        (parsed matches Some(j) ==> wf(j@)) ==> (r matches Ok(v) ==> wf(v@)),
{
    match &field.kind {
        FieldKind::String => Ok(JsonValue::String(field.value.clone())),
        FieldKind::Integer => match parse_i64(field.value.as_str()) {
            Some(v) => if v >= 0 {
                Ok(JsonValue::Number(JsonNumber::PosInt(v as u64)))
            } else {
                Ok(JsonValue::Number(JsonNumber::NegInt(v)))
            },
            None => Err(rejection(&field.label, " must be an integer")),
        },
        FieldKind::Number => match parse_float_input(field.value.as_str()) {
            Some(v) => Ok(v),
            None => Err(rejection(&field.label, " must be a number")),
        },
        FieldKind::Boolean => {
            if str_eq(field.value.as_str(), "true") {
                Ok(JsonValue::Bool(true))
            } else if str_eq(field.value.as_str(), "false") {
                Ok(JsonValue::Bool(false))
            } else {
                Err(rejection(&field.label, " must be true or false"))
            }
        },
        FieldKind::Enum(values) => {
            if !contains_string(values, &field.value) {
                let mut m = field.label.clone();
                m.append(" must be one of ");
                let listed = join_strings(values, ", ");
                m.append(listed.as_str());
                proof {
                    assert(m@ =~= field.label@ + " must be one of "@ + join(views(values@), ", "@));
                }
                return Err(Error::Validation(m));
            }
            match parsed {
                Some(j) => Ok(j),
                None => Ok(JsonValue::String(field.value.clone())),
            }
        },
        FieldKind::Json => match parsed {
            Some(j) => Ok(j),
            None => Err(rejection(&field.label, " must be valid JSON")),
        },
    }
}


/// The value of one form field, its text read as the field's kind asks
/// (as JSON for enumerated and JSON fields), or the validation error
/// naming the field.
pub fn parse_field(field: &FormField) -> (r: Result<JsonValue, Error>)
    ensures
        match field_value(field@, json_read(field@.value)) {
            Ok(j) => r matches Ok(v) && v@ == j && wf(v@),
            Err(m) => r matches Err(Error::Validation(t)) && t@ == m,
        },
{
    let parsed = match read_json(field.value.as_str()) {
        Ok(j) => Some(j),
        Err(_) => None,
    };
    field_from(field, parsed)
}

} // verus!

verus! {

/// The model of an object's members (as `json_view` gives them).
pub open spec fn members_view(o: Seq<(String, JsonValue)>) -> Seq<(Seq<char>, Json)> {
    Seq::new(
        o.len(),
        |i: int|
            if 0 <= i < o.len() {
                (o[i].0@, json_view(o[i].1))
            } else {
                (Seq::empty(), Json::Null)
            },
    )
}

/// Where the members before `i` have smaller keys and the member at `i`
/// (if any) does not, inserting splits the members at `i`.
proof fn lemma_obj_insert_split(es: Seq<(Seq<char>, Json)>, k: Seq<char>, v: Json, i: int)
    requires
        0 <= i <= es.len(),
        forall|j: int| 0 <= j < i ==> key_lt(#[trigger] es[j].0, k),
        i == es.len() || !key_lt(es[i].0, k),
    ensures
        obj_insert(es, k, v) == if i < es.len() && es[i].0 == k {
            es.take(i) + seq![(k, v)] + es.skip(i + 1)
        } else {
            es.take(i) + seq![(k, v)] + es.skip(i)
        },
    decreases i,
{
    if i == 0 {
        if es.len() > 0 && es[0].0 != k {
            lemma_key_lt_total(es[0].0, k);
        }
        assert(es.take(0) + seq![(k, v)] + es.skip(1) =~= seq![(k, v)] + es.drop_first());
        assert(es.take(0) + seq![(k, v)] + es.skip(0) =~= seq![(k, v)] + es);
    } else {
        lemma_key_lt_irreflexive(k);
        lemma_key_lt_asymmetric(es[0].0, k);
        assert(key_lt(es[0].0, k));
        let rest = es.drop_first();
        assert forall|j: int| 0 <= j < i - 1 implies key_lt(#[trigger] rest[j].0, k) by {
            assert(rest[j] == es[j + 1]);
        }
        lemma_obj_insert_split(rest, k, v, i - 1);
        if i < es.len() && es[i].0 == k {
            assert(seq![es[0]] + (rest.take(i - 1) + seq![(k, v)] + rest.skip(i)) =~= es.take(i) + seq![(k, v)]
                + es.skip(i + 1));
        } else {
            assert(seq![es[0]] + (rest.take(i - 1) + seq![(k, v)] + rest.skip(i - 1)) =~= es.take(i) + seq![
                (k, v),
            ] + es.skip(i));
        }
    }
}

/// The members after inserting: the inserted member and members that were
/// there before; every earlier member with another key stays.
pub proof fn lemma_obj_insert_members(es: Seq<(Seq<char>, Json)>, k: Seq<char>, v: Json)
    ensures
        forall|j: int| 0 <= j < obj_insert(es, k, v).len() ==> #[trigger] obj_insert(es, k, v)[j] == (k, v)
            || exists|m: int| 0 <= m < es.len() && es[m] == obj_insert(es, k, v)[j],
        exists|j: int| 0 <= j < obj_insert(es, k, v).len() && obj_insert(es, k, v)[j] == (k, v),
        forall|m: int| 0 <= m < es.len() && (#[trigger] es[m]).0 != k ==> exists|j: int|
            0 <= j < obj_insert(es, k, v).len() && obj_insert(es, k, v)[j] == es[m],
    decreases es.len(),
{
    let r = obj_insert(es, k, v);
    if es.len() == 0 {
        assert(r[0] == (k, v));
    } else if es[0].0 == k || key_lt(k, es[0].0) {
        let off: int = if es[0].0 == k {
            0
        } else {
            1
        };
        assert(r[0] == (k, v));
        assert forall|j: int| 0 <= j < r.len() implies #[trigger] r[j] == (k, v) || exists|m: int|
            0 <= m < es.len() && es[m] == r[j] by {
            if j > 0 {
                assert(es[j - 1 + (1 - off)] == r[j]);
            }
        }
        assert forall|m: int| 0 <= m < es.len() && (#[trigger] es[m]).0 != k implies exists|j: int|
            0 <= j < r.len() && r[j] == es[m] by {
            assert(r[m + off] == es[m]);
        }
    } else {
        let rest = es.drop_first();
        lemma_obj_insert_members(rest, k, v);
        let t = obj_insert(rest, k, v);
        assert forall|j: int| 0 <= j < r.len() implies #[trigger] r[j] == (k, v) || exists|m: int|
            0 <= m < es.len() && es[m] == r[j] by {
            if j > 0 {
                assert(r[j] == t[j - 1]);
                if t[j - 1] != (k, v) {
                    let m = choose|m: int| 0 <= m < rest.len() && rest[m] == t[j - 1];
                    assert(es[m + 1] == r[j]);
                }
            } else {
                assert(es[0] == r[0]);
            }
        }
        let jt = choose|j: int| 0 <= j < t.len() && t[j] == (k, v);
        assert(r[jt + 1] == (k, v));
        assert forall|m: int| 0 <= m < es.len() && (#[trigger] es[m]).0 != k implies exists|j: int|
            0 <= j < r.len() && r[j] == es[m] by {
            if m == 0 {
                assert(r[0] == es[0]);
            } else {
                assert(rest[m - 1] == es[m]);
                let j = choose|j: int| 0 <= j < t.len() && t[j] == rest[m - 1];
                assert(r[j + 1] == es[m]);
            }
        }
    }
}

/// Inserting into members ordered by key keeps them ordered.
#[verifier::rlimit(30)]
pub proof fn lemma_obj_insert_sorted(es: Seq<(Seq<char>, Json)>, k: Seq<char>, v: Json)
    requires
        keys_sorted(es),
    ensures
        keys_sorted(obj_insert(es, k, v)),
    decreases es.len(),
{
    let r = obj_insert(es, k, v);
    if es.len() == 0 {
    } else if es[0].0 == k {
        assert forall|a: int, b: int| 0 <= a < b < r.len() implies key_lt(#[trigger] r[a].0, #[trigger] r[b].0) by {
            assert(r[b] == es[b]);
            if a > 0 {
                assert(r[a] == es[a]);
            }
        }
    } else if key_lt(k, es[0].0) {
        assert forall|a: int, b: int| 0 <= a < b < r.len() implies key_lt(#[trigger] r[a].0, #[trigger] r[b].0) by {
            assert(r[b] == es[b - 1]);
            if a > 0 {
                assert(r[a] == es[a - 1]);
            } else if b - 1 > 0 {
                lemma_key_lt_transitive(k, es[0].0, es[b - 1].0);
            }
        }
    } else {
        let rest = es.drop_first();
        assert(keys_sorted(rest)) by {
            assert forall|a: int, b: int| 0 <= a < b < rest.len() implies key_lt(
                #[trigger] rest[a].0,
                #[trigger] rest[b].0,
            ) by {
                assert(rest[a] == es[a + 1] && rest[b] == es[b + 1]);
            }
        }
        lemma_obj_insert_sorted(rest, k, v);
        let t = obj_insert(rest, k, v);
        lemma_key_lt_total(es[0].0, k);
        assert(key_lt(es[0].0, k));
        assert forall|a: int, b: int| 0 <= a < b < r.len() implies key_lt(#[trigger] r[a].0, #[trigger] r[b].0) by {
            if a > 0 {
                assert(r[a] == t[a - 1] && r[b] == t[b - 1]);
            } else {
                assert(r[b] == t[b - 1]);
                origin_of(rest, k, v, b - 1);
                if t[b - 1] == (k, v) {
                } else {
                    let m = choose|m: int| 0 <= m < rest.len() && rest[m] == t[b - 1];
                    assert(es[m + 1] == t[b - 1]);
                    assert(key_lt(es[0].0, es[m + 1].0));
                }
            }
        }
    }
}

/// Reading an object after storing a member: the stored value under its
/// key, and under every other key what was there before.
pub proof fn lemma_obj_insert_get(es: Seq<(Seq<char>, Json)>, k: Seq<char>, v: Json, other: Seq<char>)
    requires
        keys_sorted(es),
    ensures
        get(Json::Object(obj_insert(es, k, v)), k) == Some(v),
        other != k ==> get(Json::Object(obj_insert(es, k, v)), other) == get(Json::Object(es), other),
{
    let r = obj_insert(es, k, v);
    lemma_obj_insert_sorted(es, k, v);
    let j = member_at(es, k, v);
    lemma_get_at(r, k, j);
    if other != k {
        if exists|m: int| 0 <= m < es.len() && (#[trigger] es[m]).0 == other {
            let m = choose|m: int| 0 <= m < es.len() && (#[trigger] es[m]).0 == other;
            lemma_get_at(es, other, m);
            let j2 = kept_at(es, k, v, m);
            lemma_get_at(r, other, j2);
        } else {
            lemma_key_absent(es, other);
            assert forall|j: int| 0 <= j < r.len() implies (#[trigger] r[j]).0 != other by {
                origin_of(es, k, v, j);
            }
            lemma_key_absent(r, other);
        }
    }
}

/// Where the inserted member stands.
proof fn member_at(es: Seq<(Seq<char>, Json)>, k: Seq<char>, v: Json) -> (j: int)
    ensures
        0 <= j < obj_insert(es, k, v).len(),
        obj_insert(es, k, v)[j] == (k, v),
{
    lemma_obj_insert_members(es, k, v);
    choose|j: int| 0 <= j < obj_insert(es, k, v).len() && obj_insert(es, k, v)[j] == (k, v)
}

/// Where an earlier member with another key stands after inserting.
proof fn kept_at(es: Seq<(Seq<char>, Json)>, k: Seq<char>, v: Json, m: int) -> (j: int)
    requires
        0 <= m < es.len(),
        es[m].0 != k,
    ensures
        0 <= j < obj_insert(es, k, v).len(),
        obj_insert(es, k, v)[j] == es[m],
{
    lemma_obj_insert_members(es, k, v);
    assert(es[m].0 != k);
    choose|j: int| 0 <= j < obj_insert(es, k, v).len() && obj_insert(es, k, v)[j] == es[m]
}

/// A member after inserting is the inserted one or an earlier one.
proof fn origin_of(es: Seq<(Seq<char>, Json)>, k: Seq<char>, v: Json, j: int)
    requires
        0 <= j < obj_insert(es, k, v).len(),
    ensures
        obj_insert(es, k, v)[j] == (k, v) || exists|m: int| 0 <= m < es.len() && es[m] == obj_insert(es, k, v)[j],
{
    lemma_obj_insert_members(es, k, v);
    assert(obj_insert(es, k, v)[j] == obj_insert(es, k, v)[j]);
}

/// Storing a well-formed value into a well-formed object keeps it
/// well-formed.
pub proof fn lemma_obj_insert_wf(es: Seq<(Seq<char>, Json)>, k: Seq<char>, v: Json)
    requires
        wf(Json::Object(es)),
        wf(v),
    ensures
        wf(Json::Object(obj_insert(es, k, v))),
{
    let r = obj_insert(es, k, v);
    lemma_obj_insert_sorted(es, k, v);
    assert forall|j: int| 0 <= j < r.len() implies wf(#[trigger] r[j].1) by {
        origin_of(es, k, v, j);
        if r[j] != (k, v) {
            let m = choose|m: int| 0 <= m < es.len() && es[m] == r[j];
            assert(wf(es[m].1));
        }
    }
}

/// Stores a member into an object's members as a map ordered by key does.
fn obj_insert_exec(es: Vec<(String, JsonValue)>, k: String, v: JsonValue) -> (r: Vec<(String, JsonValue)>)
    ensures
        members_view(r@) == obj_insert(members_view(es@), k@, v@),
{
    let ghost m = members_view(es@);
    let mut es = es;
    let mut i: usize = 0;
    while i < es.len() && key_less(es[i].0.as_str(), k.as_str())
        invariant
            i <= es.len(),
            m == members_view(es@),
            forall|j: int| 0 <= j < i ==> key_lt(#[trigger] m[j].0, k@),
        decreases es.len() - i,
    {
        proof {
            assert(m[i as int].0 == es@[i as int].0@);
        }
        i = i + 1;
    }
    proof {
        if i < es.len() {
            assert(m[i as int].0 == es@[i as int].0@);
        }
        lemma_obj_insert_split(m, k@, v@, i as int);
    }
    let ghost kv = k@;
    let ghost vv = v@;
    if i < es.len() && str_eq(es[i].0.as_str(), k.as_str()) {
        let _old = es.remove(i);
        es.insert(i, (k, v));
        proof {
            assert(members_view(es@) =~= m.take(i as int) + seq![(kv, vv)] + m.skip(i as int + 1));
        }
    } else {
        es.insert(i, (k, v));
        proof {
            assert(members_view(es@) =~= m.take(i as int) + seq![(kv, vv)] + m.skip(i as int));
        }
    }
    es
}

} // verus!

verus! {

/// A member of a well-formed value is well-formed.
pub proof fn lemma_get_wf(j: Json, key: Seq<char>)
    requires
        wf(j),
        get(j, key) is Some,
    ensures
        wf(get(j, key)->Some_0),
{
    let es = j->Object_0;
    let i = key_index(es, key);
    assert(wf(es[i].1));
}

/// Storing a well-formed value keeps a well-formed payload well-formed.
pub proof fn lemma_set_path_wf(root: Json, path: Seq<Seq<char>>, v: Json)
    requires
        wf(root),
        wf(v),
        set_path(root, path, v) is Some,
    ensures
        wf(set_path(root, path, v)->Some_0),
    decreases path.len(),
{
    if path.len() > 0 {
        if let Json::Object(es) = root {
            if path.len() == 1 {
                lemma_obj_insert_wf(es, path[0], v);
            } else {
                let child = match get(root, path[0]) {
                    Some(c) => c,
                    None => Json::Object(Seq::empty()),
                };
                if get(root, path[0]) is Some {
                    lemma_get_wf(root, path[0]);
                }
                lemma_set_path_wf(child, path.drop_first(), v);
                lemma_obj_insert_wf(es, path[0], set_path(child, path.drop_first(), v)->Some_0);
            }
        }
    }
}

/// The value reached by following `path` from `j`.
pub open spec fn path_get(j: Json, path: Seq<Seq<char>>) -> Option<Json>
    decreases path.len(),
{
    if path.len() == 0 {
        Some(j)
    } else {
        match get(j, path[0]) {
            Some(c) => path_get(c, path.drop_first()),
            None => None,
        }
    }
}

/// Along `path`, every value reached before the last key is an object or
/// missing: the path has a place in `j`.
pub open spec fn path_open(j: Json, path: Seq<Seq<char>>) -> bool
    decreases path.len(),
{
    j is Object && (path.len() <= 1 || match get(j, path[0]) {
        Some(c) => path_open(c, path.drop_first()),
        None => true,
    })
}

/// A value stored at a path that has a place in the payload is what the
/// payload then holds at that path.
pub proof fn lemma_set_path_reads_back(root: Json, path: Seq<Seq<char>>, v: Json)
    requires
        wf(root),
        path.len() > 0,
        path_open(root, path),
    ensures
        set_path(root, path, v) is Some,
        path_get(set_path(root, path, v)->Some_0, path) == Some(v),
    decreases path.len(),
{
    let es = root->Object_0;
    if path.len() == 1 {
        lemma_obj_insert_get(es, path[0], v, path[0]);
        assert(path.drop_first().len() == 0);
        assert(path_get(v, path.drop_first()) == Some(v));
        let r = Json::Object(obj_insert(es, path[0], v));
        assert(set_path(root, path, v) == Some(r));
        assert(get(r, path[0]) == Some(v));
    } else {
        let child = match get(root, path[0]) {
            Some(c) => c,
            None => Json::Object(Seq::empty()),
        };
        if get(root, path[0]) is Some {
            lemma_get_wf(root, path[0]);
        } else {
            assert(path_open(child, path.drop_first()));
        }
        lemma_set_path_reads_back(child, path.drop_first(), v);
        let c2 = set_path(child, path.drop_first(), v)->Some_0;
        lemma_obj_insert_get(es, path[0], c2, path[0]);
        let r = Json::Object(obj_insert(es, path[0], c2));
        assert(set_path(root, path, v) == Some(r));
        assert(get(r, path[0]) == Some(c2));
        assert(path_get(r, path) == path_get(c2, path.drop_first()));
    }
}

/// Stores `v` at `path` (from `start` on) in a payload.
fn set_path_exec(root: JsonValue, path: &Vec<String>, start: usize, v: JsonValue) -> (r: Option<JsonValue>)
    requires
        start <= path.len(),
        wf(root@),
        wf(v@),
    ensures
        match r {
            Some(x) => set_path(root@, views(path@).skip(start as int), v@) == Some(x@) && wf(x@),
            None => set_path(root@, views(path@).skip(start as int), v@) is None,
        },
    decreases path.len() - start,
{
    let ghost p = views(path@).skip(start as int);
    if start == path.len() {
        proof {
            assert(p.len() == 0);
        }
        return Some(root);
    }
    proof {
        assert(p[0] == path@[start as int]@);
        assert(p.drop_first() =~= views(path@).skip(start as int + 1));
    }
    let last = start + 1 == path.len();
    if !root.is_object() {
        if last {
            return Some(root);
        } else {
            return None;
        }
    }
    let newv: JsonValue = if last {
        v
    } else {
        let child: JsonValue = match root.get(path[start].as_str()) {
            Some(c) => clone_json(c),
            None => {
                let e = JsonValue::Object(Vec::new());
                proof {
                    assert(e@->Object_0 =~= Seq::<(Seq<char>, Json)>::empty());
                }
                e
            },
        };
        proof {
            if get(root@, p[0]) is Some {
                lemma_get_wf(root@, p[0]);
            }
        }
        match set_path_exec(child, path, start + 1, v) {
            Some(c2) => c2,
            None => {
                return None;
            },
        }
    };
    match root {
        JsonValue::Object(es) => {
            let ghost m = members_view(es@);
            proof {
                assert(json_view(JsonValue::Object(es))->Object_0 =~= m);
                lemma_obj_insert_wf(m, p[0], newv@);
            }
            let es2 = obj_insert_exec(es, path[start].clone(), newv);
            proof {
                assert(json_view(JsonValue::Object(es2))->Object_0 =~= members_view(es2@));
            }
            Some(JsonValue::Object(es2))
        },
        _ => None,
    }
}

/// An outcome stays once a field is rejected or has no place.
proof fn lemma_fields_payload_stays(fields: Seq<FieldView>, ps: Seq<Option<Json>>, k: nat, n: nat)
    requires
        k <= n,
        !(fields_payload(fields, ps, k) matches Some(Ok(_))),
    ensures
        fields_payload(fields, ps, n) == fields_payload(fields, ps, k),
    decreases n,
{
    if n > k {
        lemma_fields_payload_stays(fields, ps, k, (n - 1) as nat);
    }
}

/// The views of the readings of field texts or raw input.
pub open spec fn parsed_views(parsed: Seq<Result<JsonValue, String>>) -> Seq<Result<Json, Seq<char>>> {
    Seq::new(
        parsed.len(),
        |i: int|
            match parsed[i] {
                Ok(j) => Ok(j@),
                Err(m) => Err(m@),
            },
    )
}

/// The readings that succeeded.
pub open spec fn parsed_values(parsed: Seq<Result<Json, Seq<char>>>) -> Seq<Option<Json>> {
    Seq::new(parsed.len(), |i: int| parsed[i].ok())
}

/// The outcome of `fields_payload`, or `None` where a path has no place.
fn fields_payload_exec(fields: &Vec<FormField>, parsed: &Vec<Result<JsonValue, String>>) -> (r: Option<
    Result<JsonValue, Error>,
>)
    requires
        parsed.len() == fields.len(),
        forall|i: int| 0 <= i < parsed.len() ==> (#[trigger] parsed@[i] matches Ok(j) ==> wf(j@)),
    ensures
        match fields_payload(field_views(fields@), parsed_values(parsed_views(parsed@)), fields.len() as nat) {
            Some(Ok(p)) => r matches Some(Ok(x)) && x@ == p && wf(x@),
            Some(Err(m)) => r matches Some(Err(Error::Validation(t))) && t@ == m,
            None => r is None,
        },
{
    let ghost fv = field_views(fields@);
    let ghost ps = parsed_values(parsed_views(parsed@));
    let mut payload = JsonValue::Object(Vec::new());
    proof {
        assert(payload@->Object_0 =~= Seq::<(Seq<char>, Json)>::empty());
    }
    let mut i: usize = 0;
    while i < fields.len()
        invariant
            i <= fields.len(),
            parsed.len() == fields.len(),
            fv == field_views(fields@),
            ps == parsed_values(parsed_views(parsed@)),
            forall|j: int| 0 <= j < parsed.len() ==> (#[trigger] parsed@[j] matches Ok(x) ==> wf(x@)),
            fields_payload(fv, ps, i as nat) == Some(Ok::<Json, Seq<char>>(payload@)),
            wf(payload@),
        decreases fields.len() - i,
    {
        let f = &fields[i];
        proof {
            assert(fv[i as int] == f@);
        }
        if !(f.value.as_str().is_empty() && !f.required) {
            let pj: Option<JsonValue> = match &parsed[i] {
                Ok(j) => Some(clone_json(j)),
                Err(_) => None,
            };
            proof {
                assert(opt_view(pj) == ps[i as int]);
            }
            match field_from(f, pj) {
                Err(e) => {
                    proof {
                        lemma_fields_payload_stays(fv, ps, (i + 1) as nat, fields.len() as nat);
                    }
                    return Some(Err(e));
                },
                Ok(v) => {
                    proof {
                        if parsed@[i as int] is Ok {
                            assert(wf(parsed@[i as int]->Ok_0@));
                        }
                    }
                    match set_path_exec(payload, &f.path, 0, v) {
                        Some(p2) => {
                            proof {
                                assert(views(f.path@).skip(0) =~= f@.path);
                            }
                            payload = p2;
                        },
                        None => {
                            proof {
                                assert(views(f.path@).skip(0) =~= f@.path);
                                lemma_fields_payload_stays(fv, ps, (i + 1) as nat, fields.len() as nat);
                            }
                            return None;
                        },
                    }
                },
            }
        }
        i = i + 1;
    }
    Some(Ok(payload))
}

} // verus!

verus! {

/// A payload checked against the schema.
fn check_payload(schema: &JsonValue, p: JsonValue) -> (r: Result<JsonValue, Error>)
    requires
        wf(schema@),
    ensures
        match checked_payload(schema@, p@) {
            Ok(j) => r matches Ok(x) && x@ == j,
            Err(m) => r matches Err(Error::Validation(t)) && t@ == m,
        },
{
    let errors = validate(schema, &p);
    if errors.len() == 0 {
        Ok(p)
    } else {
        Err(Error::Validation(join_strings(&errors, "; ")))
    }
}

/// The outcome of building a payload, `None` where a field's path has no
/// place in the payload.
pub(crate) fn attempt_payload(mode: &FormMode, schema: &JsonValue, parsed: &Vec<Result<JsonValue, String>>) -> (r: Option<
    Result<JsonValue, Error>,
>)
    requires
        wf(schema@),
        match mode {
            FormMode::RawJson(_) => parsed.len() == 1,
            FormMode::Fields(fs) => parsed.len() == fs.len(),
        },
        forall|i: int| 0 <= i < parsed.len() ==> (#[trigger] parsed@[i] matches Ok(j) ==> wf(j@)),
    ensures
        match payload_outcome(mode@, schema@, parsed_views(parsed@)) {
            Some(Ok(p)) => r matches Some(Ok(x)) && x@ == p,
            Some(Err(m)) => r matches Some(Err(Error::Validation(t))) && t@ == m,
            None => r is None,
        },
{
    match mode {
        FormMode::RawJson(_) => match &parsed[0] {
            Ok(p) => Some(check_payload(schema, clone_json(p))),
            Err(message) => {
                let mut m = String::from_str("raw input is not valid JSON: ");
                m.append(message.as_str());
                Some(Err(Error::Validation(m)))
            },
        },
        FormMode::Fields(fields) => {
            proof {
                assert(parsed_values(parsed_views(parsed@)) =~= Seq::new(
                    parsed_views(parsed@).len(),
                    |i: int| parsed_views(parsed@)[i].ok(),
                ));
            }
            match fields_payload_exec(fields, parsed) {
                Some(Ok(p)) => Some(check_payload(schema, p)),
                Some(Err(e)) => Some(Err(e)),
                None => None,
            }
        },
    }
}

/// A form's text read as JSON, entry for entry as `form_readings` says.
pub(crate) fn read_form(mode: &FormMode) -> (r: Vec<Result<JsonValue, String>>)
    ensures
        parsed_views(r@) == form_readings(mode@),
        forall|i: int| 0 <= i < r@.len() ==> (#[trigger] r@[i] matches Ok(j) ==> wf(j@)),
{
    let mut r: Vec<Result<JsonValue, String>> = Vec::new();
    match mode {
        FormMode::RawJson(t) => {
            r.push(read_json(t.as_str()));
            proof {
                assert(parsed_views(r@) =~= form_readings(mode@));
            }
        },
        FormMode::Fields(fs) => {
            let ghost want = form_readings(mode@);
            let mut i: usize = 0;
            while i < fs.len()
                invariant
                    i <= fs.len(),
                    want == form_readings(mode@),
                    mode@ == ModeView::Fields(field_views(fs@)),
                    parsed_views(r@) == want.take(i as int),
                    forall|k: int| 0 <= k < r@.len() ==> (#[trigger] r@[k] matches Ok(j) ==> wf(j@)),
                decreases fs.len() - i,
            {
                let x = read_json(fs[i].value.as_str());
                let ghost before = r@;
                r.push(x);
                proof {
                    assert(field_views(fs@)[i as int].value == fs@[i as int].value@);
                    assert(parsed_views(r@) =~= parsed_views(before).push(want[i as int]));
                    assert(parsed_views(r@) =~= want.take(i as int + 1));
                }
                i = i + 1;
            }
            proof {
                assert(want.take(i as int) =~= want);
            }
        },
    }
    r
}

/// The payload a method input form gives, checked against the method's
/// schema: the raw text, or each field's text, read as JSON where the form
/// asks for it (`form_payload`); every path must have a place in the
/// payload.
pub fn build_payload(mode: &FormMode, schema: &JsonValue) -> (r: Result<JsonValue, Error>)
    requires
        wf(schema@),
        form_payload(mode@, schema@) is Some,
    ensures
        match form_payload(mode@, schema@) {
            Some(Ok(p)) => r matches Ok(x) && x@ == p,
            Some(Err(m)) => r matches Err(Error::Validation(t)) && t@ == m,
            None => false,
        },
{
    let parsed = read_form(mode);
    match attempt_payload(mode, schema, &parsed) {
        Some(outcome) => outcome,
        None => Err(Error::Validation(String::new())),
    }
}

/// `build_payload` where every field's path has a place in the payload,
/// else `None`.
pub fn try_build_payload(mode: &FormMode, schema: &JsonValue) -> (r: Option<Result<JsonValue, Error>>)
    requires
        wf(schema@),
    ensures
        match form_payload(mode@, schema@) {
            Some(Ok(p)) => r matches Some(Ok(x)) && x@ == p,
            Some(Err(m)) => r matches Some(Err(Error::Validation(t))) && t@ == m,
            None => r is None,
        },
{
    let parsed = read_form(mode);
    if attempt_payload(mode, schema, &parsed).is_some() {
        Some(build_payload(mode, schema))
    } else {
        None
    }
}

} // verus!

verus! {

/// Secrets never reach the review screen: in an object payload, the value
/// of every property that the schema marks secret (`writeOnly` or
/// `format: password`) is shown as `<redacted>`; the payload keeps its
/// keys.
pub proof fn lemma_secrets_redacted(schema: Json, v: Json, key: Seq<char>)
    requires
        wf(v),
        v is Object,
        !is_secret(schema),
        get(schema, "properties"@) matches Some(Json::Object(ps)) && get(Json::Object(ps), key) matches Some(p)
            && is_secret(p),
        get(v, key) is Some,
    ensures
        get(redacted(schema, v), key) == Some(Json::Str(redacted_marker())),
        redacted(schema, v) is Object,
        redacted(schema, v)->Object_0.len() == v->Object_0.len(),
        forall|i: int|
            0 <= i < v->Object_0.len() ==> (#[trigger] redacted(schema, v)->Object_0[i]).0 == v->Object_0[i].0,
{
    let es = v->Object_0;
    let ps = get(schema, "properties"@)->Some_0->Object_0;
    let out = redacted_members(ps, es);
    let i = key_index(es, key);
    assert(0 <= i < es.len() && es[i].0 == key);
    assert(out[i].0 == key);
    assert(out[i].1 == redacted(get(Json::Object(ps), key)->Some_0, es[i].1));
    assert(keys_sorted(out)) by {
        assert forall|a: int, b: int| 0 <= a < b < out.len() implies key_lt(#[trigger] out[a].0, #[trigger] out[b].0) by {
            assert(out[a].0 == es[a].0);
            assert(out[b].0 == es[b].0);
        }
    }
    lemma_get_at(out, key, i);
}

} // verus!

verus! {

/// Every value that the schema marks secret, at any depth (through
/// `properties` into objects and `items` into arrays), is `<redacted>`.
pub open spec fn secrets_hidden(schema: Json, v: Json) -> bool
    decreases v,
{
    if is_secret(schema) {
        v == Json::Str(redacted_marker())
    } else {
        match v {
            Json::Object(es) => match get(schema, "properties"@) {
                Some(Json::Object(ps)) => forall|i: int|
                    0 <= i < es.len() ==> match get(Json::Object(ps), (#[trigger] es[i]).0) {
                        Some(c) => secrets_hidden(c, es[i].1),
                        None => true,
                    },
                _ => true,
            },
            Json::Array(xs) => match get(schema, "items"@) {
                Some(item) => forall|i: int| 0 <= i < xs.len() ==> secrets_hidden(item, #[trigger] xs[i]),
                None => true,
            },
            _ => true,
        }
    }
}

/// Secrets are hidden at every depth: in what the review screen shows, every
/// value that the schema marks secret, wherever it sits, is `<redacted>`.
pub proof fn lemma_secrets_hidden(schema: Json, v: Json)
    ensures
        secrets_hidden(schema, redacted(schema, v)),
    decreases v,
{
    if !is_secret(schema) {
        match v {
            Json::Object(es) => match get(schema, "properties"@) {
                Some(Json::Object(ps)) => {
                    let out = redacted_members(ps, es);
                    assert forall|i: int| 0 <= i < out.len() implies match get(
                        Json::Object(ps),
                        (#[trigger] out[i]).0,
                    ) {
                        Some(c) => secrets_hidden(c, out[i].1),
                        None => true,
                    } by {
                        match get(Json::Object(ps), es[i].0) {
                            Some(c) => lemma_secrets_hidden(c, es[i].1),
                            None => {},
                        }
                    }
                },
                _ => {},
            },
            Json::Array(xs) => match get(schema, "items"@) {
                Some(item) => {
                    let out = redacted_items(item, xs);
                    assert forall|i: int| 0 <= i < out.len() implies secrets_hidden(item, #[trigger] out[i]) by {
                        lemma_secrets_hidden(item, xs[i]);
                    }
                },
                None => {},
            },
            _ => {},
        }
    }
}

/// Redacting twice changes nothing: what the review screen shows, redacted
/// again with the same schema, is the same.
pub proof fn lemma_redacted_idempotent(schema: Json, v: Json)
    ensures
        redacted(schema, redacted(schema, v)) == redacted(schema, v),
    decreases v,
{
    if !is_secret(schema) {
        match v {
            Json::Object(es) => match get(schema, "properties"@) {
                Some(Json::Object(ps)) => {
                    let m1 = redacted_members(ps, es);
                    let m2 = redacted_members(ps, m1);
                    assert forall|i: int| 0 <= i < m1.len() implies #[trigger] m2[i] == m1[i] by {
                        match get(Json::Object(ps), es[i].0) {
                            Some(c) => lemma_redacted_idempotent(c, es[i].1),
                            None => {},
                        }
                    }
                    assert(m2 =~= m1);
                },
                _ => {},
            },
            Json::Array(xs) => match get(schema, "items"@) {
                Some(item) => {
                    let a1 = redacted_items(item, xs);
                    let a2 = redacted_items(item, a1);
                    assert forall|i: int| 0 <= i < a1.len() implies #[trigger] a2[i] == a1[i] by {
                        lemma_redacted_idempotent(item, xs[i]);
                    }
                    assert(a2 =~= a1);
                },
                None => {},
            },
            _ => {},
        }
    }
}

} // verus!
