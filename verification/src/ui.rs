//! What the screens say: the text of each panel, line by line, with the
//! emphasis each piece of text is drawn with. Drawing it is left to the
//! terminal front end.
use vstd::prelude::*;
use crate::json::{JsonValue, JsonNumber, Json, Num, wf, get, get_str, key_index};
use crate::schema::{mask, input_text, input_text_of, is_required_name, get_str_of, is_required_name_exec, lemma_get_wf};
use crate::text::{join, views, chars_of, contains, contains_chars, join_strings};
use crate::state::{ascii_lower, lower_chars};
use crate::json_text::{nat_text, u64_text};
use crate::swamp::model::json_views;

verus! {

/// How a piece of text is drawn.
#[derive(Clone, Copy, PartialEq, Eq, Structural)]
pub enum Tone {
    Plain,
    Bold,
    Italic,
    Dim,
    /// Bold on a highlighted background: the entry under the cursor.
    Picked,
    /// The accent colour: the status line.
    Accent,
    /// The error colour.
    Alert,
}

/// A piece of a line.
pub struct Piece {
    pub text: String,
    pub tone: Tone,
}

pub open spec fn piece_view(p: Piece) -> (Seq<char>, Tone) {
    (p.text@, p.tone)
}

pub open spec fn line_view(l: Seq<Piece>) -> Seq<(Seq<char>, Tone)> {
    Seq::new(l.len(), |i: int| piece_view(l[i]))
}

/// The model of a list of lines.
pub open spec fn lines_view(ls: Seq<Vec<Piece>>) -> Seq<Seq<(Seq<char>, Tone)>> {
    Seq::new(ls.len(), |i: int| line_view(ls[i]@))
}

/// A line of one piece.
pub open spec fn one(t: Seq<char>, tone: Tone) -> Seq<(Seq<char>, Tone)> {
    seq![(t, tone)]
}

/// `n` spaces.
pub open spec fn spaces(n: nat) -> Seq<char> {
    Seq::new(n, |i: int| ' ')
}

/// The JSON kind of a value as the screens name it.
pub open spec fn kind_name(v: Json) -> Seq<char> {
    match v {
        Json::Null => "null"@,
        Json::Bool(_) => "boolean"@,
        Json::Number(Num::Float(_)) => "number"@,
        Json::Number(_) => "integer"@,
        Json::Str(_) => "string"@,
        Json::Array(_) => "array"@,
        Json::Object(_) => "object"@,
    }
}

/// A name that looks like it holds a secret: after lowering ASCII letters it
/// contains `secret`, `token`, `password`, `apikey` or `api_key`.
pub open spec fn secret_name(name: Seq<char>) -> bool {
    let l = ascii_lower(name);
    contains(l, "secret"@) || contains(l, "token"@) || contains(l, "password"@) || contains(l, "apikey"@)
        || contains(l, "api_key"@)
}

/// A schema that uses `$ref`, `oneOf`, `anyOf`, `allOf`, `if`, `then` or
/// `else` at its top level.
pub open spec fn complex_schema(v: Json) -> bool {
    get(v, "$ref"@) is Some || get(v, "oneOf"@) is Some || get(v, "anyOf"@) is Some || get(v, "allOf"@) is Some
        || get(v, "if"@) is Some || get(v, "then"@) is Some || get(v, "else"@) is Some
}

/// A value shown in a line: a string as it is, anything else as compact JSON.
pub open spec fn shown(v: Json) -> Seq<char> {
    input_text(v)
}

/// The line of one global argument: secret-looking names are masked unless
/// the value is a `${{ … }}` expression.
pub open spec fn global_line(name: Seq<char>, v: Json) -> Seq<(Seq<char>, Tone)> {
    let masked = secret_name(name) && !(v matches Json::Str(t) && t.len() >= 3 && t.take(3) == "${{"@);
    let display = if masked {
        mask()
    } else {
        shown(v)
    };
    seq![("  "@ + name, Tone::Bold), (" <"@ + kind_name(v) + "> = "@ + display, Tone::Plain)]
}

/// The lines of a definition's global arguments: one per member of an
/// object, in key order; anything else as one dim line.
pub open spec fn global_lines(v: Json) -> Seq<Seq<(Seq<char>, Tone)>> {
    match v {
        Json::Object(es) => Seq::new(es.len(), |i: int| global_line(es[i].0, es[i].1)),
        _ => seq![one("  "@ + shown(v), Tone::Dim)],
    }
}

} // verus!

verus! {

/// The text of a line, piece by piece.
pub type LineV = Seq<(Seq<char>, Tone)>;

/// What a property's line calls its kind: `enum` when it lists values,
/// else its `type`, else `any`.
pub open spec fn kind_label(p: Json) -> Seq<char> {
    if get(p, "enum"@) is Some {
        "enum"@
    } else {
        match get_str(p, "type"@) {
            Some(t) => t,
            None => "any"@,
        }
    }
}

/// The first of `maximum`, `maxLength` and `maxItems` that a property has.
pub open spec fn max_of(p: Json) -> Option<Json> {
    match get(p, "maximum"@) {
        Some(m) => Some(m),
        None => match get(p, "maxLength"@) {
            Some(m) => Some(m),
            None => get(p, "maxItems"@),
        },
    }
}

/// The notes after a property's kind: whether it is required, its default,
/// its maximum.
pub open spec fn property_notes(p: Json, required: bool) -> Seq<Seq<char>> {
    (if required {
        seq!["required"@]
    } else {
        Seq::empty()
    }) + (match get(p, "default"@) {
        Some(d) => seq!["default: "@ + shown(d)],
        None => Seq::empty(),
    }) + (match max_of(p) {
        Some(m) => seq!["max: "@ + shown(m)],
        None => Seq::empty(),
    })
}

pub open spec fn notes_suffix(notes: Seq<Seq<char>>) -> Seq<char> {
    if notes.len() == 0 {
        Seq::empty()
    } else {
        " ("@ + join(notes, ", "@) + ")"@
    }
}

/// A property's description, one level deeper, when it has a non-empty one.
pub open spec fn description_lines(p: Json, depth: nat) -> Seq<LineV> {
    match get_str(p, "description"@) {
        Some(d) => if d.len() > 0 {
            seq![one(spaces(2 * (depth + 2)) + d, Tone::Italic)]
        } else {
            Seq::empty()
        },
        None => Seq::empty(),
    }
}

pub open spec fn concat_lines(parts: Seq<Seq<LineV>>) -> Seq<LineV>
    decreases parts.len(),
{
    if parts.len() == 0 {
        Seq::empty()
    } else {
        concat_lines(parts.drop_last()) + parts.last()
    }
}

/// The lines of one property at a nesting depth: its name and kind with
/// notes (or `<JSON value>` for a complex one), its description, then its
/// own properties one level deeper.
pub open spec fn property_lines(name: Seq<char>, p: Json, required: bool, depth: nat) -> Seq<LineV>
    decreases p, 1nat,
{
    let head = spaces(2 * (depth + 1)) + name;
    if complex_schema(p) {
        seq![seq![(head, Tone::Bold), (" <JSON value>"@, Tone::Plain)]]
    } else {
        seq![
            seq![
                (head, Tone::Bold),
                (" <"@ + kind_label(p) + ">"@ + notes_suffix(property_notes(p, required)), Tone::Plain),
            ],
        ] + description_lines(p, depth) + match p {
            Json::Object(es) => {
                let pi = key_index(es, "properties"@);
                if 0 <= pi < es.len() {
                    match es[pi].1 {
                        Json::Object(props) => concat_lines(child_parts(p, props, depth + 1)),
                        _ => Seq::empty(),
                    }
                } else {
                    Seq::empty()
                }
            },
            _ => Seq::empty(),
        }
    }
}

/// The lines of each property of `parent`, in key order.
pub open spec fn child_parts(parent: Json, props: Seq<(Seq<char>, Json)>, depth: nat) -> Seq<Seq<LineV>>
    decreases props, 0nat,
{
    Seq::new(
        props.len(),
        |i: int|
            if 0 <= i < props.len() {
                property_lines(props[i].0, props[i].1, is_required_name(parent, props[i].0), depth)
            } else {
                Seq::empty()
            },
    )
}

/// The argument list of a schema: its properties, or one dim line when it
/// has none as an object or is complex; `None` when the list is empty.
pub open spec fn schema_argument_lines(schema: Json) -> Seq<LineV> {
    match get(schema, "properties"@) {
        Some(Json::Object(props)) => if complex_schema(schema) {
            seq![one("  JSON value (complex schema)"@, Tone::Dim)]
        } else {
            let ls = concat_lines(child_parts(schema, props, 0));
            if ls.len() == 0 {
                seq![one("  None"@, Tone::Dim)]
            } else {
                ls
            }
        },
        _ => seq![one("  JSON value (complex schema)"@, Tone::Dim)],
    }
}

} // verus!

verus! {

/// The kind of a JSON value as the screens name it.
pub fn value_kind(value: &JsonValue) -> (r: &'static str)
    ensures
        r@ == kind_name(value@),
{
    match value {
        JsonValue::Null => "null",
        JsonValue::Bool(_) => "boolean",
        JsonValue::Number(JsonNumber::Float(_)) => "number",
        JsonValue::Number(_) => "integer",
        JsonValue::String(_) => "string",
        JsonValue::Array(_) => "array",
        JsonValue::Object(_) => "object",
    }
}

/// A value as a line shows it: a string as it is, anything else as compact
/// JSON.
pub fn compact_value(value: &JsonValue) -> (r: String)
    ensures
        r@ == shown(value@),
{
    input_text_of(value)
}

/// Whether a name looks like it holds a secret (`secret_name`).
pub fn is_secret_name(name: &str) -> (r: bool)
    ensures
        r == secret_name(name@),
{
    let l = lower_chars(name);
    contains_chars(&l, &chars_of("secret")) || contains_chars(&l, &chars_of("token")) || contains_chars(
        &l,
        &chars_of("password"),
    ) || contains_chars(&l, &chars_of("apikey")) || contains_chars(&l, &chars_of("api_key"))
}

/// Whether a schema uses constructs the argument list does not spell out.
pub fn has_complex_schema(value: &JsonValue) -> (r: bool)
    requires
        wf(value@),
    ensures
        r == complex_schema(value@),
{
    value.get("$ref").is_some() || value.get("oneOf").is_some() || value.get("anyOf").is_some() || value.get(
        "allOf",
    ).is_some() || value.get("if").is_some() || value.get("then").is_some() || value.get("else").is_some()
}

pub fn piece(text: String, tone: Tone) -> (r: Piece)
    ensures
        piece_view(r) == (text@, tone),
{
    Piece { text, tone }
}

/// A line of one piece.
pub fn single(text: String, tone: Tone) -> (r: Vec<Piece>)
    ensures
        line_view(r@) == one(text@, tone),
{
    let mut l: Vec<Piece> = Vec::new();
    l.push(Piece { text, tone });
    proof {
        assert(line_view(l@) =~= one(text@, tone));
    }
    l
}

/// `a` followed by `b`.
pub fn cat(a: &str, b: &str) -> (r: String)
    ensures
        r@ == a@ + b@,
{
    let mut s = String::from_str(a);
    s.append(b);
    s
}

/// Whether a string value opens a `${{ … }}` expression.
fn is_expression(v: &JsonValue) -> (r: bool)
    ensures
        r == (v@ matches Json::Str(t) && t.len() >= 3 && t.take(3) == "${{"@),
{
    match v {
        JsonValue::String(t) => {
            let cs = chars_of(t.as_str());
            proof {
                reveal_strlit("${{");
            }
            let r = cs.len() >= 3 && cs[0] == '$' && cs[1] == '{' && cs[2] == '{';
            proof {
                if cs.len() >= 3 {
                    if r {
                        assert(t@.take(3) =~= "${{"@);
                    } else {
                        assert(t@.take(3)[0] == cs@[0]);
                        assert(t@.take(3)[1] == cs@[1]);
                        assert(t@.take(3)[2] == cs@[2]);
                    }
                }
            }
            r
        },
        _ => false,
    }
}

/// The lines of a definition's global arguments (`global_lines`).
pub fn format_global_arguments(value: &JsonValue) -> (r: Vec<Vec<Piece>>)
    ensures
        lines_view(r@) == global_lines(value@),
{
    let mut lines: Vec<Vec<Piece>> = Vec::new();
    match value {
        JsonValue::Object(es) => {
            let ghost m = value@->Object_0;
            proof {
                assert forall|k: int| 0 <= k < es@.len() implies #[trigger] m[k] == (es@[k].0@, es@[k].1@) by {}
                assert(lines_view(lines@) =~= Seq::new(0, |k: int| global_line(m[k].0, m[k].1)));
            }
            let mut i: usize = 0;
            while i < es.len()
                invariant
                    i <= es.len(),
                    *value == JsonValue::Object(*es),
                    m == value@->Object_0,
                    m.len() == es@.len(),
                    forall|k: int| 0 <= k < es@.len() ==> #[trigger] m[k] == (es@[k].0@, es@[k].1@),
                    lines_view(lines@) == Seq::new(i as nat, |k: int| global_line(m[k].0, m[k].1)),
                decreases es.len() - i,
            {
                let name = &es[i].0;
                let v = &es[i].1;
                let masked = is_secret_name(name.as_str()) && !is_expression(v);
                let display = if masked {
                    proof {
                        reveal_strlit("••••••••");
                    }
                    let dots = String::from_str("••••••••");
                    proof {
                        assert(dots@ =~= mask());
                    }
                    dots
                } else {
                    compact_value(v)
                };
                let mut line: Vec<Piece> = Vec::new();
                line.push(piece(cat("  ", name.as_str()), Tone::Bold));
                let kind_part = cat(cat(" <", value_kind(v)).as_str(), "> = ");
                line.push(piece(cat(kind_part.as_str(), display.as_str()), Tone::Plain));
                let ghost before = lines_view(lines@);
                let ghost lv = line_view(line@);
                proof {
                    assert(m[i as int] == (es@[i as int].0@, es@[i as int].1@));
                    assert(line_view(line@) =~= global_line(m[i as int].0, m[i as int].1));
                }
                lines.push(line);
                proof {
                    assert(lines_view(lines@) =~= before.push(lv));
                    assert(lines_view(lines@) =~= Seq::new((i + 1) as nat, |k: int| global_line(m[k].0, m[k].1)));
                }
                i = i + 1;
            }
            proof {
                assert(value@ == Json::Object(m));
                assert(lines_view(lines@) =~= global_lines(value@));
            }
        },
        _ => {
            lines.push(single(cat("  ", compact_value(value).as_str()), Tone::Dim));
            proof {
                assert(lines_view(lines@) =~= global_lines(value@));
            }
        },
    }
    lines
}

} // verus!

verus! {

proof fn lemma_concat_lines_step(parts: Seq<Seq<LineV>>, i: int)
    requires
        0 <= i < parts.len(),
    ensures
        concat_lines(parts.take(i + 1)) == concat_lines(parts.take(i)) + parts[i],
{
    assert(parts.take(i + 1).drop_last() =~= parts.take(i));
}

/// Appends a line.
pub fn push_line(lines: &mut Vec<Vec<Piece>>, line: Vec<Piece>)
    ensures
        lines_view(final(lines)@) == lines_view(old(lines)@).push(line_view(line@)),
{
    let ghost before = lines_view(lines@);
    let ghost lv = line_view(line@);
    lines.push(line);
    proof {
        assert(lines_view(lines@) =~= before.push(lv));
    }
}

/// A line of two pieces.
pub fn pair(a: String, ta: Tone, b: String, tb: Tone) -> (r: Vec<Piece>)
    ensures
        line_view(r@) == seq![(a@, ta), (b@, tb)],
{
    let mut l: Vec<Piece> = Vec::new();
    let ghost av = a@;
    let ghost bv = b@;
    l.push(Piece { text: a, tone: ta });
    l.push(Piece { text: b, tone: tb });
    proof {
        assert(line_view(l@) =~= seq![(av, ta), (bv, tb)]);
    }
    l
}

fn kind_label_of(p: &JsonValue) -> (r: String)
    requires
        wf(p@),
    ensures
        r@ == kind_label(p@),
{
    if p.get("enum").is_some() {
        String::from_str("enum")
    } else {
        match get_str_of(p, "type") {
            Some(t) => t.clone(),
            None => String::from_str("any"),
        }
    }
}

fn max_of_exec(p: &JsonValue) -> (r: Option<&JsonValue>)
    requires
        wf(p@),
    ensures
        match r {
            Some(m) => max_of(p@) == Some(m@),
            None => max_of(p@) is None,
        },
{
    match p.get("maximum") {
        Some(m) => Some(m),
        None => match p.get("maxLength") {
            Some(m) => Some(m),
            None => p.get("maxItems"),
        },
    }
}

fn notes_suffix_of(p: &JsonValue, required: bool) -> (r: String)
    requires
        wf(p@),
    ensures
        r@ == notes_suffix(property_notes(p@, required)),
{
    let mut notes: Vec<String> = Vec::new();
    let ghost a: Seq<Seq<char>> = if required {
        seq!["required"@]
    } else {
        Seq::empty()
    };
    if required {
        notes.push(String::from_str("required"));
    }
    proof {
        assert(views(notes@) =~= a);
    }
    let ghost b: Seq<Seq<char>> = match get(p@, "default"@) {
        Some(d) => seq!["default: "@ + shown(d)],
        None => Seq::empty(),
    };
    match p.get("default") {
        Some(d) => {
            let ghost before = views(notes@);
            notes.push(cat("default: ", compact_value(d).as_str()));
            proof {
                assert(views(notes@) =~= before + b);
            }
        },
        None => {
            proof {
                assert(views(notes@) =~= a + b);
            }
        },
    }
    let ghost c: Seq<Seq<char>> = match max_of(p@) {
        Some(m) => seq!["max: "@ + shown(m)],
        None => Seq::empty(),
    };
    match max_of_exec(p) {
        Some(m) => {
            let ghost before = views(notes@);
            notes.push(cat("max: ", compact_value(m).as_str()));
            proof {
                assert(views(notes@) =~= before + c);
            }
        },
        None => {
            proof {
                assert(views(notes@) =~= a + b + c);
            }
        },
    }
    proof {
        assert(views(notes@) =~= property_notes(p@, required));
    }
    if notes.len() == 0 {
        String::new()
    } else {
        cat(cat(" (", join_strings(&notes, ", ").as_str()).as_str(), ")")
    }
}

fn property_lines_at(
    lines: &mut Vec<Vec<Piece>>,
    name: &str,
    property: &JsonValue,
    required: bool,
    pad: &String,
    Ghost(depth): Ghost<nat>,
)
    requires
        wf(property@),
        pad@ == spaces(2 * (depth + 1)),
    ensures
        lines_view(final(lines)@) == lines_view(old(lines)@) + property_lines(name@, property@, required, depth),
    decreases property, 1nat,
{
    let ghost start = lines_view(lines@);
    let head = cat(pad.as_str(), name);
    if has_complex_schema(property) {
        push_line(lines, pair(head, Tone::Bold, String::from_str(" <JSON value>"), Tone::Plain));
        proof {
            assert(lines_view(lines@) =~= start + property_lines(name@, property@, required, depth));
        }
        return;
    }
    let kind = kind_label_of(property);
    let suffix = notes_suffix_of(property, required);
    let tail = cat(cat(cat(" <", kind.as_str()).as_str(), ">").as_str(), suffix.as_str());
    push_line(lines, pair(head, Tone::Bold, tail, Tone::Plain));
    let deeper = cat(pad.as_str(), "  ");
    proof {
        reveal_strlit("  ");
        assert(deeper@ =~= spaces(2 * (depth + 2)));
    }
    let ghost after_head = lines_view(lines@);
    match get_str_of(property, "description") {
        Some(d) => {
            if !d.as_str().is_empty() {
                push_line(lines, single(cat(deeper.as_str(), d.as_str()), Tone::Italic));
            }
        },
        None => {},
    }
    let ghost after_desc = lines_view(lines@);
    proof {
        assert(after_desc =~= after_head + description_lines(property@, depth));
    }
    let ghost rest: Seq<LineV> = match property@ {
        Json::Object(es) => {
            let pi = key_index(es, "properties"@);
            if 0 <= pi < es.len() {
                match es[pi].1 {
                    Json::Object(props) => concat_lines(child_parts(property@, props, depth + 1)),
                    _ => Seq::empty(),
                }
            } else {
                Seq::empty()
            }
        },
        _ => Seq::empty(),
    };
    match property {
        JsonValue::Object(es) => {
            let ghost m = property@->Object_0;
            match property.position("properties") {
                Some(pi) => {
                    proof {
                        assert(property@ == Json::Object(m));
                        assert(m[pi as int] == (es@[pi as int].0@, es@[pi as int].1@));
                        assert(wf(m[pi as int].1));
                    }
                    match &es[pi].1 {
                        JsonValue::Object(props) => {
                            proof {
                                assert(es@[pi as int].1@ == Json::Object(es@[pi as int].1@->Object_0));
                            }
                            child_lines_at(lines, property, pi, props, &deeper, Ghost(depth + 1));
                        },
                        _ => {
                            proof {
                                assert(!(es@[pi as int].1@ is Object));
                            }
                        },
                    }
                },
                None => {},
            }
        },
        _ => {},
    }
    proof {
        assert(lines_view(lines@) =~= after_desc + rest);
        assert(property_lines(name@, property@, required, depth) =~= seq![
            seq![
                (spaces(2 * (depth + 1)) + name@, Tone::Bold),
                (" <"@ + kind_label(property@) + ">"@ + notes_suffix(property_notes(property@, required)), Tone::Plain),
            ],
        ] + description_lines(property@, depth) + rest);
        assert(lines_view(lines@) =~= start + property_lines(name@, property@, required, depth));
    }
}

/// The lines of the properties `props` of `property` (member `pi`), one
/// level deeper.
fn child_lines_at(
    lines: &mut Vec<Vec<Piece>>,
    property: &JsonValue,
    pi: usize,
    props: &Vec<(String, JsonValue)>,
    pad: &String,
    Ghost(depth): Ghost<nat>,
)
    requires
        wf(property@),
        property is Object,
        pi < property->Object_0@.len(),
        property->Object_0@[pi as int].1 == JsonValue::Object(*props),
        wf(JsonValue::Object(*props)@),
        pad@ == spaces(2 * (depth + 1)),
    ensures
        lines_view(final(lines)@) == lines_view(old(lines)@) + concat_lines(
            child_parts(property@, JsonValue::Object(*props)@->Object_0, depth),
        ),
    decreases property, 0nat,
{
    let ghost start = lines_view(lines@);
    let ghost pv = JsonValue::Object(*props)@->Object_0;
    let ghost parts = child_parts(property@, pv, depth);
    let ghost es = property->Object_0;
    proof {
        assert(parts.take(0) =~= Seq::<Seq<LineV>>::empty());
        assert(lines_view(lines@) =~= start + concat_lines(parts.take(0)));
    }
    let mut i: usize = 0;
    while i < props.len()
        invariant
            i <= props.len(),
            property is Object,
            es == property->Object_0,
            pi < es@.len(),
            es@[pi as int].1 == JsonValue::Object(*props),
            pv == JsonValue::Object(*props)@->Object_0,
            wf(property@),
            wf(JsonValue::Object(*props)@),
            pad@ == spaces(2 * (depth + 1)),
            parts == child_parts(property@, pv, depth),
            lines_view(lines@) == start + concat_lines(parts.take(i as int)),
        decreases props.len() - i,
    {
        let ghost prev = lines_view(lines@);
        proof {
            assert(pv[i as int] == (props@[i as int].0@, props@[i as int].1@));
            assert(wf(pv[i as int].1));
            lemma_concat_lines_step(parts, i as int);
            assert(decreases_to!(*property => property->Object_0));
            assert(decreases_to!(property->Object_0 => es@));
            assert(decreases_to!(es@ => es@[pi as int]));
            assert(decreases_to!(es@[pi as int] => es@[pi as int].1));
            assert(decreases_to!(es@[pi as int].1 => es@[pi as int].1->Object_0));
            assert(decreases_to!(es@[pi as int].1->Object_0 => props@));
            assert(decreases_to!(props@ => props@[i as int]));
            assert(decreases_to!(props@[i as int] => props@[i as int].1));
        }
        let child_required = is_required_name_exec(property, &props[i].0);
        property_lines_at(lines, props[i].0.as_str(), &props[i].1, child_required, pad, Ghost(depth));
        proof {
            assert(lines_view(lines@) =~= prev + parts[i as int]);
        }
        i = i + 1;
    }
    proof {
        assert(parts.take(props.len() as int) =~= parts);
    }
}

/// Appends the lines of one property at a nesting depth
/// (`property_lines`).
pub fn format_schema_property(
    lines: &mut Vec<Vec<Piece>>,
    name: &str,
    property: &JsonValue,
    required: bool,
    depth: usize,
)
    requires
        wf(property@),
    ensures
        lines_view(final(lines)@) == lines_view(old(lines)@) + property_lines(
            name@,
            property@,
            required,
            depth as nat,
        ),
{
    let mut pad = String::from_str("  ");
    let mut i: usize = 0;
    proof {
        reveal_strlit("  ");
        assert(pad@ =~= spaces(2));
    }
    while i < depth
        invariant
            i <= depth,
            pad@ == spaces(2 * (i + 1) as nat),
        decreases depth - i,
    {
        pad.append("  ");
        proof {
            reveal_strlit("  ");
            assert(pad@ =~= spaces(2 * (i + 2) as nat));
        }
        i = i + 1;
    }
    property_lines_at(lines, name, property, required, &pad, Ghost(depth as nat));
}

/// The argument list of a schema (`schema_argument_lines`).
pub fn format_schema_arguments(schema: &JsonValue) -> (r: Vec<Vec<Piece>>)
    requires
        wf(schema@),
    ensures
        lines_view(r@) == schema_argument_lines(schema@),
{
    let mut lines: Vec<Vec<Piece>> = Vec::new();
    let complex = has_complex_schema(schema);
    match schema {
        JsonValue::Object(es) => {
            let ghost m = schema@->Object_0;
            match schema.position("properties") {
                Some(pi) => {
                    proof {
                        assert(schema@ == Json::Object(m));
                        assert(m[pi as int] == (es@[pi as int].0@, es@[pi as int].1@));
                        assert(wf(m[pi as int].1));
                    }
                    match &es[pi].1 {
                        JsonValue::Object(props) => {
                            if complex {
                                push_line(&mut lines, single(String::from_str("  JSON value (complex schema)"), Tone::Dim));
                                proof {
                                    assert(lines_view(lines@) =~= schema_argument_lines(schema@));
                                }
                                return lines;
                            }
                            let ghost pv = es@[pi as int].1@->Object_0;
                            let ghost parts = child_parts(schema@, pv, 0);
                            let pad = String::from_str("  ");
                            proof {
                                reveal_strlit("  ");
                                assert(pad@ =~= spaces(2));
                                assert(es@[pi as int].1@ == Json::Object(pv));
                                assert(parts.take(0) =~= Seq::<Seq<LineV>>::empty());
                                assert(lines_view(lines@) =~= concat_lines(parts.take(0)));
                            }
                            let mut i: usize = 0;
                            while i < props.len()
                                invariant
                                    i <= props.len(),
                                    *schema == JsonValue::Object(*es),
                                    pi < es@.len(),
                                    es@[pi as int].1 == JsonValue::Object(*props),
                                    pv == es@[pi as int].1@->Object_0,
                                    es@[pi as int].1@ == Json::Object(pv),
                                    wf(schema@),
                                    wf(es@[pi as int].1@),
                                    pad@ == spaces(2),
                                    parts.len() == pv.len(),
                                    forall|k: int|
                                        0 <= k < pv.len() ==> #[trigger] parts[k] == property_lines(
                                            pv[k].0,
                                            pv[k].1,
                                            is_required_name(schema@, pv[k].0),
                                            0,
                                        ),
                                    lines_view(lines@) == concat_lines(parts.take(i as int)),
                                decreases props.len() - i,
                            {
                                let ghost prev = lines_view(lines@);
                                proof {
                                    assert(pv[i as int] == (props@[i as int].0@, props@[i as int].1@));
                                    assert(wf(pv[i as int].1));
                                    lemma_concat_lines_step(parts, i as int);
                                }
                                let child_required = is_required_name_exec(schema, &props[i].0);
                                property_lines_at(
                                    &mut lines,
                                    props[i].0.as_str(),
                                    &props[i].1,
                                    child_required,
                                    &pad,
                                    Ghost(0),
                                );
                                proof {
                                    assert(lines_view(lines@) =~= prev + parts[i as int]);
                                }
                                i = i + 1;
                            }
                            proof {
                                assert(parts.take(props.len() as int) =~= parts);
                            }
                            if lines.len() == 0 {
                                push_line(&mut lines, single(String::from_str("  None"), Tone::Dim));
                            }
                            proof {
                                assert(lines_view(lines@) =~= schema_argument_lines(schema@));
                            }
                            return lines;
                        },
                        _ => {},
                    }
                },
                None => {},
            }
        },
        _ => {},
    }
    push_line(&mut lines, single(String::from_str("  JSON value (complex schema)"), Tone::Dim));
    proof {
        assert(lines_view(lines@) =~= schema_argument_lines(schema@));
    }
    lines
}

} // verus!

verus! {

/// The member a spec is labelled by: `specName`, else `name`, else `id`.
pub open spec fn label_member(v: Json) -> Option<Json> {
    match get(v, "specName"@) {
        Some(x) => Some(x),
        None => match get(v, "name"@) {
            Some(x) => Some(x),
            None => get(v, "id"@),
        },
    }
}

/// An output specification's label: its label member when that is a string,
/// else `Output n` counting from one.
pub open spec fn output_label(i: int, v: Json) -> Seq<char> {
    match label_member(v) {
        Some(Json::Str(t)) => t,
        _ => "Output "@ + nat_text((i + 1) as nat),
    }
}

/// `name: value` for a member that is present.
pub open spec fn meta_entry(v: Json, name: Seq<char>, key: Seq<char>) -> Seq<Seq<char>> {
    match get(v, key) {
        Some(x) => seq![name + ": "@ + shown(x)],
        None => Seq::empty(),
    }
}

/// An output's kind, lifetime and garbage collection, where given.
pub open spec fn output_meta(v: Json) -> Seq<Seq<char>> {
    meta_entry(v, "kind"@, "kind"@) + meta_entry(v, "lifetime"@, "lifetime"@) + meta_entry(
        v,
        "garbage collection"@,
        "garbageCollection"@,
    )
}

/// How many properties a schema declares.
pub open spec fn field_count(schema: Json) -> nat {
    match get(schema, "properties"@) {
        Some(Json::Object(ps)) => ps.len(),
        _ => 0,
    }
}

/// The schema part of an output: spelled out when expanded, else counted.
pub open spec fn output_schema_lines(v: Json, expanded: bool) -> Seq<LineV> {
    match get(v, "schema"@) {
        Some(schema) => if expanded {
            seq![one("    Schema"@, Tone::Bold)] + if schema is Object {
                schema_argument_lines(schema)
            } else {
                seq![one("      "@ + shown(schema), Tone::Dim)]
            }
        } else {
            seq![one("    Schema: "@ + nat_text(field_count(schema)) + " fields · Space to expand"@, Tone::Dim)]
        },
        None => Seq::empty(),
    }
}

/// The header of the output specification at index `i`: a blank line before
/// all but the first, then a marker (open or closed) and the label,
/// highlighted when selected.
pub open spec fn output_head(i: int, v: Json, selected: int, expanded: Option<usize>) -> Seq<LineV> {
    let marker = if expanded == Some(i as usize) {
        "▾"@
    } else {
        "▸"@
    };
    let tone = if i == selected {
        Tone::Picked
    } else {
        Tone::Bold
    };
    (if i > 0 {
        seq![Seq::empty()]
    } else {
        Seq::empty()
    }) + seq![one("  "@ + marker + " "@ + output_label(i, v), tone)]
}

/// An output's non-empty description.
pub open spec fn output_description(v: Json) -> Seq<LineV> {
    match get_str(v, "description"@) {
        Some(d) => if d.len() > 0 {
            seq![one("    "@ + d, Tone::Italic)]
        } else {
            Seq::empty()
        },
        None => Seq::empty(),
    }
}

/// An output's metadata on one dim line, where it has any.
pub open spec fn output_meta_lines(v: Json) -> Seq<LineV> {
    if output_meta(v).len() > 0 {
        seq![one("    "@ + join(output_meta(v), " · "@), Tone::Dim)]
    } else {
        Seq::empty()
    }
}

/// The lines of the output specification at index `i`.
pub open spec fn output_block(i: int, v: Json, selected: int, expanded: Option<usize>) -> Seq<LineV> {
    output_head(i, v, selected, expanded) + output_description(v) + output_meta_lines(v) + output_schema_lines(
        v,
        expanded == Some(i as usize),
    )
}

/// The type's output specifications, or `None declared`.
pub open spec fn output_lines(specs: Seq<Json>, selected: int, expanded: Option<usize>) -> Seq<LineV> {
    if specs.len() == 0 {
        seq![one("  None declared"@, Tone::Dim)]
    } else {
        concat_lines(Seq::new(specs.len(), |i: int| output_block(i, specs[i], selected, expanded)))
    }
}

} // verus!

verus! {

fn label_member_of(v: &JsonValue) -> (r: Option<&JsonValue>)
    requires
        wf(v@),
    ensures
        match r {
            Some(x) => label_member(v@) == Some(x@),
            None => label_member(v@) is None,
        },
{
    match v.get("specName") {
        Some(x) => Some(x),
        None => match v.get("name") {
            Some(x) => Some(x),
            None => v.get("id"),
        },
    }
}

fn output_label_of(i: usize, v: &JsonValue) -> (r: String)
    requires
        wf(v@),
        i < usize::MAX,
    ensures
        r@ == output_label(i as int, v@),
{
    match label_member_of(v) {
        Some(JsonValue::String(t)) => t.clone(),
        _ => {
            let n: u64 = i as u64;
            proof {
                assert(n == i);
            }
            let next: u64 = n + 1;
            cat("Output ", u64_text(next).as_str())
        },
    }
}

fn meta_entry_of(entries: &mut Vec<String>, v: &JsonValue, name: &str, key: &str)
    requires
        wf(v@),
    ensures
        views(final(entries)@) == views(old(entries)@) + meta_entry(v@, name@, key@),
{
    let ghost before = views(entries@);
    match v.get(key) {
        Some(x) => {
            entries.push(cat(cat(name, ": ").as_str(), compact_value(x).as_str()));
            proof {
                assert(views(entries@) =~= before + meta_entry(v@, name@, key@));
            }
        },
        None => {
            proof {
                assert(views(entries@) =~= before + meta_entry(v@, name@, key@));
            }
        },
    }
}

fn field_count_of(schema: &JsonValue) -> (r: usize)
    requires
        wf(schema@),
    ensures
        r == field_count(schema@),
{
    match schema.get("properties") {
        Some(JsonValue::Object(ps)) => ps.len(),
        _ => 0,
    }
}

fn output_schema_at(lines: &mut Vec<Vec<Piece>>, v: &JsonValue, expanded: bool)
    requires
        wf(v@),
    ensures
        lines_view(final(lines)@) == lines_view(old(lines)@) + output_schema_lines(v@, expanded),
{
    let ghost start = lines_view(lines@);
    match v.get("schema") {
        Some(schema) => {
            proof {
                assert(wf(schema@)) by {
                    lemma_get_wf(v@, "schema"@);
                }
            }
            if expanded {
                push_line(lines, single(String::from_str("    Schema"), Tone::Bold));
                if schema.is_object() {
                    let more = format_schema_arguments(schema);
                    append_lines(lines, more);
                } else {
                    push_line(lines, single(cat("      ", compact_value(schema).as_str()), Tone::Dim));
                }
            } else {
                let count = field_count_of(schema);
                let text = cat(cat("    Schema: ", u64_text(count as u64).as_str()).as_str(), " fields · Space to expand");
                push_line(lines, single(text, Tone::Dim));
            }
            proof {
                assert(lines_view(lines@) =~= start + output_schema_lines(v@, expanded));
            }
        },
        None => {
            proof {
                assert(lines_view(lines@) =~= start + output_schema_lines(v@, expanded));
            }
        },
    }
}

/// Appends lines.
pub fn append_lines(lines: &mut Vec<Vec<Piece>>, more: Vec<Vec<Piece>>)
    ensures
        lines_view(final(lines)@) == lines_view(old(lines)@) + lines_view(more@),
{
    let ghost start = lines_view(lines@);
    let ghost mv = lines_view(more@);
    let mut more = more;
    let mut rest: Vec<Vec<Piece>> = Vec::new();
    while more.len() > 0
        invariant
            lines_view(rest@) == mv.subrange(more@.len() as int, mv.len() as int).reverse(),
            more@.len() <= mv.len(),
            lines_view(more@) == mv.take(more@.len() as int),
        decreases more.len(),
    {
        let ghost k = more@.len();
        let ghost old_more = more@;
        let l = more.pop().unwrap();
        let ghost before = lines_view(rest@);
        let ghost lv = line_view(l@);
        rest.push(l);
        proof {
            assert(l == old_more[k - 1]);
            assert(lines_view(old_more)[k - 1] == line_view(old_more[k - 1]@));
            assert(lv == mv[k - 1]);
            assert(lines_view(rest@) =~= before.push(lv));
            assert(lines_view(rest@) =~= mv.subrange(k - 1, mv.len() as int).reverse());
            assert(lines_view(more@) =~= mv.take(k - 1));
        }
    }
    proof {
        assert(mv.subrange(0, mv.len() as int) =~= mv);
    }
    let mut i: usize = 0;
    let n = rest.len();
    while rest.len() > 0
        invariant
            n == mv.len(),
            rest@.len() + i == n,
            lines_view(rest@) == mv.subrange(i as int, n as int).reverse(),
            lines_view(lines@) == start + mv.take(i as int),
        decreases rest.len(),
    {
        let ghost old_rest = rest@;
        let l = rest.pop().unwrap();
        let ghost lv = line_view(l@);
        proof {
            assert(l == old_rest.last());
            assert(lines_view(old_rest)[old_rest.len() - 1] == line_view(old_rest[old_rest.len() - 1]@));
            assert(mv.subrange(i as int, n as int).reverse().last() == mv[i as int]);
            assert(lines_view(rest@) =~= lines_view(old_rest).drop_last());
            assert(mv.subrange(i as int, n as int).reverse().drop_last() =~= mv.subrange(i as int + 1, n as int).reverse());
        }
        push_line(lines, l);
        proof {
            assert(lv == mv[i as int]);
            assert(mv.take(i as int + 1) =~= mv.take(i as int).push(mv[i as int]));
        }
        i = i + 1;
    }
    proof {
        assert(mv.take(n as int) =~= mv);
    }
}

fn output_head_at(lines: &mut Vec<Vec<Piece>>, i: usize, v: &JsonValue, selected: usize, expanded: Option<usize>)
    requires
        wf(v@),
        i < usize::MAX,
    ensures
        lines_view(final(lines)@) == lines_view(old(lines)@) + output_head(i as int, v@, selected as int, expanded),
{
    let ghost start = lines_view(lines@);
    if i > 0 {
        push_line(lines, Vec::new());
        proof {
            assert(line_view(Seq::<Piece>::empty()) =~= Seq::empty());
        }
    }
    let is_expanded = match expanded {
        Some(e) => e == i,
        None => false,
    };
    let marker = if is_expanded {
        "▾"
    } else {
        "▸"
    };
    let tone = if i == selected {
        Tone::Picked
    } else {
        Tone::Bold
    };
    let label = output_label_of(i, v);
    push_line(lines, single(cat(cat(cat("  ", marker).as_str(), " ").as_str(), label.as_str()), tone));
    proof {
        assert(lines_view(lines@) =~= start + output_head(i as int, v@, selected as int, expanded));
    }
}

fn output_rest_at(lines: &mut Vec<Vec<Piece>>, v: &JsonValue)
    requires
        wf(v@),
    ensures
        lines_view(final(lines)@) == lines_view(old(lines)@) + output_description(v@) + output_meta_lines(v@),
{
    let ghost start = lines_view(lines@);
    match get_str_of(v, "description") {
        Some(d) => {
            if !d.as_str().is_empty() {
                push_line(lines, single(cat("    ", d.as_str()), Tone::Italic));
            }
        },
        None => {},
    }
    let ghost mid = lines_view(lines@);
    proof {
        assert(mid =~= start + output_description(v@));
    }
    let mut meta: Vec<String> = Vec::new();
    proof {
        assert(views(meta@) =~= Seq::<Seq<char>>::empty());
    }
    meta_entry_of(&mut meta, v, "kind", "kind");
    meta_entry_of(&mut meta, v, "lifetime", "lifetime");
    meta_entry_of(&mut meta, v, "garbage collection", "garbageCollection");
    proof {
        assert(views(meta@) =~= output_meta(v@));
    }
    if meta.len() > 0 {
        push_line(lines, single(cat("    ", join_strings(&meta, " · ").as_str()), Tone::Dim));
    }
    proof {
        assert(lines_view(lines@) =~= mid + output_meta_lines(v@));
    }
}

fn output_block_at(lines: &mut Vec<Vec<Piece>>, i: usize, v: &JsonValue, selected: usize, expanded: Option<usize>)
    requires
        wf(v@),
        i < usize::MAX,
    ensures
        lines_view(final(lines)@) == lines_view(old(lines)@) + output_block(i as int, v@, selected as int, expanded),
{
    let ghost start = lines_view(lines@);
    output_head_at(lines, i, v, selected, expanded);
    output_rest_at(lines, v);
    let is_expanded = match expanded {
        Some(e) => e == i,
        None => false,
    };
    output_schema_at(lines, v, is_expanded);
    proof {
        assert(is_expanded == (expanded == Some(i)));
        assert(lines_view(lines@) =~= start + output_block(i as int, v@, selected as int, expanded));
    }
}

/// The lines of a type's output specifications (`output_lines`).
pub fn format_output_specifications(specs: &Vec<JsonValue>, selected: usize, expanded: Option<usize>) -> (r: Vec<
    Vec<Piece>,
>)
    requires
        forall|i: int| 0 <= i < specs@.len() ==> wf(#[trigger] specs@[i]@),
    ensures
        lines_view(r@) == output_lines(json_views(specs@), selected as int, expanded),
{
    let mut lines: Vec<Vec<Piece>> = Vec::new();
    if specs.len() == 0 {
        push_line(&mut lines, single(String::from_str("  None declared"), Tone::Dim));
        proof {
            assert(lines_view(lines@) =~= output_lines(json_views(specs@), selected as int, expanded));
        }
        return lines;
    }
    let ghost parts = Seq::new(
        specs@.len(),
        |i: int| output_block(i, json_views(specs@)[i], selected as int, expanded),
    );
    proof {
        assert(parts.take(0) =~= Seq::<Seq<LineV>>::empty());
        assert(lines_view(lines@) =~= concat_lines(parts.take(0)));
    }
    let mut i: usize = 0;
    while i < specs.len()
        invariant
            i <= specs.len(),
            forall|k: int| 0 <= k < specs@.len() ==> wf(#[trigger] specs@[k]@),
            parts == Seq::new(
                specs@.len(),
                |k: int| output_block(k, json_views(specs@)[k], selected as int, expanded),
            ),
            lines_view(lines@) == concat_lines(parts.take(i as int)),
        decreases specs.len() - i,
    {
        let ghost prev = lines_view(lines@);
        proof {
            lemma_concat_lines_step(parts, i as int);
        }
        output_block_at(&mut lines, i, &specs[i], selected, expanded);
        proof {
            assert(lines_view(lines@) =~= prev + parts[i as int]);
        }
        i = i + 1;
    }
    proof {
        assert(parts.take(specs@.len() as int) =~= parts);
    }
    lines
}

} // verus!
