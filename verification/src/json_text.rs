//! JSON text: how values are written out, compactly (`serde_json::to_string`)
//! and indented (`serde_json::to_string_pretty`), string literals, and how
//! text is read as a value (`serde_json::from_str`).
use vstd::prelude::*;
use vstd::string::*;
use crate::json::{wf, Json, JsonNumber, JsonValue, Num};
use crate::text::{join, join_strings, push_char, views};

verus! {

pub open spec fn digit_char(d: nat) -> char {
    ((d + 48) as char)
}

/// Decimal digits of a natural number (no sign, no leading zeros).
pub open spec fn nat_text(n: nat) -> Seq<char>
    decreases n,
{
    if n < 10 {
        seq![digit_char(n)]
    } else {
        nat_text(n / 10).push(digit_char(n % 10))
    }
}

pub open spec fn hex_char(d: nat) -> char {
    if d < 10 {
        digit_char(d)
    } else {
        ((d + 87) as char)
    }
}

/// How one character is written inside a JSON string literal.
pub open spec fn escape_char(c: char) -> Seq<char> {
    if c == '"' {
        seq!['\\', '"']
    } else if c == '\\' {
        seq!['\\', '\\']
    } else if c == '\u{8}' {
        seq!['\\', 'b']
    } else if c == '\t' {
        seq!['\\', 't']
    } else if c == '\n' {
        seq!['\\', 'n']
    } else if c == '\u{c}' {
        seq!['\\', 'f']
    } else if c == '\r' {
        seq!['\\', 'r']
    } else if (c as int) < 32 {
        seq!['\\', 'u', '0', '0', hex_char((c as nat) / 16), hex_char((c as nat) % 16)]
    } else {
        seq![c]
    }
}

pub open spec fn escape(s: Seq<char>) -> Seq<char>
    decreases s.len(),
{
    if s.len() == 0 {
        Seq::empty()
    } else {
        escape(s.drop_last()) + escape_char(s.last())
    }
}

/// A JSON string literal denoting `s`.
pub open spec fn quote(s: Seq<char>) -> Seq<char> {
    seq!['"'] + escape(s) + seq!['"']
}

/// The compact JSON text of a value: what `serde_json::to_string` writes for
/// it as a `serde_json::Value`.
pub uninterp spec fn json_compact(j: Json) -> Seq<char>;

/// The indented JSON text of a value: what `serde_json::to_string_pretty`
/// writes for it as a `serde_json::Value`.
pub uninterp spec fn json_pretty(j: Json) -> Seq<char>;

/// A JSON string literal for `s` (`serde_json::to_string` on a string).
/// The contract claims serde_json's escaping: `"` and `\` are escaped with a
/// backslash, control characters below U+0020 as `\b \t \n \f \r` or
/// `\u00XX` with lower-case hex digits, and every other character unchanged.
#[verifier::external_body]
pub(crate) fn quote_str(s: &str) -> (r: String)
    ensures
        r@ == quote(s@),
{
    serde_json::to_string(s).unwrap_or_default()
}

fn digit_of(d: u64) -> (c: char)
    requires
        d < 10,
    ensures
        c == digit_char(d as nat),
{
    let b: u8 = 48u8 + (d as u8);
    b as char
}

/// Decimal text of an unsigned integer.
pub fn u64_text(n: u64) -> (r: String)
    ensures
        r@ == nat_text(n as nat),
    decreases n,
{
    if n < 10 {
        let mut s = String::new();
        push_char(&mut s, digit_of(n));
        proof {
            assert(s@ =~= seq![digit_char(n as nat)]);
        }
        s
    } else {
        let mut s = u64_text(n / 10);
        push_char(&mut s, digit_of(n % 10));
        s
    }
}

#[verifier::external_type_specification]
#[verifier::external_body]
pub struct ExValue(serde_json::Value);

#[verifier::external_type_specification]
#[verifier::external_body]
pub struct ExNumber(serde_json::Number);

/// A value as a `serde_json::Value`, variant for variant: an object's
/// members go into serde_json's map, which orders them by key (the order a
/// well-formed value already has), and a float is read back from its own
/// text. It has no contract: only the two writers below use it, inside
/// their bodies.
#[verifier::external_body]
fn to_serde(v: &JsonValue) -> serde_json::Value {
    match v {
        JsonValue::Null => serde_json::Value::Null,
        JsonValue::Bool(b) => serde_json::Value::Bool(*b),
        JsonValue::Number(JsonNumber::PosInt(u)) => serde_json::Value::from(*u),
        JsonValue::Number(JsonNumber::NegInt(i)) => serde_json::Value::from(*i),
        JsonValue::Number(JsonNumber::Float(t)) => serde_json::from_str(t).unwrap_or_default(),
        JsonValue::String(s) => serde_json::Value::from(s.as_str()),
        JsonValue::Array(xs) => xs.iter().map(to_serde).collect(),
        JsonValue::Object(es) => es.iter().map(|(k, x)| (k.clone(), to_serde(x))).collect(),
    }
}

/// Compact JSON text (`serde_json::to_string` on the value as a
/// `serde_json::Value`). The contract claims only that the result is the
/// named text of the value.
#[verifier::external_body]
pub(crate) fn compact_text(v: &JsonValue) -> (r: String)
    ensures
        r@ == json_compact(v@),
{
    serde_json::to_string(&to_serde(v)).unwrap_or_default()
}

/// Indented JSON text (`serde_json::to_string_pretty` on the value as a
/// `serde_json::Value`). The contract claims only that the result is the
/// named text of the value.
#[verifier::external_body]
pub(crate) fn pretty_text(v: &JsonValue) -> (r: String)
    ensures
        r@ == json_pretty(v@),
{
    serde_json::to_string_pretty(&to_serde(v)).unwrap_or_default()
}


/// The value that `serde_json::from_str` reads from a text (as a
/// `serde_json::Value`), or `None` where the text is not one JSON value.
pub uninterp spec fn json_read(text: Seq<char>) -> Option<Json>;

/// The message of the error that `serde_json::from_str` gives for a text
/// that is not one JSON value (the error's `Display`).
pub uninterp spec fn json_read_error(text: Seq<char>) -> Seq<char>;

/// A `serde_json::Number` as a library number: an integer that fits `u64`
/// as non-negative, another integer as negative, any other number as the
/// text serde_json writes for it. It has no contract: only `from_serde`
/// uses it, inside its body.
#[verifier::external_body]
fn from_serde_number(n: &serde_json::Number) -> JsonNumber {
    match (n.as_u64(), n.as_i64()) {
        (Some(u), _) => JsonNumber::PosInt(u),
        (None, Some(i)) => JsonNumber::NegInt(i),
        (None, None) => JsonNumber::Float(n.to_string()),
    }
}

/// A `serde_json::Value` as a library value, variant for variant (numbers
/// by `from_serde_number`); an object's members in the order of
/// serde_json's map. It has no contract: only `read_json`
/// uses it, inside its body.
#[verifier::external_body]
fn from_serde(v: &serde_json::Value) -> JsonValue {
    match v {
        serde_json::Value::Null => JsonValue::Null,
        serde_json::Value::Bool(b) => JsonValue::Bool(*b),
        serde_json::Value::Number(n) => JsonValue::Number(from_serde_number(n)),
        serde_json::Value::String(t) => JsonValue::String(t.clone()),
        serde_json::Value::Array(xs) => JsonValue::Array(xs.iter().map(from_serde).collect()),
        serde_json::Value::Object(m) => JsonValue::Object(m.iter().map(|(k, x)| (k.clone(), from_serde(x))).collect()),
    }
}

/// Reads a text as one JSON value (`serde_json::from_str` into a
/// `serde_json::Value`). The contract claims that the outcome is the named
/// reading of the text, and that a value read has every object's keys in
/// ascending order, each once: serde_json's map (built without
/// `preserve_order`) is a `BTreeMap<String, Value>`, whose keys are ordered
/// byte-wise, which for UTF-8 is the order of the characters.
#[verifier::external_body]
pub(crate) fn read_json(text: &str) -> (r: Result<JsonValue, String>)
    ensures
        match r {
            Ok(v) => json_read(text@) == Some(v@) && wf(v@),
            Err(m) => json_read(text@) is None && m@ == json_read_error(text@),
        },
{
    match serde_json::from_str::<serde_json::Value>(text) {
        Ok(v) => Ok(from_serde(&v)),
        Err(e) => Err(e.to_string()),
    }
}

} // verus!
