//! JSON numbers as binary floats: their order, their display, and reading a
//! float from text. Only `serde_json` and std's float code compute these, so
//! each result is named and this library reasons about the names.
use vstd::prelude::*;
use crate::json::{Json, JsonNumber, JsonValue, Num};

verus! {

/// The order of two JSON numbers compared as `f64` values
/// (`Value::as_f64` on each, then `f64::partial_cmp`): -1, 0 or 1.
pub uninterp spec fn float_order(a: Num, b: Num) -> i8;

/// `f64`'s `Display` text of a JSON number taken as `f64` (`Value::as_f64`).
pub uninterp spec fn float_display(n: Num) -> Seq<char>;

/// What `str::parse::<f64>` followed by `Value::from` gives for a text:
/// `None` when the text is not a float; otherwise a float number, or `null`
/// for an infinite value.
pub uninterp spec fn float_input(text: Seq<char>) -> Option<Json>;

/// Compares two JSON numbers as `f64` values (`serde_json::Number::as_f64`,
/// then `f64::partial_cmp`). The contract claims only that the result is the
/// named order of the two numbers and is -1, 0 or 1.
#[verifier::external_body]
pub(crate) fn compare_as_floats(a: &JsonNumber, b: &JsonNumber) -> (r: i8)
    ensures
        r == float_order(a@, b@),
        -1 <= r <= 1,
{
    let f = |n: &JsonNumber| match n {
        JsonNumber::PosInt(u) => serde_json::Number::from(*u).as_f64(),
        JsonNumber::NegInt(i) => serde_json::Number::from(*i).as_f64(),
        JsonNumber::Float(t) => t.parse::<serde_json::Number>().ok().and_then(|n| n.as_f64()),
    };
    match f(a).partial_cmp(&f(b)) {
        Some(std::cmp::Ordering::Less) => -1,
        Some(std::cmp::Ordering::Greater) => 1,
        _ => 0,
    }
}

/// The `Display` text of a JSON number taken as `f64`
/// (`serde_json::Number::as_f64`, then `format!("{}", ..)`). The contract
/// claims only that the result is the named text.
#[verifier::external_body]
pub(crate) fn float_text(n: &JsonNumber) -> (r: String)
    ensures
        r@ == float_display(n@),
{
    let x = match n {
        JsonNumber::PosInt(u) => serde_json::Number::from(*u).as_f64(),
        JsonNumber::NegInt(i) => serde_json::Number::from(*i).as_f64(),
        JsonNumber::Float(t) => t.parse::<serde_json::Number>().ok().and_then(|n| n.as_f64()),
    };
    format!("{}", x.unwrap_or_default())
}

/// Reads a float typed into a form (`str::parse::<f64>`, then
/// `serde_json::Value::from`): `None` when std rejects the text, a float
/// number held as its `serde_json` text, or `null` for an infinite value.
/// The contract claims that the result is the named outcome and is a float
/// number or `null`.
#[verifier::external_body]
pub(crate) fn parse_float_input(text: &str) -> (r: Option<JsonValue>)
    ensures
        match r {
            Some(v) => float_input(text@) == Some(v@) && (v@ is Null || v@ matches Json::Number(
                Num::Float(_),
            )),
            None => float_input(text@) is None,
        },
{
    match text.parse() {
        Ok(f) => match serde_json::Number::from_f64(f) {
            Some(n) => Some(JsonValue::Number(JsonNumber::Float(n.to_string()))),
            None => Some(JsonValue::Null),
        },
        Err(_) => None,
    }
}

} // verus!
