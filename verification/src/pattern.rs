//! Regular-expression patterns from schemas (`pattern`), compiled and matched
//! by the `regex` crate.
use vstd::prelude::*;

verus! {

#[verifier::external_type_specification]
#[verifier::external_body]
pub struct ExRegex(regex::Regex);

/// Whether the `regex` crate accepts a pattern (`Regex::new` returns `Ok`).
pub uninterp spec fn regex_compiles(pattern: Seq<char>) -> bool;

/// Whether the compiled pattern matches somewhere in the text (`Regex::is_match`).
pub uninterp spec fn regex_matches(pattern: Seq<char>, text: Seq<char>) -> bool;

/// A pattern together with its compiled form.
pub struct CompiledPattern {
    regex: regex::Regex,
    pattern: String,
}

impl CompiledPattern {
    pub closed spec fn pattern(&self) -> Seq<char> {
        self.pattern@
    }
}

/// Compiles a pattern (`regex::Regex::new`). The contract claims that the
/// result is present exactly when the named check accepts the pattern, and
/// that it keeps the pattern it was compiled from.
#[verifier::external_body]
pub(crate) fn compile_pattern(pattern: &str) -> (r: Option<CompiledPattern>)
    ensures
        r is Some <==> regex_compiles(pattern@),
        r matches Some(c) ==> c.pattern() == pattern@,
{
    match regex::Regex::new(pattern) {
        Ok(regex) => Some(CompiledPattern { regex, pattern: pattern.to_string() }),
        Err(_) => None,
    }
}

/// Matches a compiled pattern against a text (`regex::Regex::is_match`).
/// The contract claims that the result is the named match of the pattern
/// the value was compiled from.
#[verifier::external_body]
pub(crate) fn pattern_matches(c: &CompiledPattern, text: &str) -> (r: bool)
    ensures
        r == regex_matches(c.pattern(), text@),
{
    c.regex.is_match(text)
}

} // verus!
