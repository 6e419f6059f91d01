//! The regular-expression engine behind queries.
//!
//! Compiling and matching are the `regex` crate's work. What it decides is
//! named here, and the functions that call it say their results in those
//! names; nothing in this crate states what the engine accepts or matches.

use vstd::prelude::*;
use regex::Regex;

verus! {

/// `regex::Regex`, a compiled regular expression; nothing is known of what
/// it holds.
#[verifier::external_type_specification]
#[verifier::external_body]
pub struct ExRegex(regex::Regex);

/// `regex::Error`, the engine's reason for refusing an expression; nothing
/// is known of what it holds.
#[verifier::external_type_specification]
#[verifier::external_body]
pub struct ExRegexError(regex::Error);

/// Whether the engine accepts `expression` as a regular expression: whether
/// `regex::Regex::new` succeeds on it.
pub uninterp spec fn engine_accepts(expression: Seq<char>) -> bool;

/// Whether `expression`, once compiled, finds a match somewhere in `text`:
/// what `regex::Regex::is_match` returns.
pub uninterp spec fn engine_matches(expression: Seq<char>, text: Seq<char>) -> bool;

/// A regular expression together with what the engine compiled it to. A
/// value is made by `CompiledExpression::new` alone, so the compiled form is
/// always the one that the engine built from `source`, with the engine's own
/// settings.
#[derive(Debug)]
pub struct CompiledExpression {
    regex: Regex,
    source: String,
}

impl View for CompiledExpression {
    type V = Seq<char>;

    closed spec fn view(&self) -> Seq<char> {
        self.source@
    }
}

/// `regex::Regex::new`: compiles `expression`. It succeeds exactly on the
/// expressions that the engine accepts; the result keeps the expression
/// beside its compiled form.
#[verifier::external_body]
fn compile_expression(expression: &str) -> (out: Result<CompiledExpression, regex::Error>)
    ensures
        out is Ok <==> engine_accepts(expression@),
        out matches Ok(compiled) ==> compiled@ == expression@,
{
    match Regex::new(expression) {
        Ok(regex) => Ok(CompiledExpression { regex, source: expression.to_owned() }),
        Err(error) => Err(error),
    }
}

/// `regex::Regex::is_match`: whether the compiled expression finds a match
/// somewhere in `text`.
#[verifier::external_body]
fn is_match(compiled: &CompiledExpression, text: &str) -> (found: bool)
    ensures
        found == engine_matches(compiled@, text@),
{
    compiled.regex.is_match(text)
}

impl CompiledExpression {
    /// Compiles `expression`, if the engine accepts it.
    pub fn new(expression: &str) -> (out: Result<CompiledExpression, regex::Error>)
        ensures
            out is Ok <==> engine_accepts(expression@),
            out matches Ok(compiled) ==> compiled@ == expression@,
    {
        compile_expression(expression)
    }

    /// The expression as it was given to the engine.
    pub fn source(&self) -> (source: &str)
        ensures
            source@ == self@,
    {
        self.source.as_str()
    }

    /// Whether the expression finds a match somewhere in `text`.
    pub fn finds(&self, text: &str) -> (found: bool)
        ensures
            found == engine_matches(self@, text@),
    {
        is_match(self, text)
    }
}

} // verus!
