//! The pattern compiler: from a user's query to one regular expression.
//!
//! A regular-expression query is used as it stands. A literal query has each
//! metacharacter of the engine guarded by a backslash and is wrapped so that
//! it matches anywhere in a path.
//!
//! A path matches a query when the query's expression matches the whole
//! path, from its first to its last character. The engine searches for a
//! match anywhere in a text, so the expression is handed to it in an
//! anchored form, enclosed in `^(?:` and `)$`.

use vstd::prelude::*;
use crate::engine::{engine_accepts, engine_matches, CompiledExpression};
use crate::text::push_char;

verus! {

/// The character that guards a metacharacter.
pub const GUARD: char = '\\';

/// The characters that mean something to the engine.
pub open spec fn is_metacharacter(c: char) -> bool {
    ||| c == '\\'
    ||| c == '.'
    ||| c == '+'
    ||| c == '*'
    ||| c == '?'
    ||| c == '('
    ||| c == ')'
    ||| c == '|'
    ||| c == '['
    ||| c == ']'
    ||| c == '{'
    ||| c == '}'
    ||| c == '^'
    ||| c == '$'
    ||| c == '#'
    ||| c == '&'
    ||| c == '-'
    ||| c == '~'
}

/// One character of a literal query as it stands in the expression.
pub open spec fn escaped_char(c: char) -> Seq<char> {
    if is_metacharacter(c) {
        seq![GUARD, c]
    } else {
        seq![c]
    }
}

/// A literal query with every metacharacter guarded.
pub open spec fn escaped(text: Seq<char>) -> Seq<char>
    decreases text.len(),
{
    if text.len() == 0 {
        Seq::empty()
    } else {
        escaped(text.drop_last()) + escaped_char(text.last())
    }
}

/// What opens the expression of a literal query: anything may precede.
pub open spec fn opening() -> Seq<char> {
    seq!['^', '.', '*']
}

/// What closes the expression of a literal query: anything may follow.
pub open spec fn closing() -> Seq<char> {
    seq!['.', '*', '$']
}

/// The expression of a literal query.
pub open spec fn literal_expression(text: Seq<char>) -> Seq<char> {
    opening() + escaped(text) + closing()
}

/// The expression of a query.
pub open spec fn expression_for(text: Seq<char>, is_regex: bool) -> Seq<char> {
    if is_regex {
        text
    } else {
        literal_expression(text)
    }
}

/// What opens the anchored form of an expression: the start of the text,
/// and a group around the expression.
pub open spec fn anchor_opening() -> Seq<char> {
    seq!['^', '(', '?', ':']
}

/// What closes the anchored form of an expression: the end of the group,
/// and the end of the text.
pub open spec fn anchor_closing() -> Seq<char> {
    seq![')', '$']
}

/// The anchored form of an expression, as it is handed to the engine: a
/// match of it has to span the whole text.
pub open spec fn anchored(expression: Seq<char>) -> Seq<char> {
    anchor_opening() + expression + anchor_closing()
}

/// The expression can be compiled: the engine accepts it as it stands, and
/// accepts its anchored form.
pub open spec fn compilable(expression: Seq<char>) -> bool {
    engine_accepts(expression) && engine_accepts(anchored(expression))
}

/// An expression with the guards taken off: each backslash is dropped and
/// the character behind it kept.
pub open spec fn unescaped(expression: Seq<char>) -> Seq<char>
    decreases expression.len(),
{
    if expression.len() == 0 {
        expression
    } else if expression[0] == GUARD && expression.len() >= 2 {
        seq![expression[1]] + unescaped(expression.skip(2))
    } else {
        seq![expression[0]] + unescaped(expression.skip(1))
    }
}

/// The expression is made of literals alone: plain characters, and
/// metacharacters that each stand behind a guard of their own.
pub open spec fn literal_only(expression: Seq<char>) -> bool
    decreases expression.len(),
{
    if expression.len() == 0 {
        true
    } else if expression[0] == GUARD {
        expression.len() >= 2 && is_metacharacter(expression[1]) && literal_only(
            expression.skip(2),
        )
    } else {
        !is_metacharacter(expression[0]) && literal_only(expression.skip(1))
    }
}

/// Escaping goes character by character from the front as well.
pub proof fn lemma_escaped_front(text: Seq<char>)
    requires
        text.len() > 0,
    ensures
        escaped(text) == escaped_char(text[0]) + escaped(text.skip(1)),
    decreases text.len(),
{
    if text.len() == 1 {
        assert(text.drop_last() =~= Seq::<char>::empty());
        assert(text.skip(1) =~= Seq::<char>::empty());
        assert(escaped(text) =~= escaped_char(text[0]) + escaped(text.skip(1)));
    } else {
        lemma_escaped_front(text.drop_last());
        assert(text.drop_last().skip(1) =~= text.skip(1).drop_last());
        assert(text.skip(1).last() == text.last());
        assert(escaped(text) =~= escaped_char(text[0]) + escaped(text.skip(1)));
    }
}

/// Escaping loses nothing: taking the guards off gives the query back.
pub proof fn lemma_unescape_escaped(text: Seq<char>)
    ensures
        unescaped(escaped(text)) == text,
    decreases text.len(),
{
    if text.len() > 0 {
        let rest = text.skip(1);
        lemma_escaped_front(text);
        lemma_unescape_escaped(rest);
        let whole = escaped(text);
        if is_metacharacter(text[0]) {
            assert(whole.skip(2) =~= escaped(rest));
        } else {
            assert(whole.skip(1) =~= escaped(rest));
        }
        assert(seq![text[0]] + rest =~= text);
    }
}

/// Two literal queries with the same escaped form are the same query.
pub proof fn lemma_escaped_is_injective(first: Seq<char>, second: Seq<char>)
    requires
        escaped(first) == escaped(second),
    ensures
        first == second,
{
    lemma_unescape_escaped(first);
    lemma_unescape_escaped(second);
}

/// Escaping is exhaustive: in the escaped form no metacharacter is left
/// unguarded.
pub proof fn lemma_escaped_is_literal_only(text: Seq<char>)
    ensures
        literal_only(escaped(text)),
    decreases text.len(),
{
    if text.len() > 0 {
        let rest = text.skip(1);
        lemma_escaped_front(text);
        lemma_escaped_is_literal_only(rest);
        let whole = escaped(text);
        if is_metacharacter(text[0]) {
            assert(whole.skip(2) =~= escaped(rest));
        } else {
            assert(whole.skip(1) =~= escaped(rest));
        }
    }
}

/// Whether `c` means something to the engine.
pub fn is_meta(c: char) -> (meta: bool)
    ensures
        meta == is_metacharacter(c),
{
    c == '\\' || c == '.' || c == '+' || c == '*' || c == '?' || c == '(' || c == ')' || c == '|'
        || c == '[' || c == ']' || c == '{' || c == '}' || c == '^' || c == '$' || c == '#' || c
        == '&' || c == '-' || c == '~'
}

/// Appends the escaped form of `text` to `target`.
fn push_escaped(target: &mut String, text: &str)
    ensures
        final(target)@ == old(target)@ + escaped(text@),
{
    let ghost start = target@;
    assert(start + escaped(text@.take(0)) =~= start);
    for c in it: text.chars()
        invariant
            it.seq() == text@,
            target@ == start + escaped(text@.take(it.index())),
    {
        let ghost k = it.index();
        proof {
            assert(text@.take(k + 1).drop_last() =~= text@.take(k));
            assert(text@.take(k + 1).last() == c);
        }
        if is_meta(c) {
            push_char(target, GUARD);
        }
        push_char(target, c);
        assert(target@ =~= start + escaped(text@.take(k + 1)));
    }
    assert(text@.take(text@.len() as int) =~= text@);
}

/// A literal query with every metacharacter guarded by a backslash.
pub fn escape_literal(text: &str) -> (out: String)
    ensures
        out@ == escaped(text@),
{
    let mut out = String::new();
    push_escaped(&mut out, text);
    assert(out@ =~= escaped(text@));
    out
}

/// The expression of a literal query: the escaped text, free to stand
/// anywhere in the path.
pub fn literal_to_expression(text: &str) -> (out: String)
    ensures
        out@ == literal_expression(text@),
{
    let mut out = String::new();
    push_char(&mut out, '^');
    push_char(&mut out, '.');
    push_char(&mut out, '*');
    assert(out@ =~= opening());
    push_escaped(&mut out, text);
    push_char(&mut out, '.');
    push_char(&mut out, '*');
    push_char(&mut out, '$');
    assert(out@ =~= literal_expression(text@));
    out
}

/// The anchored form of an expression.
pub fn anchor(expression: &str) -> (out: String)
    ensures
        out@ == anchored(expression@),
{
    let mut out = String::new();
    push_char(&mut out, '^');
    push_char(&mut out, '(');
    push_char(&mut out, '?');
    push_char(&mut out, ':');
    assert(out@ =~= anchor_opening());
    out.append(expression);
    push_char(&mut out, ')');
    push_char(&mut out, '$');
    assert(out@ =~= anchored(expression@));
    out
}

/// An expression compiled to match whole texts: it matches a text when it
/// matches it from the first to the last character.
#[derive(Debug)]
pub struct Matcher {
    compiled: CompiledExpression,
    expression: String,
}

impl View for Matcher {
    type V = Seq<char>;

    closed spec fn view(&self) -> Seq<char> {
        self.expression@
    }
}

impl Matcher {
    #[verifier::type_invariant]
    spec fn wf(self) -> bool {
        self.compiled@ == anchored(self.expression@)
    }

    /// Compiles `expression` to match whole texts. The expression is first
    /// compiled as it stands, so that one which is no expression by itself
    /// is refused even where the anchors would complete it, and then in its
    /// anchored form.
    pub fn new(expression: &str) -> (out: Result<Matcher, regex::Error>)
        ensures
            out is Ok <==> compilable(expression@),
            out matches Ok(matcher) ==> matcher@ == expression@,
    {
        match CompiledExpression::new(expression) {
            Ok(_) => {
                let whole = anchor(expression);
                match CompiledExpression::new(whole.as_str()) {
                    Ok(compiled) => Ok(Matcher { compiled, expression: expression.to_owned() }),
                    Err(refused) => Err(refused),
                }
            },
            Err(refused) => Err(refused),
        }
    }

    /// The expression, without the anchors.
    pub fn expression(&self) -> (expression: &str)
        ensures
            expression@ == self@,
    {
        self.expression.as_str()
    }

    /// Whether the expression matches the whole of `text`.
    pub fn matches(&self, text: &str) -> (found: bool)
        ensures
            found == engine_matches(anchored(self@), text@),
    {
        proof {
            use_type_invariant(self);
        }
        self.compiled.finds(text)
    }
}

/// Whether a query asks for the matches or for their number.
#[derive(Clone, Copy, Debug, PartialEq, Eq, Structural)]
pub enum QueryMode {
    Count,
    List,
}

/// A query ready to be evaluated: the compiled expression, the text the
/// user gave, and the mode.
#[derive(Debug)]
pub struct QueryPattern {
    matcher: Matcher,
    text: String,
    mode: QueryMode,
}

/// A query pattern as plain values.
pub ghost struct PatternView {
    pub expression: Seq<char>,
    pub text: Seq<char>,
    pub mode: QueryMode,
}

impl View for QueryPattern {
    type V = PatternView;

    closed spec fn view(&self) -> PatternView {
        PatternView { expression: self.matcher@, text: self.text@, mode: self.mode }
    }
}

/// The query could not be compiled; `text` is what the user gave.
#[derive(Debug, PartialEq, Eq)]
pub struct PatternError {
    pub text: String,
}

impl QueryPattern {
    /// The expression of the query, as it is shown to the user.
    pub fn expression(&self) -> (expression: &str)
        ensures
            expression@ == self@.expression,
    {
        self.matcher.expression()
    }

    /// The text of the query as the user gave it.
    pub fn text(&self) -> (text: &str)
        ensures
            text@ == self@.text,
    {
        self.text.as_str()
    }

    /// The mode of the query.
    pub fn mode(&self) -> (mode: QueryMode)
        ensures
            mode == self@.mode,
    {
        self.mode
    }

    /// Whether the query matches `path`: whether its expression matches
    /// the whole path.
    pub fn matches(&self, path: &str) -> (found: bool)
        ensures
            found == engine_matches(anchored(self@.expression), path@),
    {
        self.matcher.matches(path)
    }
}

/// Makes the query pattern out of what the engine returned for the query's
/// expression: the pattern around the compiled expression, or the error
/// with the user's text.
pub fn pattern_from(compiled: Result<Matcher, regex::Error>, text: &str, mode: QueryMode) -> (out:
    Result<QueryPattern, PatternError>)
    ensures
        match compiled {
            Ok(accepted) => out is Ok && out->Ok_0@ == (PatternView {
                expression: accepted@,
                text: text@,
                mode,
            }),
            Err(_) => out is Err && out->Err_0.text@ == text@,
        },
{
    match compiled {
        Ok(accepted) => Ok(QueryPattern { matcher: accepted, text: text.to_owned(), mode }),
        Err(_) => Err(PatternError { text: text.to_owned() }),
    }
}

/// Compiles a query. The expression of a regular-expression query is the
/// user's text as it stands, that of a literal query its literal
/// expression. The result is the pattern exactly when the expression can be
/// compiled, else the error with the user's text.
pub fn compile(text: &str, is_regex: bool, mode: QueryMode) -> (out: Result<
    QueryPattern,
    PatternError,
>)
    ensures
        match out {
            Ok(pattern) => compilable(expression_for(text@, is_regex)) && pattern@ == (
            PatternView { expression: expression_for(text@, is_regex), text: text@, mode }),
            Err(error) => !compilable(expression_for(text@, is_regex)) && error.text@ == text@,
        },
{
    if is_regex {
        pattern_from(Matcher::new(text), text, mode)
    } else {
        let expression = literal_to_expression(text);
        pattern_from(Matcher::new(expression.as_str()), text, mode)
    }
}

} // verus!
