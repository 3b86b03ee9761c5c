//! The typed syntax tree the parser produces, and the typed parse failures.
use vstd::prelude::*;
use crate::grammar::ErrorModel;
use crate::grammar::ValueModel;

verus! {

broadcast use vstd::std_specs::vec::group_vec_axioms;

/// One parsed value.
///
/// A tree is immutable once constructed; equality is structural. `Float`
/// keeps the exact lexeme that was read (digits, a period, digits), so no
/// precision is lost in the tree itself; callers that want a binary floating
/// value convert the lexeme themselves.
#[derive(Debug, PartialEq)]
pub enum Value {
    Integer(i64),
    Float(String),
    Symbol(String),
    Text(String),
    List(Vec<Value>),
}

impl Value {
    /// The abstract form of this tree, with every string replaced by its
    /// character sequence.
    pub open spec fn model(self) -> ValueModel
        decreases self, 0int,
    {
        match self {
            Value::Integer(i) => ValueModel::Integer(i as int),
            Value::Float(s) => ValueModel::Float(s@),
            Value::Symbol(s) => ValueModel::Symbol(s@),
            Value::Text(s) => ValueModel::Text(s@),
            Value::List(es) => ValueModel::List(models_of(es@)),
        }
    }
}

/// The abstract forms of a sequence of trees, element by element.
pub open spec fn models_of(es: Seq<Value>) -> Seq<ValueModel>
    decreases es, 1int,
{
    Seq::new(
        es.len(),
        |i: int|
            if 0 <= i < es.len() {
                es[i].model()
            } else {
                ValueModel::List(Seq::empty())
            },
    )
}

/// Taking models commutes with appending one tree.
pub proof fn lemma_models_push(es: Seq<Value>, v: Value)
    ensures
        models_of(es.push(v)) == models_of(es).push(v.model()),
{
    assert(models_of(es.push(v)) =~= models_of(es).push(v.model()));
}

/// Why a line failed to parse. Every failure is a recoverable value, never
/// an abort.
#[derive(Debug, PartialEq)]
pub enum ParseError {
    /// No character was available where a value was expected: the line was
    /// empty or all whitespace, or the input ended inside a list where an
    /// element should have started.
    EmptyInput,
    /// A `(` was opened but the input ended before its matching `)`.
    UnterminatedList,
    /// A `"` was opened and either the input ended before a closing `"` or
    /// the quoted body was empty (an empty string is not a value of the
    /// notation).
    UnterminatedString,
    /// A complete value was parsed but non-whitespace text remained; the
    /// leftover text is carried verbatim.
    TrailingInput(String),
}

impl View for ParseError {
    type V = ErrorModel;

    open spec fn view(&self) -> ErrorModel {
        match self {
            ParseError::EmptyInput => ErrorModel::EmptyInput,
            ParseError::UnterminatedList => ErrorModel::UnterminatedList,
            ParseError::UnterminatedString => ErrorModel::UnterminatedString,
            ParseError::TrailingInput(t) => ErrorModel::TrailingInput(t@),
        }
    }
}

/// The diagnostic text for each failure.
pub open spec fn spec_message(e: ErrorModel) -> Seq<char> {
    match e {
        ErrorModel::EmptyInput => "scanner error: out of bounds"@,
        ErrorModel::UnterminatedList => "scanner error: missing closing paren"@,
        ErrorModel::UnterminatedString => "scanner error: missing closing quote"@,
        ErrorModel::TrailingInput(t) => "scanner error: has more text \""@ + t + "\""@,
    }
}

impl ParseError {
    /// Renders this failure as the one-line diagnostic a caller displays.
    pub fn message(&self) -> (r: String)
        ensures
            r@ == spec_message(self@),
    {
        match self {
            ParseError::EmptyInput => String::from_str("scanner error: out of bounds"),
            ParseError::UnterminatedList => String::from_str("scanner error: missing closing paren"),
            ParseError::UnterminatedString => String::from_str(
                "scanner error: missing closing quote",
            ),
            ParseError::TrailingInput(t) => {
                let mut r = String::from_str("scanner error: has more text \"");
                r.append(t.as_str());
                r.append("\"");
                r
            },
        }
    }
}

} // verus!
