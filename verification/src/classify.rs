//! Pure character predicates used to dispatch the parser and to bound
//! scanner runs.
//!
//! Each predicate exists twice: a `spec` function that the contracts and the
//! grammar model speak of, and an executable function proved to agree with
//! it. The whitespace class is the Unicode `White_Space` set, written out.
use vstd::prelude::*;

verus! {

/// A double quote, which opens and closes a string literal.
pub open spec fn spec_is_quote(c: char) -> bool {
    c == '"'
}

/// A decimal digit, `0` through `9`.
pub open spec fn spec_is_number(c: char) -> bool {
    48 <= c as u32 && c as u32 <= 57
}

/// The decimal point of a fractional number.
pub open spec fn spec_is_period(c: char) -> bool {
    c == '.'
}

/// The opening parenthesis of a list.
pub open spec fn spec_is_open_paren(c: char) -> bool {
    c == '('
}

/// The closing parenthesis of a list.
pub open spec fn spec_is_closed_paren(c: char) -> bool {
    c == ')'
}

/// The Unicode `White_Space` character class: the delimiters that separate
/// list elements and surround the whole input.
pub open spec fn spec_is_whitespace(c: char) -> bool {
    let u = c as u32;
    u == 0x09 || u == 0x0A || u == 0x0B || u == 0x0C || u == 0x0D || u == 0x20 || u == 0x85
        || u == 0xA0 || u == 0x1680 || (0x2000 <= u && u <= 0x200A) || u == 0x2028 || u == 0x2029
        || u == 0x202F || u == 0x205F || u == 0x3000
}

pub fn is_quote(c: char) -> (r: bool)
    ensures
        r == spec_is_quote(c),
{
    c == '"'
}

pub fn is_not_quote(c: char) -> (r: bool)
    ensures
        r == !spec_is_quote(c),
{
    c != '"'
}

pub fn is_number(c: char) -> (r: bool)
    ensures
        r == spec_is_number(c),
{
    let u = c as u32;
    48 <= u && u <= 57
}

pub fn is_period(c: char) -> (r: bool)
    ensures
        r == spec_is_period(c),
{
    c == '.'
}

pub fn is_open_paren(c: char) -> (r: bool)
    ensures
        r == spec_is_open_paren(c),
{
    c == '('
}

pub fn is_closed_paren(c: char) -> (r: bool)
    ensures
        r == spec_is_closed_paren(c),
{
    c == ')'
}

pub fn is_whitespace_char(c: char) -> (r: bool)
    ensures
        r == spec_is_whitespace(c),
{
    let u = c as u32;
    u == 0x09 || u == 0x0A || u == 0x0B || u == 0x0C || u == 0x0D || u == 0x20 || u == 0x85
        || u == 0xA0 || u == 0x1680 || (0x2000 <= u && u <= 0x200A) || u == 0x2028 || u == 0x2029
        || u == 0x202F || u == 0x205F || u == 0x3000
}

/// The character classes the scanner can be asked to accept or skip.
///
/// Passing one of these to [`crate::scanner::Scanner::accept_if`] or
/// [`crate::scanner::Scanner::skip_while`] selects the predicate the scanner
/// tests characters against.
#[derive(Clone, Copy)]
pub enum CharClass {
    Quote,
    NotQuote,
    Number,
    Period,
    OpenParen,
    ClosedParen,
    Whitespace,
    NonWhitespace,
}

impl CharClass {
    /// What this class means, as a predicate on one character.
    pub open spec fn spec_holds(self, c: char) -> bool {
        match self {
            CharClass::Quote => spec_is_quote(c),
            CharClass::NotQuote => !spec_is_quote(c),
            CharClass::Number => spec_is_number(c),
            CharClass::Period => spec_is_period(c),
            CharClass::OpenParen => spec_is_open_paren(c),
            CharClass::ClosedParen => spec_is_closed_paren(c),
            CharClass::Whitespace => spec_is_whitespace(c),
            CharClass::NonWhitespace => !spec_is_whitespace(c),
        }
    }

    /// This class as a predicate value, for the run-length model.
    pub open spec fn as_pred(self) -> spec_fn(char) -> bool {
        |c: char| self.spec_holds(c)
    }

    /// Tests one character against this class.
    pub fn holds(self, c: char) -> (r: bool)
        ensures
            r == self.spec_holds(c),
    {
        match self {
            CharClass::Quote => is_quote(c),
            CharClass::NotQuote => is_not_quote(c),
            CharClass::Number => is_number(c),
            CharClass::Period => is_period(c),
            CharClass::OpenParen => is_open_paren(c),
            CharClass::ClosedParen => is_closed_paren(c),
            CharClass::Whitespace => is_whitespace_char(c),
            CharClass::NonWhitespace => {
                let w = is_whitespace_char(c);
                !w
            },
        }
    }
}

} // verus!
