//! The mathematical model of the notation: what each sequence of characters
//! parses to.
//!
//! Everything here is specification-level. [`spec_parse`] is the reference
//! the executable parser in [`crate::parser`] is proved against: maximal
//! character runs bound each lexeme, the decimal grammar is tried before the
//! integer grammar, and a list is the whitespace-separated values between one
//! `(` and its matching `)`.
use vstd::prelude::*;
use crate::classify::CharClass;
use crate::classify::spec_is_closed_paren;
use crate::classify::spec_is_number;
use crate::classify::spec_is_open_paren;
use crate::classify::spec_is_period;
use crate::classify::spec_is_quote;

verus! {

/// The abstract form of a parsed value.
///
/// A decimal number keeps its exact lexeme (the digits on both sides of the
/// period); an integer is the saturated numeric value of its digits.
pub ghost enum ValueModel {
    Integer(int),
    Float(Seq<char>),
    Symbol(Seq<char>),
    Text(Seq<char>),
    List(Seq<ValueModel>),
}

/// The abstract form of a parse failure.
pub ghost enum ErrorModel {
    EmptyInput,
    UnterminatedList,
    UnterminatedString,
    TrailingInput(Seq<char>),
}

/// The length of the maximal prefix of `s` whose characters all satisfy `p`.
pub open spec fn run_count(s: Seq<char>, p: spec_fn(char) -> bool) -> nat
    decreases s.len(),
{
    if s.len() > 0 && p(s[0]) {
        (1 + run_count(s.skip(1), p)) as nat
    } else {
        0
    }
}

/// The maximal run of whitespace at the front of `s`.
pub open spec fn ws_run(s: Seq<char>) -> nat {
    run_count(s, CharClass::Whitespace.as_pred())
}

/// The maximal run of decimal digits at the front of `s`.
pub open spec fn digit_run(s: Seq<char>) -> nat {
    run_count(s, CharClass::Number.as_pred())
}

/// The maximal run of non-quote characters at the front of `s`.
pub open spec fn nonquote_run(s: Seq<char>) -> nat {
    run_count(s, CharClass::NotQuote.as_pred())
}

/// The maximal run of non-whitespace characters at the front of `s`.
pub open spec fn nonws_run(s: Seq<char>) -> nat {
    run_count(s, CharClass::NonWhitespace.as_pred())
}

/// A run never reaches past the end of the sequence.
pub proof fn lemma_run_le_len(s: Seq<char>, p: spec_fn(char) -> bool)
    ensures
        run_count(s, p) <= s.len(),
    decreases s.len(),
{
    if s.len() > 0 && p(s[0]) {
        lemma_run_le_len(s.skip(1), p);
    }
}

/// What a run means position by position: every character inside it
/// satisfies `p`, and the first character after it (if any) does not.
pub proof fn lemma_run_chars(s: Seq<char>, p: spec_fn(char) -> bool)
    ensures
        run_count(s, p) <= s.len(),
        forall|i: int| 0 <= i < run_count(s, p) ==> p(#[trigger] s[i]),
        run_count(s, p) < s.len() ==> !p(s[run_count(s, p) as int]),
    decreases s.len(),
{
    lemma_run_le_len(s, p);
    if s.len() > 0 && p(s[0]) {
        lemma_run_chars(s.skip(1), p);
        assert forall|i: int| 0 <= i < run_count(s, p) implies p(#[trigger] s[i]) by {
            if i > 0 {
                assert(s[i] == s.skip(1)[i - 1]);
            }
        }
        if run_count(s, p) < s.len() {
            assert(s[run_count(s, p) as int] == s.skip(1)[run_count(s.skip(1), p) as int]);
        }
    }
}

/// A run is exactly characterized by its two properties; any position with
/// them is the run's length.
pub proof fn lemma_run_is(s: Seq<char>, p: spec_fn(char) -> bool, n: int)
    requires
        0 <= n <= s.len(),
        forall|i: int| 0 <= i < n ==> p(#[trigger] s[i]),
        n < s.len() ==> !p(s[n]),
    ensures
        run_count(s, p) == n,
    decreases s.len(),
{
    if s.len() > 0 && p(s[0]) {
        assert forall|i: int| 0 <= i < n - 1 implies p(#[trigger] s.skip(1)[i]) by {
            assert(s.skip(1)[i] == s[i + 1]);
        }
        if n - 1 < s.len() - 1 {
            assert(s.skip(1)[n - 1] == s[n]);
        }
        lemma_run_is(s.skip(1), p, n - 1);
    }
}

/// One step of a run: a first character that satisfies `p` contributes one
/// to the run of the whole.
pub proof fn lemma_run_unfold(s: Seq<char>, p: spec_fn(char) -> bool)
    requires
        s.len() > 0,
        p(s[0]),
    ensures
        run_count(s, p) == 1 + run_count(s.skip(1), p),
{
}

/// Skipping twice is skipping once by the sum.
pub proof fn lemma_skip_skip(s: Seq<char>, a: int, b: int)
    requires
        0 <= a,
        0 <= b,
        a + b <= s.len(),
    ensures
        s.skip(a).skip(b) == s.skip(a + b),
{
    assert(s.skip(a).skip(b) =~= s.skip(a + b));
}

/// The remainder of `s` after its leading whitespace.
pub open spec fn skip_ws(s: Seq<char>) -> Seq<char> {
    s.skip(ws_run(s) as int)
}

/// After the leading whitespace has been skipped, no whitespace leads.
pub proof fn lemma_skip_ws_no_leading_ws(s: Seq<char>)
    ensures
        ws_run(skip_ws(s)) == 0,
        skip_ws(s).len() > 0 ==> !CharClass::Whitespace.spec_holds(skip_ws(s)[0]),
{
    let p = CharClass::Whitespace.as_pred();
    lemma_run_chars(s, p);
    let w = ws_run(s) as int;
    if skip_ws(s).len() > 0 {
        assert(skip_ws(s)[0] == s[w]);
        assert(!p(s[w]));
    }
}

/// The numeric value of a digit character.
pub open spec fn digit_val(c: char) -> int {
    c as u32 - 48
}

/// The base-10 value of a sequence of digit characters.
pub open spec fn digits_value(s: Seq<char>) -> int
    decreases s.len(),
{
    if s.len() == 0 {
        0
    } else {
        10 * digits_value(s.drop_last()) + digit_val(s.last())
    }
}

/// A sequence of digit characters has a nonnegative value.
pub proof fn lemma_digits_value_nonneg(s: Seq<char>)
    requires
        forall|i: int| 0 <= i < s.len() ==> spec_is_number(#[trigger] s[i]),
    ensures
        digits_value(s) >= 0,
    decreases s.len(),
{
    if s.len() > 0 {
        lemma_digits_value_nonneg(s.drop_last());
    }
}

/// Clamps a nonnegative mathematical integer into `i64`.
///
/// Digit sequences too long for the host integer width parse to `i64::MAX`
/// rather than failing: the notation puts no bound on literal length.
pub open spec fn sat_i64(n: int) -> int {
    if n > i64::MAX {
        i64::MAX as int
    } else {
        n
    }
}

/// Whether `t` starts with a fractional-number lexeme: one or more digits,
/// a period, one or more digits.
pub open spec fn float_shape(t: Seq<char>) -> bool {
    let d1 = digit_run(t);
    d1 > 0 && d1 < t.len() && spec_is_period(t[d1 as int]) && digit_run(t.skip(d1 + 1 as int)) > 0
}

/// The length of the fractional-number lexeme at the front of `t`.
pub open spec fn float_len(t: Seq<char>) -> nat {
    let d1 = digit_run(t);
    let d2 = digit_run(t.skip(d1 + 1 as int));
    (d1 + 1 + d2) as nat
}

/// Parses one value at the front of `s`, leading and trailing whitespace
/// included. On success the result carries the text that remains.
pub open spec fn parse_value(s: Seq<char>) -> Result<(ValueModel, Seq<char>), ErrorModel>
    decreases s.len(), 1int,
    via parse_value_decreases
{
    let t = skip_ws(s);
    if t.len() == 0 {
        Err(ErrorModel::EmptyInput)
    } else if spec_is_quote(t[0]) {
        let body = nonquote_run(t.skip(1));
        if body == 0 {
            Err(ErrorModel::UnterminatedString)
        } else if 1 + body < t.len() {
            Ok((ValueModel::Text(t.subrange(1, 1 + body as int)), skip_ws(t.skip(2 + body as int))))
        } else {
            Err(ErrorModel::UnterminatedString)
        }
    } else if spec_is_open_paren(t[0]) {
        match parse_elems(t.skip(1)) {
            Err(e) => Err(e),
            Ok((vs, r)) => {
                if r.len() > 0 && spec_is_closed_paren(r[0]) {
                    Ok((ValueModel::List(vs), skip_ws(r.skip(1))))
                } else {
                    Err(ErrorModel::UnterminatedList)
                }
            },
        }
    } else if spec_is_number(t[0]) {
        if float_shape(t) {
            Ok((ValueModel::Float(t.take(float_len(t) as int)), skip_ws(t.skip(float_len(t) as int))))
        } else {
            let d1 = digit_run(t);
            Ok((ValueModel::Integer(sat_i64(digits_value(t.take(d1 as int)))), skip_ws(t.skip(d1 as int))))
        }
    } else {
        let n = nonws_run(t);
        Ok((ValueModel::Symbol(t.take(n as int)), skip_ws(t.skip(n as int))))
    }
}

/// Parses the values inside a list, stopping at a closing parenthesis or at
/// the end of the input.
pub open spec fn parse_elems(s: Seq<char>) -> Result<(Seq<ValueModel>, Seq<char>), ErrorModel>
    decreases s.len(), 2int,
{
    if s.len() == 0 {
        Ok((Seq::empty(), s))
    } else if spec_is_closed_paren(s[0]) {
        Ok((Seq::empty(), s))
    } else {
        match parse_value(s) {
            Err(e) => Err(e),
            Ok((v, r)) => {
                if r.len() < s.len() {
                    match parse_elems(r) {
                        Err(e) => Err(e),
                        Ok((vs, rest)) => Ok((seq![v] + vs, rest)),
                    }
                } else {
                    Err(ErrorModel::UnterminatedList)
                }
            },
        }
    }
}

#[via_fn]
proof fn parse_value_decreases(s: Seq<char>) {
    lemma_run_le_len(s, CharClass::Whitespace.as_pred());
}

/// A successfully parsed value consumes its own trailing whitespace: the
/// text it leaves behind never starts with whitespace.
pub proof fn lemma_parse_value_rest(s: Seq<char>)
    requires
        parse_value(s) is Ok,
    ensures
        ws_run(parse_value(s)->Ok_0.1) == 0,
{
    let t = skip_ws(s);
    if t.len() == 0 {
    } else if spec_is_quote(t[0]) {
        let body = nonquote_run(t.skip(1));
        lemma_skip_ws_no_leading_ws(t.skip(2 + body as int));
    } else if spec_is_open_paren(t[0]) {
        match parse_elems(t.skip(1)) {
            Err(_) => {},
            Ok((vs, r)) => {
                lemma_skip_ws_no_leading_ws(r.skip(1));
            },
        }
    } else if spec_is_number(t[0]) {
        lemma_skip_ws_no_leading_ws(t.skip(float_len(t) as int));
        lemma_skip_ws_no_leading_ws(t.skip(digit_run(t) as int));
    } else {
        lemma_skip_ws_no_leading_ws(t.skip(nonws_run(t) as int));
    }
}

/// Parses one whole line: a single value with nothing but whitespace around
/// it. Text remaining after the value is the trailing-input failure, carried
/// verbatim.
pub open spec fn spec_parse(s: Seq<char>) -> Result<ValueModel, ErrorModel> {
    match parse_value(s) {
        Err(e) => Err(e),
        Ok((v, rest)) => {
            if rest.len() == 0 {
                Ok(v)
            } else {
                Err(ErrorModel::TrailingInput(rest))
            }
        },
    }
}

} // verus!
