//! Grammar-specific scanners and the recursive-descent parser.
//!
//! Each `scan_*` function consumes exactly one lexeme from the cursor or
//! leaves the cursor where it was; `parse` ties everything together and is
//! proved to agree with the grammar model [`crate::grammar::spec_parse`] on
//! every input.
use vstd::prelude::*;
use crate::classify::CharClass;
use crate::classify::is_closed_paren;
use crate::classify::is_number;
use crate::classify::is_open_paren;
use crate::classify::is_quote;
use crate::classify::spec_is_number;
use crate::grammar::digit_run;
use crate::grammar::digits_value;
use crate::grammar::float_len;
use crate::grammar::float_shape;
use crate::grammar::lemma_digits_value_nonneg;
use crate::grammar::lemma_run_chars;
use crate::grammar::lemma_run_le_len;
use crate::grammar::lemma_run_unfold;
use crate::grammar::lemma_skip_skip;
use crate::grammar::nonquote_run;
use crate::grammar::nonws_run;
use crate::grammar::run_count;
use crate::grammar::sat_i64;
use crate::classify::spec_is_open_paren;
use crate::classify::spec_is_quote;
use crate::classify::spec_is_whitespace;
use crate::grammar::ErrorModel;
use crate::grammar::ValueModel;
use crate::classify::spec_is_closed_paren;
use crate::grammar::lemma_parse_value_rest;
use crate::grammar::lemma_skip_ws_no_leading_ws;
use crate::grammar::parse_elems;
use crate::grammar::parse_value;
use crate::grammar::skip_ws;
use crate::grammar::spec_parse;
use crate::scanner::Scanner;
use crate::value::lemma_models_push;
use crate::value::models_of;
use crate::value::spec_message;
use crate::value::ParseError;
use crate::value::Value;

verus! {

/// Scans a string body: one or more characters other than `"`. The opening
/// and closing quotes are the caller's to consume.
pub fn scan_string(sc: &mut Scanner) -> (ok: bool)
    requires
        old(sc).wf(),
    ensures
        final(sc).wf(),
        final(sc).text == old(sc).text,
        final(sc).chars@ == old(sc).chars@,
        old(sc).pos <= final(sc).pos,
        ({
            let t = old(sc).remaining();
            let b = nonquote_run(t);
            if b > 0 {
                ok && final(sc).pos == old(sc).pos + b && final(sc).remaining() == t.skip(b as int)
            } else {
                !ok && final(sc).pos == old(sc).pos && final(sc).remaining() == t
            }
        }),
{
    let ghost t = sc.remaining();
    let ghost p = CharClass::NotQuote.as_pred();
    let first = sc.accept_if(CharClass::NotQuote);
    if first.is_none() {
        return false;
    }
    sc.skip_while(CharClass::NotQuote);
    proof {
        lemma_run_unfold(t, p);
        lemma_run_le_len(t.skip(1), p);
        lemma_skip_skip(t, 1, run_count(t.skip(1), p) as int);
    }
    true
}

/// Scans an integer lexeme: one or more decimal digits.
pub fn scan_number(sc: &mut Scanner) -> (ok: bool)
    requires
        old(sc).wf(),
    ensures
        final(sc).wf(),
        final(sc).text == old(sc).text,
        final(sc).chars@ == old(sc).chars@,
        old(sc).pos <= final(sc).pos,
        ({
            let t = old(sc).remaining();
            let d = digit_run(t);
            if d > 0 {
                ok && final(sc).pos == old(sc).pos + d && final(sc).remaining() == t.skip(d as int)
            } else {
                !ok && final(sc).pos == old(sc).pos && final(sc).remaining() == t
            }
        }),
{
    let ghost t = sc.remaining();
    let ghost p = CharClass::Number.as_pred();
    let first = sc.accept_if(CharClass::Number);
    if first.is_none() {
        return false;
    }
    sc.skip_while(CharClass::Number);
    proof {
        lemma_run_unfold(t, p);
        lemma_run_le_len(t.skip(1), p);
        lemma_skip_skip(t, 1, run_count(t.skip(1), p) as int);
    }
    true
}

/// Scans a symbol lexeme: one or more non-whitespace characters.
pub fn scan_symbol(sc: &mut Scanner) -> (ok: bool)
    requires
        old(sc).wf(),
    ensures
        final(sc).wf(),
        final(sc).text == old(sc).text,
        final(sc).chars@ == old(sc).chars@,
        old(sc).pos <= final(sc).pos,
        ({
            let t = old(sc).remaining();
            let n = nonws_run(t);
            if n > 0 {
                ok && final(sc).pos == old(sc).pos + n && final(sc).remaining() == t.skip(n as int)
            } else {
                !ok && final(sc).pos == old(sc).pos && final(sc).remaining() == t
            }
        }),
{
    let ghost t = sc.remaining();
    let ghost p = CharClass::NonWhitespace.as_pred();
    let first = sc.accept_if(CharClass::NonWhitespace);
    if first.is_none() {
        return false;
    }
    sc.skip_while(CharClass::NonWhitespace);
    proof {
        lemma_run_unfold(t, p);
        lemma_run_le_len(t.skip(1), p);
        lemma_skip_skip(t, 1, run_count(t.skip(1), p) as int);
    }
    true
}

/// Scans a fractional-number lexeme: digits, a period, digits. On any
/// failure the cursor rolls back so the integer grammar can retry from the
/// same position.
pub fn scan_float(sc: &mut Scanner) -> (ok: bool)
    requires
        old(sc).wf(),
    ensures
        final(sc).wf(),
        final(sc).text == old(sc).text,
        final(sc).chars@ == old(sc).chars@,
        old(sc).pos <= final(sc).pos,
        ({
            let t = old(sc).remaining();
            if float_shape(t) {
                ok && final(sc).pos == old(sc).pos + float_len(t) && final(sc).remaining()
                    == t.skip(float_len(t) as int)
            } else {
                !ok && final(sc).pos == old(sc).pos && final(sc).remaining() == t
            }
        }),
{
    let ghost t = sc.remaining();
    let ghost p = CharClass::Number.as_pred();
    let m = sc.mark();
    let first = sc.accept_if(CharClass::Number);
    if first.is_none() {
        return false;
    }
    sc.skip_while(CharClass::Number);
    proof {
        lemma_run_unfold(t, p);
        lemma_run_le_len(t.skip(1), p);
        lemma_skip_skip(t, 1, run_count(t.skip(1), p) as int);
    }
    let period = sc.accept_if(CharClass::Period);
    if period.is_none() {
        sc.restore(m);
        return false;
    }
    proof {
        lemma_skip_skip(t, digit_run(t) as int, 1);
    }
    let frac = sc.accept_if(CharClass::Number);
    if frac.is_none() {
        sc.restore(m);
        return false;
    }
    sc.skip_while(CharClass::Number);
    proof {
        let d1 = digit_run(t) as int;
        let f = t.skip(d1 + 1);
        lemma_run_unfold(f, p);
        lemma_run_le_len(f.skip(1), p);
        lemma_skip_skip(f, 1, run_count(f.skip(1), p) as int);
        lemma_skip_skip(t, d1 + 1, digit_run(f) as int);
    }
    true
}

/// Converts a digit lexeme to its numeric value, clamped at `i64::MAX` when
/// the digits outgrow the host integer width.
pub fn digits_to_i64(s: &str) -> (n: i64)
    requires
        forall|i: int| 0 <= i < s@.len() ==> spec_is_number(#[trigger] s@[i]),
    ensures
        n as int == sat_i64(digits_value(s@)),
{
    let len = s.unicode_len();
    let mut acc: i64 = 0;
    let mut i: usize = 0;
    proof {
        assert(s@.take(0) =~= Seq::<char>::empty());
    }
    while i < len
        invariant
            i <= len,
            len as nat == s@.len(),
            forall|k: int| 0 <= k < s@.len() ==> spec_is_number(#[trigger] s@[k]),
            0 <= acc,
            acc as int == sat_i64(digits_value(s@.take(i as int))),
        decreases len - i,
    {
        let c = s.get_char(i);
        let u = c as u32;
        let d = (u - 48) as i64;
        let ghost prefix = s@.take(i as int);
        let ghost whole = s@.take(i as int + 1);
        proof {
            assert(whole.drop_last() =~= prefix);
            assert(whole.last() == s@[i as int]);
            lemma_digits_value_nonneg(prefix);
            assert(digits_value(whole) == 10 * digits_value(prefix) + d);
        }
        let limit = (i64::MAX - d) / 10;
        if acc > limit {
            proof {
                let v = digits_value(prefix);
                let q = (i64::MAX - d) as int / 10;
                vstd::arithmetic::div_mod::lemma_fundamental_div_mod(i64::MAX - d, 10);
                if v <= i64::MAX {
                    assert(10 * v >= 10 * (q + 1)) by (nonlinear_arith)
                        requires
                            v >= q + 1,
                    ;
                    assert(10 * v + d > i64::MAX);
                } else {
                    assert(10 * v >= v) by (nonlinear_arith)
                        requires
                            v >= 0,
                    ;
                }
                assert(digits_value(whole) > i64::MAX);
            }
            acc = i64::MAX;
        } else {
            proof {
                let v = digits_value(prefix);
                let q = (i64::MAX - d) as int / 10;
                vstd::arithmetic::div_mod::lemma_fundamental_div_mod(i64::MAX - d, 10);
                assert(10 * acc <= 10 * q) by (nonlinear_arith)
                    requires
                        acc <= q,
                ;
                assert(10 * acc + d <= i64::MAX);
                assert(v == acc as int) by {
                    if v > i64::MAX {
                        vstd::arithmetic::div_mod::lemma_div_is_ordered(
                            i64::MAX - d,
                            i64::MAX as int,
                            10,
                        );
                        assert(i64::MAX as int / 10 < i64::MAX);
                    }
                }
            }
            acc = 10 * acc + d;
        }
        i = i + 1;
    }
    proof {
        assert(s@.take(len as int) =~= s@);
    }
    acc
}

/// Parses a string literal: an opening quote, a non-empty body, a closing
/// quote. Fails when the body is empty or the closing quote never comes.
pub fn parse_string(sc: &mut Scanner) -> (r: Result<Value, ParseError>)
    requires
        old(sc).wf(),
        old(sc).remaining().len() > 0,
        spec_is_quote(old(sc).remaining()[0]),
    ensures
        final(sc).wf(),
        final(sc).text == old(sc).text,
        final(sc).chars@ == old(sc).chars@,
        old(sc).pos <= final(sc).pos,
        ({
            let t = old(sc).remaining();
            let b = nonquote_run(t.skip(1));
            if b > 0 && 1 + b < t.len() {
                r matches Ok(v) && v.model() == ValueModel::Text(t.subrange(1, 1 + b as int))
                    && final(sc).pos == old(sc).pos + 2 + b && final(sc).remaining() == t.skip(
                    2 + b as int,
                )
            } else {
                r matches Err(e) && e@ == ErrorModel::UnterminatedString
            }
        }),
{
    let ghost t = sc.remaining();
    let opening = sc.accept_if(CharClass::Quote);
    let start = sc.mark();
    let ok = scan_string(sc);
    if !ok {
        return Err(ParseError::UnterminatedString);
    }
    let s = sc.lexeme(start);
    proof {
        let b = nonquote_run(t.skip(1)) as int;
        assert(s@ =~= t.subrange(1, 1 + b));
        lemma_run_le_len(t.skip(1), CharClass::NotQuote.as_pred());
        lemma_skip_skip(t, 1, b);
    }
    let closing = sc.accept_if(CharClass::Quote);
    match closing {
        None => {
            proof {
                let b = nonquote_run(t.skip(1)) as int;
                let after = t.skip(1).skip(b);
                if 1 + b < t.len() {
                    lemma_run_chars(t.skip(1), CharClass::NotQuote.as_pred());
                    assert(after[0] == t.skip(1)[b]);
                }
            }
            Err(ParseError::UnterminatedString)
        },
        Some(_) => {
            proof {
                let b = nonquote_run(t.skip(1)) as int;
                lemma_skip_skip(t, 1, b + 1);
            }
            Ok(Value::Text(s))
        },
    }
}

/// Parses a number. The fractional grammar is attempted first; when it
/// fails the cursor has rolled back and the integer grammar reads the same
/// digits.
pub fn parse_number(sc: &mut Scanner) -> (r: Result<Value, ParseError>)
    requires
        old(sc).wf(),
        old(sc).remaining().len() > 0,
        spec_is_number(old(sc).remaining()[0]),
    ensures
        final(sc).wf(),
        final(sc).text == old(sc).text,
        final(sc).chars@ == old(sc).chars@,
        old(sc).pos < final(sc).pos,
        ({
            let t = old(sc).remaining();
            if float_shape(t) {
                r matches Ok(v) && v.model() == ValueModel::Float(t.take(float_len(t) as int))
                    && final(sc).pos == old(sc).pos + float_len(t) && final(sc).remaining()
                    == t.skip(float_len(t) as int)
            } else {
                let d = digit_run(t);
                r matches Ok(v) && v.model() == ValueModel::Integer(
                    sat_i64(digits_value(t.take(d as int))),
                ) && final(sc).pos == old(sc).pos + d && final(sc).remaining() == t.skip(d as int)
            }
        }),
{
    let ghost t = sc.remaining();
    let start = sc.mark();
    let is_float = scan_float(sc);
    if is_float {
        let s = sc.lexeme(start);
        proof {
            assert(s@ =~= t.take(float_len(t) as int));
        }
        Ok(Value::Float(s))
    } else {
        let ok = scan_number(sc);
        proof {
            lemma_run_unfold(t, CharClass::Number.as_pred());
        }
        let s = sc.lexeme(start);
        proof {
            assert(s@ =~= t.take(digit_run(t) as int));
            lemma_run_chars(t, CharClass::Number.as_pred());
        }
        let n = digits_to_i64(s.as_str());
        Ok(Value::Integer(n))
    }
}

/// Parses a symbol: the maximal run of non-whitespace characters at the
/// cursor.
pub fn parse_symbol(sc: &mut Scanner) -> (r: Result<Value, ParseError>)
    requires
        old(sc).wf(),
        old(sc).remaining().len() > 0,
        !spec_is_whitespace(old(sc).remaining()[0]),
    ensures
        final(sc).wf(),
        final(sc).text == old(sc).text,
        final(sc).chars@ == old(sc).chars@,
        old(sc).pos < final(sc).pos,
        ({
            let t = old(sc).remaining();
            let n = nonws_run(t);
            r matches Ok(v) && v.model() == ValueModel::Symbol(t.take(n as int)) && final(sc).pos
                == old(sc).pos + n && final(sc).remaining() == t.skip(n as int)
        }),
{
    let ghost t = sc.remaining();
    let start = sc.mark();
    let ok = scan_symbol(sc);
    proof {
        lemma_run_unfold(t, CharClass::NonWhitespace.as_pred());
    }
    let s = sc.lexeme(start);
    proof {
        assert(s@ =~= t.take(nonws_run(t) as int));
    }
    Ok(Value::Symbol(s))
}

/// Parses one value, leading and trailing whitespace included: the
/// production is chosen by one character of lookahead.
pub fn parse_internal(sc: &mut Scanner) -> (r: Result<Value, ParseError>)
    requires
        old(sc).wf(),
    ensures
        final(sc).wf(),
        final(sc).text == old(sc).text,
        final(sc).chars@ == old(sc).chars@,
        old(sc).pos <= final(sc).pos,
        ({
            let s = old(sc).remaining();
            match parse_value(s) {
                Ok(pr) => r matches Ok(v) && v.model() == pr.0 && final(sc).remaining() == pr.1
                    && old(sc).pos < final(sc).pos,
                Err(e) => r matches Err(pe) && pe@ == e,
            }
        }),
    decreases old(sc).remaining().len(), 1int,
{
    let ghost s = sc.remaining();
    sc.skip_while(CharClass::Whitespace);
    let ghost t = sc.remaining();
    proof {
        assert(t == skip_ws(s));
        lemma_skip_ws_no_leading_ws(s);
        lemma_run_le_len(s, CharClass::Whitespace.as_pred());
    }
    let pk = sc.peek();
    let r: Result<Value, ParseError> = match pk {
        None => Err(ParseError::EmptyInput),
        Some(c) => {
            if is_quote(c) {
                parse_string(sc)
            } else if is_open_paren(c) {
                parse_sexp(sc)
            } else if is_number(c) {
                parse_number(sc)
            } else {
                parse_symbol(sc)
            }
        },
    };
    match r {
        Err(e) => Err(e),
        Ok(v) => {
            sc.skip_while(CharClass::Whitespace);
            Ok(v)
        },
    }
}

/// Parses a parenthesized list: `(`, any number of whitespace-separated
/// values, `)`. A failure inside an element propagates; a missing `)` is
/// the unterminated-list failure.
pub fn parse_sexp(sc: &mut Scanner) -> (r: Result<Value, ParseError>)
    requires
        old(sc).wf(),
        old(sc).remaining().len() > 0,
        spec_is_open_paren(old(sc).remaining()[0]),
    ensures
        final(sc).wf(),
        final(sc).text == old(sc).text,
        final(sc).chars@ == old(sc).chars@,
        old(sc).pos <= final(sc).pos,
        ({
            let t = old(sc).remaining();
            match parse_elems(t.skip(1)) {
                Err(e) => r matches Err(pe) && pe@ == e,
                Ok(pr) => {
                    if pr.1.len() > 0 && spec_is_closed_paren(pr.1[0]) {
                        r matches Ok(v) && v.model() == ValueModel::List(pr.0) && old(sc).pos
                            < final(sc).pos && final(sc).remaining() == pr.1.skip(1)
                    } else {
                        r matches Err(pe) && pe@ == ErrorModel::UnterminatedList
                    }
                },
            }
        }),
    decreases old(sc).remaining().len(), 0int,
{
    let ghost sc0 = *sc;
    let opening = sc.accept_if(CharClass::OpenParen);
    let ghost t1 = sc.remaining();
    let mut vec: Vec<Value> = Vec::new();
    proof {
        assert(models_of(vec@) =~= Seq::<ValueModel>::empty());
    }
    loop
        invariant
            sc.wf(),
            sc.text == sc0.text,
            sc.chars@ == sc0.chars@,
            sc0.wf(),
            sc0 == *old(sc),
            sc0.pos < sc.pos,
            t1 == sc0.remaining().skip(1),
            ({
                match parse_elems(sc.remaining()) {
                    Ok(pr2) => parse_elems(t1) == Ok::<(Seq<ValueModel>, Seq<char>), ErrorModel>(
                        (models_of(vec@) + pr2.0, pr2.1),
                    ),
                    Err(e2) => parse_elems(t1) == Err::<(Seq<ValueModel>, Seq<char>), ErrorModel>(
                        e2,
                    ),
                }
            }),
        ensures
            sc.wf(),
            sc.text == sc0.text,
            sc.chars@ == sc0.chars@,
            sc0.pos < sc.pos,
            sc.remaining().len() == 0 || spec_is_closed_paren(sc.remaining()[0]),
            parse_elems(t1) == Ok::<(Seq<ValueModel>, Seq<char>), ErrorModel>(
                (models_of(vec@), sc.remaining()),
            ),
        decreases sc.chars@.len() - sc.pos,
    {
        let pk = sc.peek();
        match pk {
            None => {
                proof {
                    assert(models_of(vec@) + Seq::<ValueModel>::empty() =~= models_of(vec@));
                }
                break ;
            },
            Some(c0) => {
                if is_closed_paren(c0) {
                    proof {
                        assert(models_of(vec@) + Seq::<ValueModel>::empty() =~= models_of(vec@));
                    }
                    break ;
                }
                let ghost cur = sc.remaining();
                let sub = parse_internal(sc);
                match sub {
                    Err(e) => {
                        return Err(e);
                    },
                    Ok(v) => {
                        let ghost m = v.model();
                        let ghost rest = sc.remaining();
                        proof {
                            lemma_models_push(vec@, v);
                            match parse_elems(rest) {
                                Ok(pr3) => {
                                    assert(models_of(vec@) + (seq![m] + pr3.0) =~= models_of(
                                        vec@,
                                    ).push(m) + pr3.0);
                                },
                                Err(_) => {},
                            }
                        }
                        vec.push(v);
                        sc.skip_while(CharClass::Whitespace);
                        proof {
                            lemma_parse_value_rest(cur);
                            assert(rest.skip(0) =~= rest);
                        }
                    },
                }
            },
        }
    }
    let closing = sc.accept_if(CharClass::ClosedParen);
    match closing {
        None => Err(ParseError::UnterminatedList),
        Some(_) => Ok(Value::List(vec)),
    }
}

/// Parses one whole line of text into a value tree.
///
/// The result agrees with the grammar model on every input: exactly the
/// lines the grammar accepts yield a tree, and each rejected line yields the
/// matching typed failure, with any text left after a complete value carried
/// verbatim in the trailing-input failure.
pub fn parse(s: &str) -> (r: Result<Value, ParseError>)
    ensures
        ({
            match spec_parse(s@) {
                Ok(m) => r matches Ok(v) && v.model() == m,
                Err(e) => r matches Err(pe) && pe@ == e,
            }
        }),
{
    let mut scanner = Scanner::new(s);
    let r0 = parse_internal(&mut scanner);
    match r0 {
        Err(e) => Err(e),
        Ok(v) => {
            if scanner.has_remaining_text() {
                Err(ParseError::TrailingInput(scanner.remaining_text()))
            } else {
                Ok(v)
            }
        },
    }
}

/// Checks that `s` fails to parse and that its diagnostic text is exactly
/// `e`.
pub fn assert_parse_err(s: &str, e: &str) -> (ok: bool)
    ensures
        ok == (spec_parse(s@) is Err && spec_message(spec_parse(s@)->Err_0) == e@),
{
    let r = parse(s);
    match r {
        Ok(_) => false,
        Err(pe) => {
            let msg = pe.message();
            let expected = String::from_str(e);
            msg == expected
        },
    }
}

} // verus!
