//! The general laws of the reader, proved against the grammar model.
//!
//! Each public proof function here states one property of [`crate::grammar::spec_parse`]
//! for all inputs of a shape, and therefore — through the contract of
//! [`crate::parser::parse`] — of the executable parser as well.
use vstd::prelude::*;
use crate::classify::spec_is_closed_paren;
use crate::classify::spec_is_number;
use crate::classify::spec_is_open_paren;
use crate::classify::spec_is_quote;
use crate::classify::spec_is_whitespace;
use crate::classify::CharClass;
use crate::grammar::digit_run;
use crate::grammar::digits_value;
use crate::grammar::float_len;
use crate::grammar::float_shape;
use crate::grammar::lemma_run_chars;
use crate::grammar::lemma_run_is;
use crate::grammar::lemma_run_le_len;
use crate::grammar::nonquote_run;
use crate::grammar::nonws_run;
use crate::grammar::parse_elems;
use crate::grammar::parse_value;
use crate::grammar::run_count;
use crate::grammar::sat_i64;
use crate::grammar::skip_ws;
use crate::grammar::spec_parse;
use crate::grammar::ws_run;
use crate::grammar::ErrorModel;
use crate::grammar::ValueModel;

verus! {

/// Law: every line made of decimal digits alone parses to the integer those
/// digits denote (digit sequences beyond the host integer width are outside
/// this statement: they parse to the saturated value instead).
pub proof fn lemma_parse_integer(s: Seq<char>)
    requires
        s.len() > 0,
        forall|i: int| 0 <= i < s.len() ==> spec_is_number(#[trigger] s[i]),
        digits_value(s) <= i64::MAX,
    ensures
        spec_parse(s) == Ok::<ValueModel, ErrorModel>(ValueModel::Integer(digits_value(s))),
{
    let pw = CharClass::Whitespace.as_pred();
    let pd = CharClass::Number.as_pred();
    lemma_run_is(s, pw, 0);
    assert(skip_ws(s) =~= s);
    lemma_run_is(s, pd, s.len() as int);
    assert(!float_shape(s));
    assert(s.take(digit_run(s) as int) =~= s);
    let rest = s.skip(digit_run(s) as int);
    assert(rest =~= Seq::<char>::empty());
    lemma_run_is(rest, pw, 0);
    assert(skip_ws(rest) =~= Seq::<char>::empty());
    crate::grammar::lemma_digits_value_nonneg(s);
    assert(sat_i64(digits_value(s)) == digits_value(s));
}

/// Law: every line `d1.d2` with nonempty digit runs on both sides of the
/// period parses to the decimal number with exactly that lexeme.
pub proof fn lemma_parse_float(d1: Seq<char>, d2: Seq<char>)
    requires
        d1.len() > 0,
        d2.len() > 0,
        forall|i: int| 0 <= i < d1.len() ==> spec_is_number(#[trigger] d1[i]),
        forall|i: int| 0 <= i < d2.len() ==> spec_is_number(#[trigger] d2[i]),
    ensures
        spec_parse(d1 + seq!['.'] + d2) == Ok::<ValueModel, ErrorModel>(
            ValueModel::Float(d1 + seq!['.'] + d2),
        ),
{
    let s = d1 + seq!['.'] + d2;
    let pw = CharClass::Whitespace.as_pred();
    let pd = CharClass::Number.as_pred();
    assert(s[0] == d1[0]);
    lemma_run_is(s, pw, 0);
    assert(skip_ws(s) =~= s);
    assert forall|i: int| 0 <= i < d1.len() implies pd(#[trigger] s[i]) by {
        assert(s[i] == d1[i]);
    }
    assert(s[d1.len() as int] == '.');
    lemma_run_is(s, pd, d1.len() as int);
    let f = s.skip(d1.len() as int + 1);
    assert(f =~= d2);
    lemma_run_is(d2, pd, d2.len() as int);
    assert(float_shape(s));
    assert(float_len(s) == s.len());
    assert(s.take(float_len(s) as int) =~= s);
    let rest = s.skip(float_len(s) as int);
    assert(rest =~= Seq::<char>::empty());
    lemma_run_is(rest, pw, 0);
    assert(skip_ws(rest) =~= Seq::<char>::empty());
}

/// Law: every line of non-whitespace characters whose first character opens
/// neither a string, a list, nor a number parses to the symbol with exactly
/// that text — arbitrary non-whitespace characters are welcome in symbols.
pub proof fn lemma_parse_symbol(s: Seq<char>)
    requires
        s.len() > 0,
        forall|i: int| 0 <= i < s.len() ==> !spec_is_whitespace(#[trigger] s[i]),
        !spec_is_quote(s[0]),
        !spec_is_open_paren(s[0]),
        !spec_is_number(s[0]),
    ensures
        spec_parse(s) == Ok::<ValueModel, ErrorModel>(ValueModel::Symbol(s)),
{
    let pw = CharClass::Whitespace.as_pred();
    let pn = CharClass::NonWhitespace.as_pred();
    lemma_run_is(s, pw, 0);
    assert(skip_ws(s) =~= s);
    lemma_run_is(s, pn, s.len() as int);
    assert(s.take(nonws_run(s) as int) =~= s);
    let rest = s.skip(nonws_run(s) as int);
    assert(rest =~= Seq::<char>::empty());
    lemma_run_is(rest, pw, 0);
    assert(skip_ws(rest) =~= Seq::<char>::empty());
}

/// A run into an appended tail is the original run, provided the run ended
/// before the tail or the tail starts with a character outside the class.
proof fn lemma_run_append_stops(y: Seq<char>, w: Seq<char>, p: spec_fn(char) -> bool)
    requires
        run_count(y, p) == y.len() ==> (w.len() == 0 || !p(w[0])),
    ensures
        run_count(y + w, p) == run_count(y, p),
{
    lemma_run_chars(y, p);
    let r = run_count(y, p) as int;
    assert forall|i: int| 0 <= i < r implies p(#[trigger] (y + w)[i]) by {
        assert((y + w)[i] == y[i]);
    }
    if r < (y + w).len() {
        if r < y.len() {
            assert((y + w)[r] == y[r]);
        } else {
            assert((y + w)[r] == w[0]);
        }
    }
    lemma_run_is(y + w, p, r);
}

/// Prepending whitespace does not change what whitespace skipping leaves.
proof fn lemma_skip_ws_prepend(w: Seq<char>, y: Seq<char>)
    requires
        forall|i: int| 0 <= i < w.len() ==> spec_is_whitespace(#[trigger] w[i]),
    ensures
        skip_ws(w + y) == skip_ws(y),
{
    let p = CharClass::Whitespace.as_pred();
    lemma_run_chars(y, p);
    let r = ws_run(y) as int;
    assert forall|i: int| 0 <= i < w.len() + r implies p(#[trigger] (w + y)[i]) by {
        if i < w.len() {
            assert((w + y)[i] == w[i]);
        } else {
            assert((w + y)[i] == y[i - w.len()]);
        }
    }
    if w.len() + r < (w + y).len() {
        assert((w + y)[w.len() + r] == y[r]);
    }
    lemma_run_is(w + y, p, w.len() + r);
    assert((w + y).skip(w.len() + r) =~= y.skip(r));
}

/// Appending whitespace to a line either rides along after the skipped
/// remainder, or vanishes with it when nothing remained.
proof fn lemma_skip_ws_append(y: Seq<char>, w: Seq<char>)
    requires
        forall|i: int| 0 <= i < w.len() ==> spec_is_whitespace(#[trigger] w[i]),
    ensures
        skip_ws(y + w) == if skip_ws(y).len() == 0 {
            Seq::<char>::empty()
        } else {
            skip_ws(y) + w
        },
{
    let p = CharClass::Whitespace.as_pred();
    lemma_run_chars(y, p);
    let r = ws_run(y) as int;
    if r < y.len() {
        lemma_run_append_stops(y, w, p);
        assert((y + w).skip(r) =~= y.skip(r) + w);
    } else {
        assert forall|i: int| 0 <= i < y.len() + w.len() implies p(#[trigger] (y + w)[i]) by {
            if i < y.len() {
                assert((y + w)[i] == y[i]);
            } else {
                assert((y + w)[i] == w[i - y.len()]);
            }
        }
        lemma_run_is(y + w, p, y.len() as int + w.len() as int);
        assert((y + w).skip(y.len() as int + w.len() as int) =~= Seq::<char>::empty());
        assert(y.skip(r) =~= Seq::<char>::empty());
    }
}

/// Parsing one value ignores whitespace appended after the line: the value
/// is the same and the appended whitespace merely rides along in (or
/// vanishes with) the remainder.
proof fn lemma_parse_value_pad(x: Seq<char>, w: Seq<char>)
    requires
        forall|i: int| 0 <= i < w.len() ==> spec_is_whitespace(#[trigger] w[i]),
        parse_value(x) is Ok,
    ensures
        parse_value(x + w) == Ok::<(ValueModel, Seq<char>), ErrorModel>(
            (
                parse_value(x)->Ok_0.0,
                if parse_value(x)->Ok_0.1.len() == 0 {
                    Seq::<char>::empty()
                } else {
                    parse_value(x)->Ok_0.1 + w
                },
            ),
        ),
    decreases x.len(), 0int,
{
    let pw = CharClass::Whitespace.as_pred();
    let pd = CharClass::Number.as_pred();
    let pq = CharClass::NotQuote.as_pred();
    let pn = CharClass::NonWhitespace.as_pred();
    let t = skip_ws(x);
    lemma_run_le_len(x, pw);
    lemma_skip_ws_append(x, w);
    let tw = skip_ws(x + w);
    assert(t.len() > 0);
    assert(tw == t + w);
    assert(tw[0] == t[0]);
    if spec_is_quote(t[0]) {
        let b = nonquote_run(t.skip(1)) as int;
        assert(b > 0 && 1 + b < t.len());
        lemma_run_chars(t.skip(1), pq);
        assert(tw.skip(1) =~= t.skip(1) + w);
        lemma_run_append_stops(t.skip(1), w, pq);
        assert(nonquote_run(tw.skip(1)) == b);
        assert(1 + b < tw.len());
        assert(tw.subrange(1, 1 + b) =~= t.subrange(1, 1 + b));
        assert(tw.skip(2 + b) =~= t.skip(2 + b) + w);
        lemma_skip_ws_append(t.skip(2 + b), w);
    } else if spec_is_open_paren(t[0]) {
        match parse_elems(t.skip(1)) {
            Err(_) => {
                assert(false);
            },
            Ok((vs, r)) => {
                assert(r.len() > 0 && spec_is_closed_paren(r[0]));
                assert(tw.skip(1) =~= t.skip(1) + w);
                lemma_run_le_len(t.skip(1), pw);
                lemma_parse_elems_pad(t.skip(1), w);
                assert((r + w)[0] == r[0]);
                assert((r + w).skip(1) =~= r.skip(1) + w);
                lemma_skip_ws_append(r.skip(1), w);
            },
        }
    } else if spec_is_number(t[0]) {
        lemma_run_chars(t, pd);
        let d1 = digit_run(t) as int;
        lemma_run_append_stops(t, w, pd);
        assert(digit_run(tw) == d1);
        if float_shape(t) {
            assert(tw[d1] == t[d1]);
            let f = t.skip(d1 + 1);
            lemma_run_chars(f, pd);
            assert(tw.skip(d1 + 1) =~= f + w);
            lemma_run_append_stops(f, w, pd);
            assert(float_shape(tw));
            assert(float_len(tw) == float_len(t));
            let fl = float_len(t) as int;
            lemma_run_le_len(f.skip(1), pd);
            assert(fl <= t.len());
            assert(tw.take(fl) =~= t.take(fl));
            assert(tw.skip(fl) =~= t.skip(fl) + w);
            lemma_skip_ws_append(t.skip(fl), w);
        } else {
            if d1 < t.len() {
                assert(tw[d1] == t[d1]);
            } else {
                if d1 < tw.len() {
                    assert(tw[d1] == w[0]);
                }
            }
            if float_shape(tw) {
                let fw = tw.skip(d1 + 1);
                lemma_run_chars(fw, pd);
                if d1 + 1 <= t.len() {
                    assert(fw =~= t.skip(d1 + 1) + w);
                    lemma_run_append_stops(t.skip(d1 + 1), w, pd);
                    assert(digit_run(fw) == digit_run(t.skip(d1 + 1)));
                }
                assert(false);
            }
            assert(tw.take(d1) =~= t.take(d1));
            assert(tw.skip(d1) =~= t.skip(d1) + w);
            lemma_skip_ws_append(t.skip(d1), w);
        }
    } else {
        lemma_run_chars(t, pn);
        let n = nonws_run(t) as int;
        lemma_run_append_stops(t, w, pn);
        assert(nonws_run(tw) == n);
        assert(tw.take(n) =~= t.take(n));
        assert(tw.skip(n) =~= t.skip(n) + w);
        lemma_skip_ws_append(t.skip(n), w);
    }
}

/// Parsing the elements of a list ignores whitespace appended after the
/// closing parenthesis they stop at.
proof fn lemma_parse_elems_pad(x: Seq<char>, w: Seq<char>)
    requires
        forall|i: int| 0 <= i < w.len() ==> spec_is_whitespace(#[trigger] w[i]),
        parse_elems(x) is Ok,
        parse_elems(x)->Ok_0.1.len() > 0,
    ensures
        parse_elems(x + w) == Ok::<(Seq<ValueModel>, Seq<char>), ErrorModel>(
            (parse_elems(x)->Ok_0.0, parse_elems(x)->Ok_0.1 + w),
        ),
    decreases x.len(), 1int,
{
    if x.len() == 0 {
        assert(false);
    } else if spec_is_closed_paren(x[0]) {
        assert((x + w)[0] == x[0]);
        assert(x + w =~= parse_elems(x)->Ok_0.1 + w);
    } else {
        assert((x + w)[0] == x[0]);
        match parse_value(x) {
            Err(_) => {
                assert(false);
            },
            Ok((v, rv)) => {
                assert(rv.len() < x.len());
                lemma_parse_value_pad(x, w);
                if rv.len() == 0 {
                    assert(parse_elems(rv) == Ok::<(Seq<ValueModel>, Seq<char>), ErrorModel>(
                        (Seq::empty(), rv),
                    ));
                    assert(false);
                }
                lemma_parse_elems_pad(rv, w);
            },
        }
    }
}

/// Law: whitespace runs of any length and kind around a line that parses
/// are insignificant — the surrounded line parses to the very same tree.
pub proof fn lemma_parse_padded(w1: Seq<char>, s: Seq<char>, w2: Seq<char>)
    requires
        forall|i: int| 0 <= i < w1.len() ==> spec_is_whitespace(#[trigger] w1[i]),
        forall|i: int| 0 <= i < w2.len() ==> spec_is_whitespace(#[trigger] w2[i]),
        spec_parse(s) is Ok,
    ensures
        spec_parse(w1 + s + w2) == spec_parse(s),
{
    match parse_value(s) {
        Err(_) => {
            assert(false);
        },
        Ok((m, rest)) => {
            assert(rest.len() == 0);
            lemma_parse_value_pad(s, w2);
            assert(parse_value(s + w2) == Ok::<(ValueModel, Seq<char>), ErrorModel>(
                (m, Seq::<char>::empty()),
            ));
            lemma_skip_ws_prepend(w1, s + w2);
            lemma_parse_value_same_skip(w1 + (s + w2), s + w2);
            assert(w1 + s + w2 =~= w1 + (s + w2));
            assert(spec_parse(w1 + s + w2) == Ok::<ValueModel, ErrorModel>(m));
        },
    }
}

/// Two lines with the same text after leading whitespace parse to the same
/// value and remainder.
proof fn lemma_parse_value_same_skip(a: Seq<char>, b: Seq<char>)
    requires
        skip_ws(a) == skip_ws(b),
    ensures
        parse_value(a) == parse_value(b),
{
}

/// The elements of a list never stop later than where they started: a
/// successful element parse leaves at most what it was given.
proof fn lemma_parse_elems_no_grow(x: Seq<char>)
    requires
        parse_elems(x) is Ok,
    ensures
        parse_elems(x)->Ok_0.1.len() <= x.len(),
    decreases x.len(),
{
    if x.len() == 0 {
    } else if spec_is_closed_paren(x[0]) {
    } else {
        match parse_value(x) {
            Err(_) => {},
            Ok((v, r)) => {
                if r.len() < x.len() {
                    lemma_parse_elems_no_grow(r);
                }
            },
        }
    }
}

/// A successfully parsed value consumes at least one character.
proof fn lemma_parse_value_consumes(x: Seq<char>)
    requires
        parse_value(x) is Ok,
    ensures
        parse_value(x)->Ok_0.1.len() < x.len(),
{
    let pw = CharClass::Whitespace.as_pred();
    lemma_run_le_len(x, pw);
    crate::grammar::lemma_skip_ws_no_leading_ws(x);
    let t = skip_ws(x);
    if t.len() == 0 {
    } else if spec_is_quote(t[0]) {
        let b = nonquote_run(t.skip(1)) as int;
        lemma_run_le_len(t.skip(2 + b), pw);
    } else if spec_is_open_paren(t[0]) {
        match parse_elems(t.skip(1)) {
            Err(_) => {},
            Ok((vs, r)) => {
                lemma_parse_elems_no_grow(t.skip(1));
                lemma_run_le_len(r.skip(1), pw);
            },
        }
    } else if spec_is_number(t[0]) {
        crate::grammar::lemma_run_unfold(t, CharClass::Number.as_pred());
        let d1 = digit_run(t) as int;
        if float_shape(t) {
            lemma_run_le_len(t.skip(d1 + 1), CharClass::Number.as_pred());
            let fl = float_len(t) as int;
            lemma_run_le_len(t.skip(fl), pw);
        } else {
            lemma_run_le_len(t, CharClass::Number.as_pred());
            lemma_run_le_len(t.skip(d1), pw);
        }
    } else {
        crate::grammar::lemma_run_unfold(t, CharClass::NonWhitespace.as_pred());
        let n = nonws_run(t) as int;
        lemma_run_le_len(t, CharClass::NonWhitespace.as_pred());
        lemma_run_le_len(t.skip(n), pw);
    }
}

/// Law: whitespace runs of any length and kind in front of a list element
/// are insignificant — the elements read and the text they stop at are the
/// same.
pub proof fn lemma_parse_elems_extra_ws(w: Seq<char>, x: Seq<char>)
    requires
        forall|i: int| 0 <= i < w.len() ==> spec_is_whitespace(#[trigger] w[i]),
        x.len() > 0,
        !spec_is_whitespace(x[0]),
        !spec_is_closed_paren(x[0]),
    ensures
        parse_elems(w + x) == parse_elems(x),
{
    if w.len() == 0 {
        assert(w + x =~= x);
    } else {
        assert((w + x)[0] == w[0]);
        lemma_skip_ws_prepend(w, x);
        lemma_parse_value_same_skip(w + x, x);
        match parse_value(x) {
            Err(_) => {},
            Ok((v, r)) => {
                lemma_parse_value_consumes(x);
            },
        }
    }
}

} // verus!
