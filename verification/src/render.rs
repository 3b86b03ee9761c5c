//! Rendering a value tree back to text, and the echo evaluator.
//!
//! Integers render as canonical decimal text; a decimal number renders as
//! the exact lexeme it was read from; a string renders back between quotes;
//! a list renders as its elements separated by single spaces between
//! parentheses.
use vstd::prelude::*;
use crate::grammar::ValueModel;
use crate::value::models_of;
use crate::value::Value;

verus! {

broadcast use vstd::std_specs::vec::group_vec_axioms;

/// The character for one decimal digit value.
pub open spec fn spec_digit_char(d: int) -> char {
    if d == 0 {
        '0'
    } else if d == 1 {
        '1'
    } else if d == 2 {
        '2'
    } else if d == 3 {
        '3'
    } else if d == 4 {
        '4'
    } else if d == 5 {
        '5'
    } else if d == 6 {
        '6'
    } else if d == 7 {
        '7'
    } else if d == 8 {
        '8'
    } else {
        '9'
    }
}

/// The canonical decimal digits of a nonnegative integer, most significant
/// first.
pub open spec fn spec_decimal_nat(n: int) -> Seq<char>
    decreases n,
{
    if n < 10 {
        seq![spec_digit_char(n)]
    } else {
        spec_decimal_nat(n / 10).push(spec_digit_char(n % 10))
    }
}

/// The canonical decimal text of an integer: no leading zeros, a leading
/// minus sign exactly for negative values.
pub open spec fn spec_decimal(n: int) -> Seq<char> {
    if n < 0 {
        seq!['-'] + spec_decimal_nat(-n)
    } else {
        spec_decimal_nat(n)
    }
}

/// How one value renders.
pub open spec fn render_spec(m: ValueModel) -> Seq<char>
    decreases m, 0int, 0int,
{
    match m {
        ValueModel::Integer(i) => spec_decimal(i),
        ValueModel::Float(s) => s,
        ValueModel::Symbol(s) => s,
        ValueModel::Text(s) => seq!['"'] + s + seq!['"'],
        ValueModel::List(vs) => seq!['('] + render_list_upto(vs, vs.len() as int) + seq![')'],
    }
}

/// How the first `i` elements of a list body render: elements separated by
/// one space.
pub open spec fn render_list_upto(vs: Seq<ValueModel>, i: int) -> Seq<char>
    decreases vs, 1int, i,
{
    if i <= 0 || i > vs.len() {
        Seq::empty()
    } else if i == 1 {
        render_spec(vs[0])
    } else {
        render_list_upto(vs, i - 1) + seq![' '] + render_spec(vs[i - 1])
    }
}

/// One decimal digit as text.
fn digit_str(d: u64) -> (r: &'static str)
    requires
        d < 10,
    ensures
        r@ == seq![spec_digit_char(d as int)],
{
    proof {
        reveal_strlit("0");
        reveal_strlit("1");
        reveal_strlit("2");
        reveal_strlit("3");
        reveal_strlit("4");
        reveal_strlit("5");
        reveal_strlit("6");
        reveal_strlit("7");
        reveal_strlit("8");
        reveal_strlit("9");
    }
    let r: &'static str = if d == 0 {
        "0"
    } else if d == 1 {
        "1"
    } else if d == 2 {
        "2"
    } else if d == 3 {
        "3"
    } else if d == 4 {
        "4"
    } else if d == 5 {
        "5"
    } else if d == 6 {
        "6"
    } else if d == 7 {
        "7"
    } else if d == 8 {
        "8"
    } else {
        "9"
    };
    proof {
        assert(r@ =~= seq![spec_digit_char(d as int)]);
    }
    r
}

/// Renders an integer as canonical decimal text.
pub fn int_to_string(n: i64) -> (r: String)
    ensures
        r@ == spec_decimal(n as int),
{
    let neg = n < 0;
    let ghost n0 = n as int;
    let mut mag: u64 = if n < 0 {
        ((-(n + 1)) as u64) + 1
    } else {
        n as u64
    };
    let ghost mag0 = mag as int;
    proof {
        assert(mag0 == if n0 < 0 {
            -n0
        } else {
            n0
        });
    }
    let mut digs: Vec<u64> = Vec::new();
    loop
        invariant_except_break
            spec_decimal_nat(mag0) == spec_decimal_nat(mag as int) + Seq::new(
                digs@.len(),
                |k: int| spec_digit_char(digs@[digs@.len() - 1 - k] as int),
            ),
        invariant
            mag as int >= 0,
            forall|k: int| 0 <= k < digs@.len() ==> #[trigger] digs@[k] < 10,
        ensures
            forall|k: int| 0 <= k < digs@.len() ==> #[trigger] digs@[k] < 10,
            digs@.len() > 0,
            spec_decimal_nat(mag0) == Seq::new(
                digs@.len(),
                |k: int| spec_digit_char(digs@[digs@.len() - 1 - k] as int),
            ),
        decreases mag,
    {
        proof {
            assert(spec_decimal_nat(mag0) == spec_decimal_nat(mag as int) + Seq::new(
                digs@.len(),
                |k: int| spec_digit_char(digs@[digs@.len() - 1 - k] as int),
            ));
        }
        let d = mag % 10;
        let ghost before = digs@;
        digs.push(d);
        proof {
            let after = digs@;
            if mag >= 10 {
                assert(spec_decimal_nat(mag as int) == spec_decimal_nat(mag as int / 10).push(
                    spec_digit_char(mag as int % 10),
                ));
                assert(spec_decimal_nat(mag as int / 10) + Seq::new(
                    after.len(),
                    |k: int| spec_digit_char(after[after.len() - 1 - k] as int),
                ) =~= spec_decimal_nat(mag as int) + Seq::new(
                    before.len(),
                    |k: int| spec_digit_char(before[before.len() - 1 - k] as int),
                ));
            } else {
                assert(spec_decimal_nat(mag as int) == seq![spec_digit_char(mag as int)]);
                assert(Seq::new(
                    after.len(),
                    |k: int| spec_digit_char(after[after.len() - 1 - k] as int),
                ) =~= spec_decimal_nat(mag as int) + Seq::new(
                    before.len(),
                    |k: int| spec_digit_char(before[before.len() - 1 - k] as int),
                ));
            }
        }
        if mag < 10 {
            break ;
        }
        mag = mag / 10;
    }
    let mut r = String::new();
    if neg {
        r.append("-");
        proof {
            reveal_strlit("-");
            assert(r@ =~= seq!['-']);
        }
    }
    let ghost head = r@;
    let mut i: usize = digs.len();
    while i > 0
        invariant
            i <= digs@.len(),
            forall|k: int| 0 <= k < digs@.len() ==> #[trigger] digs@[k] < 10,
            r@ == head + Seq::new(
                (digs@.len() - i) as nat,
                |k: int| spec_digit_char(digs@[digs@.len() - 1 - k] as int),
            ),
        decreases i,
    {
        i = i - 1;
        let ghost before_r = r@;
        r.append(digit_str(digs[i]));
        proof {
            assert(r@ =~= head + Seq::new(
                (digs@.len() - i) as nat,
                |k: int| spec_digit_char(digs@[digs@.len() - 1 - k] as int),
            ));
        }
    }
    proof {
        assert(Seq::new(
            digs@.len(),
            |k: int| spec_digit_char(digs@[digs@.len() - 1 - k] as int),
        ) == spec_decimal_nat(mag0));
        if n0 < 0 {
            assert(r@ == seq!['-'] + spec_decimal_nat(-n0));
        } else {
            assert(head =~= Seq::<char>::empty());
            assert(r@ =~= spec_decimal_nat(n0));
        }
    }
    r
}

/// Renders a value tree back to one line of text.
#[verifier::loop_isolation(false)]
pub fn render(v: &Value) -> (r: String)
    ensures
        r@ == render_spec(v.model()),
    decreases *v, 0int, 0int,
{
    match v {
        Value::Integer(i) => int_to_string(*i),
        Value::Float(s) => s.clone(),
        Value::Symbol(s) => s.clone(),
        Value::Text(s) => {
            let mut r = String::from_str("\"");
            r.append(s.as_str());
            r.append("\"");
            proof {
                reveal_strlit("\"");
                assert(r@ =~= seq!['"'] + s@ + seq!['"']);
            }
            r
        },
        Value::List(es) => {
            let ghost vs = models_of(es@);
            let mut r = String::from_str("(");
            proof {
                reveal_strlit("(");
                assert(r@ =~= seq!['(']);
                assert(r@ =~= seq!['('] + render_list_upto(vs, 0));
            }
            let mut i: usize = 0;
            while i < es.len()
                invariant
                    i <= es@.len(),
                    vs == models_of(es@),
                    vs.len() == es@.len(),
                    r@ == seq!['('] + render_list_upto(vs, i as int),
                decreases es@.len() - i,
            {
                if i > 0 {
                    r.append(" ");
                    proof {
                        reveal_strlit(" ");
                    }
                }
                let elem = render(&es[i]);
                r.append(elem.as_str());
                proof {
                    assert(es@[i as int].model() == vs[i as int]);
                    if i == 0 {
                        assert(render_list_upto(vs, 1) == render_spec(vs[0]));
                        assert(r@ =~= seq!['('] + render_list_upto(vs, 1));
                    } else {
                        assert(render_list_upto(vs, i as int + 1) == render_list_upto(vs, i as int)
                            + seq![' '] + render_spec(vs[i as int]));
                        assert(r@ =~= seq!['('] + render_list_upto(vs, i as int + 1));
                    }
                }
                i = i + 1;
            }
            r.append(")");
            proof {
                reveal_strlit(")");
                assert(r@ =~= seq!['('] + render_list_upto(vs, vs.len() as int) + seq![')']);
            }
            r
        },
    }
}

/// The evaluator of this language: every value evaluates to itself, so the
/// result is a structurally equal copy of the input.
#[verifier::loop_isolation(false)]
pub fn eval(l: &Value) -> (r: Value)
    ensures
        r.model() == l.model(),
    decreases *l, 0int, 0int,
{
    match l {
        Value::Integer(i) => Value::Integer(*i),
        Value::Float(s) => Value::Float(s.clone()),
        Value::Symbol(s) => Value::Symbol(s.clone()),
        Value::Text(s) => Value::Text(s.clone()),
        Value::List(es) => {
            let mut out: Vec<Value> = Vec::new();
            let mut i: usize = 0;
            while i < es.len()
                invariant
                    i <= es@.len(),
                    out@.len() == i as nat,
                    forall|k: int|
                        0 <= k < i ==> (#[trigger] out@[k].model()) == es@[k].model(),
                decreases es@.len() - i,
            {
                let elem = eval(&es[i]);
                out.push(elem);
                i = i + 1;
            }
            proof {
                assert(out@.len() == es@.len());
                assert forall|k: int| 0 <= k < es@.len() implies models_of(out@)[k] == models_of(
                    es@,
                )[k] by {
                    assert(out@[k].model() == es@[k].model());
                }
                assert(models_of(out@) =~= models_of(es@));
            }
            Value::List(out)
        },
    }
}

} // verus!
