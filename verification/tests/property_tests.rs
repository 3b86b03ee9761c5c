use rusty::classify::is_number;
use rusty::classify::is_whitespace_char;
use rusty::parser::assert_parse_err;
use rusty::parser::digits_to_i64;
use rusty::parser::parse;
use rusty::render::int_to_string;
use rusty::render::render;
use rusty::value::ParseError;
use rusty::value::Value;

#[test]
fn integer_value_and_canonical_render() {
    // Leading zeros are elided when the parsed integer renders back.
    assert_eq!(parse("007").unwrap(), Value::Integer(7));
    assert_eq!("7", render(&parse("007").unwrap()));
    assert_eq!("42", render(&parse("42").unwrap()));
    assert_eq!("0", render(&parse("0").unwrap()));
}

#[test]
fn integer_at_host_width_boundary() {
    assert_eq!(parse("9223372036854775807").unwrap(), Value::Integer(i64::MAX));
}

#[test]
fn integer_beyond_host_width_saturates() {
    assert_eq!(
        parse("99999999999999999999999999").unwrap(),
        Value::Integer(i64::MAX)
    );
}

#[test]
fn negative_integers_render_canonically() {
    assert_eq!("-42", int_to_string(-42));
    assert_eq!("-9223372036854775808", int_to_string(i64::MIN));
    assert_eq!("9223372036854775807", int_to_string(i64::MAX));
}

#[test]
fn float_keeps_its_exact_lexeme() {
    assert_eq!(parse("3.14").unwrap(), Value::Float("3.14".to_string()));
    assert_eq!(parse("0.5").unwrap(), Value::Float("0.5".to_string()));
}

#[test]
fn float_display_round_trip_is_lossy() {
    // The tree keeps the lexeme "42.10"; converting it to the host's binary
    // floating value and back gives the canonical "42.1", not the original
    // literal.
    let v = parse("42.10").unwrap();
    assert_eq!(v, Value::Float("42.10".to_string()));
    match v {
        Value::Float(text) => {
            let f: f64 = text.parse().unwrap();
            assert_eq!(f.to_string(), "42.1");
            assert_ne!(f.to_string(), text);
        }
        _ => panic!("expected a float"),
    }
}

#[test]
fn number_with_trailing_period_is_integer_then_trailing_input() {
    // The fractional grammar needs digits after the period; it rolls back
    // and the integer grammar succeeds, leaving the period unconsumed.
    assert!(assert_parse_err("7.", "scanner error: has more text \".\""));
}

#[test]
fn symbols_take_arbitrary_non_whitespace() {
    assert_eq!(parse("-").unwrap(), Value::Symbol("-".to_string()));
    assert_eq!(parse("a1+?").unwrap(), Value::Symbol("a1+?".to_string()));
    assert_eq!(parse("\u{00E9}l\u{00E9}ment").unwrap(), Value::Symbol("\u{00E9}l\u{00E9}ment".to_string()));
}

#[test]
fn whitespace_around_the_line_is_insignificant() {
    assert_eq!(parse("  (+ 1 2)\t\n"), parse("(+ 1 2)"));
    assert_eq!(parse("\u{2003}42\u{2003}").unwrap(), Value::Integer(42));
    assert_eq!(parse(" \u{1F47B} ").unwrap(), Value::Symbol("\u{1F47B}".to_string()));
}

#[test]
fn whitespace_between_elements_is_insignificant() {
    assert_eq!(parse("(+  1\t\t2)"), parse("(+ 1 2)"));
    assert_eq!(parse("(println\n\"foo\")"), parse("(println \"foo\")"));
    assert_eq!(parse("(+ 1   (-  2  1)  )"), parse("(+ 1 (- 2 1))"));
}

#[test]
fn empty_list_parses() {
    assert_eq!(parse("()").unwrap(), Value::List(vec![]));
    assert_eq!("()", render(&parse("()").unwrap()));
}

#[test]
fn deep_nesting_parses() {
    assert_eq!(
        parse("((((5))))").unwrap(),
        Value::List(vec![Value::List(vec![Value::List(vec![Value::List(vec![
            Value::Integer(5)
        ])])])])
    );
}

#[test]
fn symbol_swallows_an_adjacent_closing_paren() {
    // A symbol is a maximal non-whitespace run, so `x)` is one symbol and
    // the list never finds its closing parenthesis.
    assert!(assert_parse_err("(x)", "scanner error: missing closing paren"));
    assert_eq!(
        parse("(x )").unwrap(),
        Value::List(vec![Value::Symbol("x".to_string())])
    );
}

#[test]
fn whitespace_only_line_is_empty_input() {
    assert!(assert_parse_err("   ", "scanner error: out of bounds"));
    assert_eq!(parse("   "), Err(ParseError::EmptyInput));
}

#[test]
fn empty_quoted_string_is_an_error() {
    // An empty string is not a value of the notation: the body must hold at
    // least one character.
    assert_eq!(parse("\"\""), Err(ParseError::UnterminatedString));
}

#[test]
fn list_ending_in_whitespace_is_empty_input() {
    // Inside an unfinished list the input runs out where an element was
    // expected, and that failure propagates.
    assert!(assert_parse_err("( ", "scanner error: out of bounds"));
}

#[test]
fn trailing_input_is_carried_verbatim() {
    assert_eq!(
        parse("15a bc"),
        Err(ParseError::TrailingInput("a bc".to_string()))
    );
    assert_eq!(
        parse("\"foo\" y"),
        Err(ParseError::TrailingInput("y".to_string()))
    );
}

#[test]
fn error_messages_render_each_variant() {
    assert_eq!(ParseError::EmptyInput.message(), "scanner error: out of bounds");
    assert_eq!(
        ParseError::UnterminatedList.message(),
        "scanner error: missing closing paren"
    );
    assert_eq!(
        ParseError::UnterminatedString.message(),
        "scanner error: missing closing quote"
    );
    assert_eq!(
        ParseError::TrailingInput("a".to_string()).message(),
        "scanner error: has more text \"a\""
    );
}

#[test]
fn classifier_predicates_match_their_classes() {
    assert!(is_number('0') && is_number('9') && !is_number('a'));
    assert!(is_whitespace_char(' ') && is_whitespace_char('\t') && is_whitespace_char('\u{2003}'));
    assert!(!is_whitespace_char('x') && !is_whitespace_char('('));
}

#[test]
fn digit_conversion_saturates() {
    assert_eq!(digits_to_i64("123"), 123);
    assert_eq!(digits_to_i64("9223372036854775807"), i64::MAX);
    assert_eq!(digits_to_i64("9223372036854775808"), i64::MAX);
}

#[test]
fn strings_pass_whitespace_and_structure_through_verbatim() {
    assert_eq!(
        parse("\"a ( b ) 1.5\"").unwrap(),
        Value::Text("a ( b ) 1.5".to_string())
    );
}
