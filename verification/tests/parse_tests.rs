use rusty::parser::assert_parse_err;
use rusty::parser::parse;
use rusty::render::eval;
use rusty::render::render;
use rusty::value::Value;

#[test]
fn it_parses_atoms() {
    assert_eq!(parse("val").unwrap(), Value::Symbol("val".to_string()));
}

#[test]
fn it_parses_atom_as_operators() {
    assert_eq!(parse("+").unwrap(), Value::Symbol("+".to_string()));
}

#[test]
fn it_parses_atom_as_emoji() {
    assert_eq!(parse("\u{1F47B}").unwrap(), Value::Symbol("\u{1F47B}".to_string()));
}

#[test]
fn it_parses_strings() {
    assert_eq!(parse("\"string\"").unwrap(), Value::Text("string".to_string()));
}

#[test]
fn it_parses_numbers() {
    assert_eq!(parse("42").unwrap(), Value::Integer(42));
}

#[test]
fn it_parses_floats() {
    assert_eq!(parse("42.1").unwrap(), Value::Float("42.1".to_string()));
    assert_eq!("42.1".parse::<f64>().unwrap(), 42.1);
}

#[test]
fn it_parses_sexps() {
    assert_eq!(
        parse("(+ 1 2)").unwrap(),
        Value::List(vec![
            Value::Symbol("+".to_string()),
            Value::Integer(1),
            Value::Integer(2),
        ])
    );
    assert_eq!(
        parse("(println \"foo\")").unwrap(),
        Value::List(vec![
            Value::Symbol("println".to_string()),
            Value::Text("foo".to_string()),
        ])
    );
}

#[test]
fn it_returns_error_on_unclosed_paren() {
    assert!(assert_parse_err("(+ 1 2", "scanner error: missing closing paren"));
}

#[test]
fn it_returns_error_on_more_text() {
    assert!(assert_parse_err("15a", "scanner error: has more text \"a\""));
}

#[test]
fn it_returns_error_on_missing_quote() {
    assert!(assert_parse_err("\"foo", "scanner error: missing closing quote"));
}

#[test]
fn it_returns_error_on_empty_string() {
    assert!(assert_parse_err("", "scanner error: out of bounds"));
}

#[test]
fn it_parsers_recusively() {
    assert_eq!(
        parse("(+ 1 (- 2 1))").unwrap(),
        Value::List(vec![
            Value::Symbol("+".to_string()),
            Value::Integer(1),
            Value::List(vec![
                Value::Symbol("-".to_string()),
                Value::Integer(2),
                Value::Integer(1),
            ]),
        ])
    );
}

#[test]
fn it_evals_atoms() {
    assert_eq!("val", render(&eval(&Value::Symbol("val".to_string()))));
}

#[test]
fn it_evals_strings() {
    assert_eq!("\"foo\"", render(&eval(&Value::Text("foo".to_string()))));
}

#[test]
fn it_evals_numbers() {
    assert_eq!("42", render(&eval(&Value::Integer(42))));
}

#[test]
fn it_evals_floats() {
    let lit: f64 = 42.1;
    assert_eq!("42.1", render(&eval(&Value::Float(lit.to_string()))));
}

#[test]
fn it_evals_expressions() {
    assert_eq!(
        "(+ 1 2)",
        render(&eval(&Value::List(vec![
            Value::Symbol("+".to_string()),
            Value::Integer(1),
            Value::Integer(2),
        ])))
    );
    assert_eq!(
        "(println \"foo\")",
        render(&eval(&Value::List(vec![
            Value::Symbol("println".to_string()),
            Value::Text("foo".to_string()),
        ])))
    );
}
