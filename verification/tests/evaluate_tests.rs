use treelox::ast::{Expr, Location, Stmt};
use treelox::environment::Environment;
use treelox::error::Error;
use treelox::interpreter::evaluate;
use treelox::lexer::lex;
use treelox::parser::{parse_expression, parse_statement};
use treelox::value::Value;

fn parse_string(source: &str) -> Result<Expr, Error> {
    let bytes: Vec<u8> = source.as_bytes().to_vec();
    let tokens = lex(&bytes).map_err(Error::Parse)?;
    parse_expression(&tokens).map_err(Error::Parse)
}

fn evaluate_string(source: &str) -> Result<Value, Error> {
    let result = parse_string(source);
    let mut environment = Environment::new();
    result.and_then(|expr| evaluate(&expr, &mut environment))
}

fn num(x: f64) -> Value {
    Value::Number(x.to_bits())
}

#[test]
fn literal_number() {
    assert_eq!(Ok(num(123.0)), evaluate_string("123"));
}

#[test]
fn paren_number() {
    assert_eq!(Ok(num(123.0)), evaluate_string("(123)"));
}

#[test]
fn paren_imbalanced() {
    assert!(parse_string("(123").is_err());
}

#[test]
fn paren_empty() {
    assert!(parse_string("()").is_err());
}

#[test]
fn negate_number() {
    assert_eq!(Ok(num(-123.0)), evaluate_string("-123"));
}

#[test]
fn simple_addition() {
    assert_eq!(Ok(num(1234.0 + 67.0)), evaluate_string("1234 + 67"));
}

#[test]
fn repeated_addition() {
    assert_eq!(Ok(num(6.0)), evaluate_string("1 + 2 + 3"));
}

#[test]
fn simple_subtraction() {
    assert_eq!(Ok(num(1200.0)), evaluate_string("1234 - 34"));
}

#[test]
fn repeated_subtraction() {
    assert_eq!(Ok(num(4.0)), evaluate_string("9 - 4 - 1"));
}

#[test]
fn mul_div() {
    assert_eq!(Ok(num(12.0)), evaluate_string("9 * 4 / 3"));
}

#[test]
fn div_precedence() {
    assert_eq!(Ok(num(18.5)), evaluate_string("17 - 5 / 2 + 4"));
}

#[test]
fn mul_nil() {
    assert!(evaluate_string("nil * nil").is_err());
}

#[test]
fn cmp_lt() {
    assert_eq!(evaluate_string("1 < 2"), Ok(Value::Boolean(true)));
    assert_eq!(evaluate_string("2 < 1"), Ok(Value::Boolean(false)));
}

#[test]
fn cmp_le() {
    assert_eq!(evaluate_string("1 <= 2"), Ok(Value::Boolean(true)));
    assert_eq!(evaluate_string("2 <= 2"), Ok(Value::Boolean(true)));
    assert_eq!(evaluate_string("2 <= 1"), Ok(Value::Boolean(false)));
}

#[test]
fn cmp_gt() {
    assert_eq!(evaluate_string("2 > 1"), Ok(Value::Boolean(true)));
    assert_eq!(evaluate_string("1 > 2"), Ok(Value::Boolean(false)));
}

#[test]
fn cmp_ge() {
    assert_eq!(evaluate_string("2 >= 1"), Ok(Value::Boolean(true)));
    assert_eq!(evaluate_string("2 >= 2"), Ok(Value::Boolean(true)));
    assert_eq!(evaluate_string("1 >= 2"), Ok(Value::Boolean(false)));
}

#[test]
fn cmp_eq() {
    assert_eq!(evaluate_string("2 != 1"), Ok(Value::Boolean(true)));
    assert_eq!(evaluate_string("2 == 2"), Ok(Value::Boolean(true)));
    assert_eq!(evaluate_string("(1 + 1) == 2"), Ok(Value::Boolean(true)));
}

#[test]
fn simple_bool() {
    assert_eq!(evaluate_string("true"), Ok(Value::Boolean(true)));
    assert_eq!(evaluate_string("false"), Ok(Value::Boolean(false)));
}

#[test]
fn negate_bool() {
    assert_eq!(evaluate_string("!true"), Ok(Value::Boolean(false)));
    assert_eq!(evaluate_string("!false"), Ok(Value::Boolean(true)));
}

#[test]
fn double_negate_bool() {
    assert_eq!(evaluate_string("!!true"), Ok(Value::Boolean(true)));
    assert_eq!(evaluate_string("!!(1 == 2)"), Ok(Value::Boolean(false)));
}

#[test]
fn string_literal() {
    assert_eq!(
        evaluate_string(r#""Hello World!""#),
        Ok(Value::String(b"Hello World!".to_vec()))
    );
}

#[test]
fn empty_string_literal() {
    assert_eq!(evaluate_string(r#""""#), Ok(Value::String(Vec::new())));
}

#[test]
fn print_hello() {
    let bytes: Vec<u8> = br#"print "Hello World!";"#.to_vec();
    let tokens = lex(&bytes).unwrap();
    let parsed = parse_statement(&tokens);
    assert_eq!(
        parsed,
        Ok(Stmt::Print(Expr::String {
            value: b"Hello World!".to_vec(),
            location: Location { start: 6, end: 20 }
        }))
    );
}
