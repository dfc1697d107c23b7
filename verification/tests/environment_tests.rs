use treelox::environment::Environment;
use treelox::value::Value;

fn num(x: f64) -> Value {
    Value::Number(x.to_bits())
}

fn s(text: &str) -> Value {
    Value::String(text.as_bytes().to_vec())
}

fn name(text: &str) -> Vec<u8> {
    text.as_bytes().to_vec()
}

#[test]
fn define_then_get() {
    let mut e = Environment::new();
    e.define(&name("meaning"), num(42.0));
    assert_eq!(e.get(&name("meaning")), Some(num(42.0)));
}

#[test]
fn define_then_assign_then_get() {
    let mut e = Environment::new();
    e.define(&name("there_yet"), Value::Boolean(false));
    assert_eq!(e.get(&name("there_yet")), Some(Value::Boolean(false)));

    assert!(e.assign(&name("there_yet"), Value::Boolean(false)).is_ok());
    assert_eq!(e.get(&name("there_yet")), Some(Value::Boolean(false)));

    assert!(e.assign(&name("there_yet"), Value::Boolean(true)).is_ok());
    assert_eq!(e.get(&name("there_yet")), Some(Value::Boolean(true)));
}

#[test]
fn get_unknown() {
    let e = Environment::new();
    assert_eq!(e.get(&name("who")), None);
}

#[test]
fn assign_unknown() {
    let mut e = Environment::new();
    assert!(e.assign(&name("what"), Value::Boolean(false)).is_err());
}

#[test]
fn get_outer() {
    let mut e = Environment::new();
    e.define(&name("a"), s("outer a"));
    let prev = e.with_enclosing();
    assert_eq!(e.get(&name("a")), Some(s("outer a")));
    e.set_current(prev);
}

#[test]
fn assign_outer() {
    let mut e = Environment::new();
    e.define(&name("a"), s("outer a"));
    let prev = e.with_enclosing();
    e.assign(&name("a"), s("inner a")).unwrap();
    e.set_current(prev);
    assert_eq!(e.get(&name("a")), Some(s("inner a")));
}

#[test]
fn define_inner() {
    let mut e = Environment::new();
    e.define(&name("a"), s("outer a"));
    let prev = e.with_enclosing();
    e.define(&name("a"), s("inner a"));
    assert_eq!(e.get(&name("a")), Some(s("inner a")));
    e.set_current(prev);
    assert_eq!(e.get(&name("a")), Some(s("outer a")));
}
