use treelox::ast::Location;
use treelox::bindings::register_globals;
use treelox::environment::Environment;
use treelox::error::{expected_one_of, Error, ParseError, RuntimeError};
use treelox::interpreter::{interpret_source, interpret_statements, Lookup};
use treelox::lexer::lex;
use treelox::parser::parse_program;
use treelox::value::{print_repr, Value};

fn run(source: &str) -> (Vec<Vec<u8>>, Result<(), Error>) {
    let mut environment = Environment::new();
    let result = interpret_source(source, &mut environment);
    (environment.output, result)
}

fn run_dynamic(source: &str) -> (Vec<Vec<u8>>, Result<(), Error>) {
    let bytes: Vec<u8> = source.as_bytes().to_vec();
    let tokens = lex(&bytes).unwrap();
    let program = parse_program(&tokens).unwrap();
    let mut environment = Environment::new();
    let result = interpret_statements(&program, &mut environment, &Lookup::Dynamic, u64::MAX);
    (environment.output, result)
}

fn lines(items: &[&str]) -> Vec<Vec<u8>> {
    items.iter().map(|s| s.as_bytes().to_vec()).collect()
}

#[test]
fn print_arithmetic() {
    let (output, result) = run("print 1+2*3;");
    assert!(result.is_ok());
    assert_eq!(output, lines(&["7"]));
}

#[test]
fn print_string_concat() {
    let (output, result) = run(r#"var a = "Hi"; var b = "!"; print a + " World" + b;"#);
    assert!(result.is_ok());
    assert_eq!(output, lines(&["Hi World!"]));
}

#[test]
fn shadowing_blocks() {
    let (output, result) =
        run(r#"var a = "g"; { var a = "o"; { var a = "i"; print a; } print a; } print a;"#);
    assert!(result.is_ok());
    assert_eq!(output, lines(&["i", "o", "g"]));
}

#[test]
fn closure_counter() {
    let (output, result) = run(
        "fun make(){ var n=0; fun inc(){ n=n+1; return n; } return inc; } \
         var f = make(); print f(); print f(); print f();",
    );
    assert!(result.is_ok());
    assert_eq!(output, lines(&["1", "2", "3"]));
}

#[test]
fn recursive_factorial() {
    let (output, result) = run("fun fact(n){ if(n<=1) return 1; return n*fact(n-1); } print fact(6);");
    assert!(result.is_ok());
    assert_eq!(output, lines(&["720"]));
}

#[test]
fn for_loop_prints() {
    let (output, result) = run("var i=0; for(i=0; i<3; i=i+1) print i;");
    assert!(result.is_ok());
    assert_eq!(output, lines(&["0", "1", "2"]));
}

#[test]
fn type_mismatch_at_right_operand() {
    let (output, result) = run(r#"print 1 + "x";"#);
    assert_eq!(output.len(), 0);
    assert_eq!(
        result,
        Err(Error::Runtime(RuntimeError::TypeMismatch {
            location: Location { start: 10, end: 13 }
        }))
    );
}

#[test]
fn identifier_not_found_at_reference() {
    let (_, result) = run("print undefined;");
    assert_eq!(
        result,
        Err(Error::Runtime(RuntimeError::IdentifierNotFound {
            name: b"undefined".to_vec(),
            location: Location { start: 6, end: 15 }
        }))
    );
}

#[test]
fn assert_failure_at_expression_span() {
    let (_, result) = run("assert 1 == 2;");
    assert_eq!(
        result,
        Err(Error::Assert { location: Location { start: 7, end: 13 } })
    );
}

#[test]
fn not_callable_at_callee_span() {
    let (_, result) = run(r#"var f = "x"; f();"#);
    assert_eq!(
        result,
        Err(Error::Runtime(RuntimeError::NotCallable {
            location: Location { start: 13, end: 14 }
        }))
    );
}

#[test]
fn arity_mismatch_at_callee_span() {
    let (_, result) = run("fun g(a,b){} g(1);");
    assert_eq!(
        result,
        Err(Error::Runtime(RuntimeError::ArityMismatch {
            expected: 2,
            actual: 1,
            location: Location { start: 13, end: 14 }
        }))
    );
}

#[test]
fn print_repr_of_literals() {
    assert_eq!(print_repr(&Value::Boolean(true)), b"true".to_vec());
    assert_eq!(print_repr(&Value::Boolean(false)), b"false".to_vec());
    assert_eq!(print_repr(&Value::Nil), b"<nil>".to_vec());
}

#[test]
fn print_repr_shortest_round_trip() {
    let (output, result) = run("print 18.5; print 0.1; print 2.5; print 100;");
    assert!(result.is_ok());
    assert_eq!(output, lines(&["18.5", "0.1", "2.5", "100"]));
}

#[test]
fn negation_matches_host_negation() {
    let mut environment = Environment::new();
    let result = interpret_source("print -123; print -2.5;", &mut environment);
    assert!(result.is_ok());
    let expected: Vec<Vec<u8>> = vec![
        format!("{}", -123.0f64).into_bytes(),
        format!("{}", -2.5f64).into_bytes(),
    ];
    assert_eq!(environment.output, expected);
}

#[test]
fn assert_passes_on_everything_but_nil_and_false() {
    assert!(run("assert 0;").1.is_ok());
    assert!(run(r#"assert "";"#).1.is_ok());
    assert!(run("assert true;").1.is_ok());
    assert!(run("assert fun(){};").1.is_ok());
    assert!(matches!(run("assert nil;").1, Err(Error::Assert { .. })));
    assert!(matches!(run("assert false;").1, Err(Error::Assert { .. })));
}

#[test]
fn inner_assignment_mutates_outer_binding() {
    let (output, result) = run(r#"var a = 1; { a = 2; } print a;"#);
    assert!(result.is_ok());
    assert_eq!(output, lines(&["2"]));
}

#[test]
fn resolved_and_dynamic_agree_without_shadowing_anomalies() {
    let programs = [
        "print 1+2*3;",
        r#"var a = "g"; { var a = "o"; { var a = "i"; print a; } print a; } print a;"#,
        "fun make(){ var n=0; fun inc(){ n=n+1; return n; } return inc; } \
         var f = make(); print f(); print f();",
        "var i=0; for(i=0; i<3; i=i+1) print i;",
    ];
    for p in programs.iter() {
        let (resolved_output, resolved_result) = run(p);
        let (dynamic_output, dynamic_result) = run_dynamic(p);
        assert!(resolved_result.is_ok());
        assert!(dynamic_result.is_ok());
        assert_eq!(resolved_output, dynamic_output);
    }
}

#[test]
fn resolved_and_dynamic_differ_on_captured_shadowing() {
    let p = r#"var a = "g"; { fun f(){ print a; } f(); var a = "b"; f(); }"#;
    let (resolved_output, resolved_result) = run(p);
    let (dynamic_output, dynamic_result) = run_dynamic(p);
    assert!(resolved_result.is_ok());
    assert!(dynamic_result.is_ok());
    assert_eq!(resolved_output, lines(&["g", "g"]));
    assert_eq!(dynamic_output, lines(&["g", "b"]));
}

#[test]
fn reading_local_in_own_initializer_is_a_resolve_error() {
    let (_, result) = run("{ var a = a; }");
    assert!(matches!(result, Err(Error::Resolve { .. })));
}

#[test]
fn parse_error_unrecognized_token() {
    let (_, result) = run("print ;");
    assert!(matches!(
        result,
        Err(Error::Parse(ParseError::UnrecognizedToken { .. }))
    ));
}

#[test]
fn parse_error_invalid_token() {
    let (_, result) = run("print @;");
    assert!(matches!(
        result,
        Err(Error::Parse(ParseError::InvalidToken { .. }))
    ));
}

#[test]
fn parse_error_unterminated_string() {
    let (_, result) = run(r#"print "abc"#);
    assert!(matches!(
        result,
        Err(Error::Parse(ParseError::UnexpectedEof { .. }))
    ));
}

#[test]
fn return_outside_function_surfaces_the_value() {
    let (_, result) = run("return 1;");
    assert_eq!(result, Err(Error::Return(Value::Number(1.0f64.to_bits()))));
}

#[test]
fn step_budget_exhaustion_is_reported() {
    let bytes: Vec<u8> = b"fun f(){} f();".to_vec();
    let tokens = lex(&bytes).unwrap();
    let program = parse_program(&tokens).unwrap();
    let mut environment = Environment::new();
    let result = interpret_statements(&program, &mut environment, &Lookup::Dynamic, 0);
    assert_eq!(result, Err(Error::StepLimit));
}

#[test]
fn clock_is_a_native_of_arity_zero() {
    let mut environment = Environment::new();
    register_globals(&mut environment);
    let ok = interpret_source("print clock() >= 0;", &mut environment);
    assert!(ok.is_ok());
    assert_eq!(environment.output, lines(&["true"]));

    let mut environment2 = Environment::new();
    register_globals(&mut environment2);
    let bad = interpret_source("clock(1);", &mut environment2);
    assert!(matches!(
        bad,
        Err(Error::Runtime(RuntimeError::ArityMismatch { expected: 0, actual: 1, .. }))
    ));
}

#[test]
fn clock_is_sampled_at_each_call() {
    let mut environment = Environment::new();
    register_globals(&mut environment);
    let ok = interpret_source(
        "var a = clock(); var b = clock(); print b >= a; print a > 0;",
        &mut environment,
    );
    assert!(ok.is_ok());
    assert_eq!(environment.output, lines(&["true", "true"]));
}

#[test]
fn print_repr_of_functions_names_them() {
    let (output, result) = run("fun g(a,b){} print g;");
    assert!(result.is_ok());
    assert_eq!(output, lines(&["<fun g (user)>"]));
}

#[test]
fn division_by_zero_follows_ieee() {
    let (output, result) = run("print 1/0; print -1/0; print 0/0;");
    assert!(result.is_ok());
    let expected: Vec<Vec<u8>> = vec![
        format!("{}", 1.0f64 / 0.0f64).into_bytes(),
        format!("{}", -1.0f64 / 0.0f64).into_bytes(),
        format!("{}", 0.0f64 / 0.0f64).into_bytes(),
    ];
    assert_eq!(output, expected);
}

#[test]
fn equality_across_variants_is_false() {
    let (output, result) = run(r#"print 1 == "1"; print nil == false; print 1 != "1";"#);
    assert!(result.is_ok());
    assert_eq!(output, lines(&["false", "false", "true"]));
}

#[test]
fn expected_one_of_renders_notes() {
    let one = expected_one_of(&vec![b";".to_vec()]);
    assert_eq!(one, vec![b"expected ;".to_vec()]);
    let many = expected_one_of(&vec![b"a".to_vec(), b"b".to_vec(), b"c".to_vec()]);
    assert_eq!(many, vec![b"expected one of a, b, c".to_vec()]);
}

#[test]
fn assignment_evaluates_to_the_assigned_value() {
    let (output, result) = run("var a = 0; var b = 0; a = b = 42; print a; print b;");
    assert!(result.is_ok());
    assert_eq!(output, lines(&["42", "42"]));
}

#[test]
fn while_loop_with_return_inside_function() {
    let (output, result) = run(
        "fun first(){ var i = 0; while (i < 10) { if (i == 3) return i; i = i + 1; } return -1; } \
         print first();",
    );
    assert!(result.is_ok());
    assert_eq!(output, lines(&["3"]));
}

#[test]
fn if_condition_must_be_boolean() {
    let (_, result) = run("if (1) print 1;");
    assert!(matches!(
        result,
        Err(Error::Runtime(RuntimeError::TypeMismatch { .. }))
    ));
}

#[test]
fn modulo_operator_matches_host_remainder() {
    let (output, result) = run("print 7 % 3; print 7.5 % 2;");
    assert!(result.is_ok());
    let expected: Vec<Vec<u8>> = vec![
        format!("{}", 7.0f64 % 3.0f64).into_bytes(),
        format!("{}", 7.5f64 % 2.0f64).into_bytes(),
    ];
    assert_eq!(output, expected);
}

#[test]
fn anonymous_function_values_print_their_offset() {
    let (output, result) = run("var f = fun(){}; print f;");
    assert!(result.is_ok());
    assert_eq!(output, lines(&["<fun <anon@8> (user)>"]));
}
