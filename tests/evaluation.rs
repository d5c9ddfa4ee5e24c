use arc::eval::{Error, Evaluator};
use arc::nodes::ParseError;
use arc::repl::Repl;
use arc::tokens::LexError;
use arc::values::Value;

fn num(a: isize, b: isize, c: isize, d: isize) -> Value {
    Value::ComplexNumber(a, b, c, d)
}

fn eval_ok(ev: &mut Evaluator, line: &str) -> Vec<Value> {
    match ev.evaluate(line.to_string()) {
        Ok(v) => v,
        Err(e) => panic!("{:?} failed: {:?}", line, e),
    }
}

#[test]
fn literal_integer() {
    let mut ev = Evaluator::new();
    assert_eq!(eval_ok(&mut ev, "3"), vec![num(3, 1, 0, 1)]);
}

#[test]
fn literal_fraction_goes_through_divide() {
    let mut ev = Evaluator::new();
    let v = eval_ok(&mut ev, "3/4");
    assert_eq!(v, vec![num(12, 16, 0, 16)]);
    // 12/16 is 3/4 once reduced
    assert_eq!(12 * 4, 3 * 16);
}

#[test]
fn decimal_literal() {
    let mut ev = Evaluator::new();
    assert_eq!(eval_ok(&mut ev, "1.25"), vec![num(125, 100, 0, 1)]);
    assert_eq!(eval_ok(&mut ev, "1_000"), vec![num(1000, 1, 0, 1)]);
}

#[test]
fn imaginary_unit() {
    let mut ev = Evaluator::new();
    assert_eq!(eval_ok(&mut ev, "i"), vec![num(0, 1, 1, 1)]);
}

#[test]
fn plus_or_minus_prefix() {
    let mut ev = Evaluator::new();
    assert_eq!(eval_ok(&mut ev, "+/-1"), vec![num(1, 1, 0, 1), num(-1, 1, 0, 1)]);
}

#[test]
fn plus_or_minus_of_zero_is_one_value() {
    let mut ev = Evaluator::new();
    assert_eq!(eval_ok(&mut ev, "+/-0"), vec![num(0, 1, 0, 1)]);
}

#[test]
fn cartesian_deduplication() {
    let mut ev = Evaluator::new();
    assert_eq!(
        eval_ok(&mut ev, "+/-1 + +/-1"),
        vec![num(2, 1, 0, 1), num(0, 1, 0, 1), num(-2, 1, 0, 1)]
    );
}

#[test]
fn infix_plus_or_minus() {
    let mut ev = Evaluator::new();
    assert_eq!(eval_ok(&mut ev, "5 +/- 1"), vec![num(6, 1, 0, 1), num(4, 1, 0, 1)]);
}

#[test]
fn definition_and_reuse() {
    let mut ev = Evaluator::new();
    assert_eq!(eval_ok(&mut ev, "x = 5"), vec![num(5, 1, 0, 1)]);
    assert_eq!(eval_ok(&mut ev, "x + 1"), vec![num(6, 1, 0, 1)]);
}

#[test]
fn definition_yields_bound_values() {
    let mut ev = Evaluator::new();
    assert_eq!(eval_ok(&mut ev, "y = (x = 5)"), vec![num(5, 1, 0, 1)]);
    assert_eq!(eval_ok(&mut ev, "y"), vec![num(5, 1, 0, 1)]);
    assert_eq!(eval_ok(&mut ev, "x"), vec![num(5, 1, 0, 1)]);
}

#[test]
fn redefinition_uses_old_value() {
    let mut ev = Evaluator::new();
    eval_ok(&mut ev, "x = 5");
    assert_eq!(eval_ok(&mut ev, "x = x + 1"), vec![num(6, 1, 0, 1)]);
    assert_eq!(eval_ok(&mut ev, "x"), vec![num(6, 1, 0, 1)]);
}

#[test]
fn curried_function_call_by_name() {
    let mut ev = Evaluator::new();
    eval_ok(&mut ev, "f x = x * 2");
    assert_eq!(eval_ok(&mut ev, "f 3"), vec![num(6, 1, 0, 1)]);
    assert_eq!(eval_ok(&mut ev, "f (1+2)"), vec![num(6, 1, 0, 1)]);
}

#[test]
fn two_argument_function() {
    let mut ev = Evaluator::new();
    eval_ok(&mut ev, "add x y = x + y");
    assert_eq!(eval_ok(&mut ev, "add 1 2"), vec![num(3, 1, 0, 1)]);
}

#[test]
fn multi_valued_argument_expands_per_use() {
    let mut ev = Evaluator::new();
    eval_ok(&mut ev, "f x = x + x");
    assert_eq!(
        eval_ok(&mut ev, "f (+/-1)"),
        vec![num(2, 1, 0, 1), num(0, 1, 0, 1), num(-2, 1, 0, 1)]
    );
}

#[test]
fn undefined_name_application_is_empty() {
    let mut ev = Evaluator::new();
    assert_eq!(eval_ok(&mut ev, "g 2"), vec![]);
}

#[test]
fn non_function_application_multiplies() {
    let mut ev = Evaluator::new();
    eval_ok(&mut ev, "g = 3");
    assert_eq!(eval_ok(&mut ev, "g 2"), vec![num(6, 1, 0, 1)]);
}

#[test]
fn implicit_multiplication_of_numeral_and_name() {
    let mut ev = Evaluator::new();
    eval_ok(&mut ev, "x = 5");
    assert_eq!(eval_ok(&mut ev, "2x"), vec![num(10, 1, 0, 1)]);
}

#[test]
fn missing_closing_delimiter() {
    let mut ev = Evaluator::new();
    eval_ok(&mut ev, "x = 5");
    match ev.evaluate("(1 + 2".to_string()) {
        Err(Error::ParseError(ParseError::MissingClosingDelimiter)) => {},
        other => panic!("unexpected {:?}", other),
    }
    assert_eq!(eval_ok(&mut ev, "x"), vec![num(5, 1, 0, 1)]);
}

#[test]
fn type_mismatch_aborts_line() {
    let mut ev = Evaluator::new();
    assert!(matches!(ev.evaluate("true + 1".to_string()), Err(Error::MismatchedType)));
    assert!(matches!(ev.evaluate("+/-1 + true".to_string()), Err(Error::MismatchedType)));
}

#[test]
fn failed_definition_binds_nothing() {
    let mut ev = Evaluator::new();
    eval_ok(&mut ev, "x = 1");
    assert!(matches!(ev.evaluate("(x = 2) + true".to_string()), Err(Error::MismatchedType)));
    assert_eq!(eval_ok(&mut ev, "x"), vec![num(1, 1, 0, 1)]);
}

#[test]
fn overflow_is_an_error() {
    let mut ev = Evaluator::new();
    assert!(matches!(
        ev.evaluate("9223372036854775807 * 2".to_string()),
        Err(Error::Overflow)
    ));
}

#[test]
fn zero_divisor_is_an_error() {
    let mut ev = Evaluator::new();
    assert_eq!(eval_ok(&mut ev, "1/0"), vec![num(0, 0, 0, 0)]);
    assert!(matches!(ev.evaluate("1/0 + 1".to_string()), Err(Error::ZeroDivisor)));
}

#[test]
fn endless_recursion_is_cut_off() {
    let mut ev = Evaluator::new();
    eval_ok(&mut ev, "f x = f x");
    assert!(matches!(ev.evaluate("f 1".to_string()), Err(Error::DepthExceeded)));
}

#[test]
fn numeral_too_large() {
    let mut ev = Evaluator::new();
    assert!(matches!(
        ev.evaluate("99999999999999999999".to_string()),
        Err(Error::ParseError(ParseError::InvalidNumber))
    ));
}

#[test]
fn number_expected() {
    let mut ev = Evaluator::new();
    assert!(matches!(
        ev.evaluate("1 +".to_string()),
        Err(Error::ParseError(ParseError::NumberExpected))
    ));
    assert!(matches!(
        ev.evaluate("and".to_string()),
        Err(Error::ParseError(ParseError::NumberExpected))
    ));
}

#[test]
fn unrecognized_symbol() {
    let mut ev = Evaluator::new();
    assert!(matches!(
        ev.evaluate("1 # 2".to_string()),
        Err(Error::ParseError(ParseError::LexError(LexError::UnrecognizedSymbol)))
    ));
}

#[test]
fn tuple_concatenates_element_values() {
    let mut ev = Evaluator::new();
    assert_eq!(
        eval_ok(&mut ev, "(+/-1, 2)"),
        vec![Value::Tuple(vec![num(1, 1, 0, 1), num(-1, 1, 0, 1), num(2, 1, 0, 1)])]
    );
}

#[test]
fn tuple_trailing_comma() {
    let mut ev = Evaluator::new();
    assert_eq!(
        eval_ok(&mut ev, "1, 2,"),
        vec![Value::Tuple(vec![num(1, 1, 0, 1), num(2, 1, 0, 1)])]
    );
}

#[test]
fn booleans() {
    let mut ev = Evaluator::new();
    assert_eq!(eval_ok(&mut ev, "true"), vec![Value::Boolean(true)]);
    assert_eq!(eval_ok(&mut ev, "false"), vec![Value::Boolean(false)]);
}

#[test]
fn function_literal_value_from_definition() {
    let mut ev = Evaluator::new();
    let v = eval_ok(&mut ev, "f x = x");
    assert_eq!(v.len(), 1);
    assert!(matches!(v[0], Value::Function(_, _)));
}

#[test]
fn unevaluated_operators_give_nothing() {
    let mut ev = Evaluator::new();
    assert_eq!(eval_ok(&mut ev, "5!"), vec![]);
    assert_eq!(eval_ok(&mut ev, "1 < 2"), vec![]);
}

#[test]
fn repl_strips_line_ending() {
    let mut repl = Repl::new();
    match repl.evaluate_line("1 + 1\r\n") {
        Ok(v) => assert_eq!(v, vec![num(2, 1, 0, 1)]),
        Err(e) => panic!("{:?}", e),
    }
}

#[test]
fn unicode_whitespace_is_skipped() {
    let mut ev = Evaluator::new();
    assert_eq!(eval_ok(&mut ev, "1\u{3000}+\u{a0}2\t"), vec![num(3, 1, 0, 1)]);
}

#[test]
fn redefinition_replaces_binding() {
    let mut ev = Evaluator::new();
    eval_ok(&mut ev, "x = 1");
    eval_ok(&mut ev, "x = 2");
    eval_ok(&mut ev, "x = 3");
    assert_eq!(eval_ok(&mut ev, "x"), vec![num(3, 1, 0, 1)]);
}
