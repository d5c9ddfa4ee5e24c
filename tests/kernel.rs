use arc::eval::{Error, Evaluator};
use arc::nodes::{BinaryOp, Expression};
use arc::operators::{add, call, divide, iterate_two_args, multiply, negate, subtract, Operator};
use arc::values::{gcd, Value};

fn num(a: isize, b: isize, c: isize, d: isize) -> Value {
    Value::ComplexNumber(a, b, c, d)
}

#[test]
fn multiply_shares_denominator() {
    // (1/2 + i/3)(1/4 + i/5) = 7/120 + 22i/120
    assert_eq!(multiply(num(1, 2, 1, 3), num(1, 4, 1, 5)).unwrap(), vec![num(7, 120, 22, 120)]);
}

#[test]
fn multiply_rejects_boolean() {
    assert!(matches!(multiply(Value::Boolean(true), num(1, 1, 0, 1)), Err(Error::MismatchedType)));
}

#[test]
fn call_multiplies_numbers() {
    assert_eq!(call(num(3, 1, 0, 1), num(2, 1, 0, 1)).unwrap(), vec![num(6, 1, 0, 1)]);
    assert!(matches!(call(Value::Boolean(false), num(2, 1, 0, 1)), Err(Error::MismatchedType)));
}

#[test]
fn divide_formula() {
    assert_eq!(divide(num(3, 1, 0, 1), num(4, 1, 0, 1)).unwrap(), vec![num(12, 16, 0, 16)]);
    // the formula's imaginary part: 1 / i comes out as i
    assert_eq!(divide(num(1, 1, 0, 1), num(0, 1, 1, 1)).unwrap(), vec![num(0, 1, 1, 1)]);
}

#[test]
fn negate_flips_numerators() {
    assert_eq!(negate(num(3, 4, -1, 2)).unwrap(), vec![num(-3, 4, 1, 2)]);
    assert!(matches!(negate(Value::Boolean(true)), Err(Error::MismatchedType)));
    assert!(matches!(negate(num(isize::MIN, 1, 0, 1)), Err(Error::Overflow)));
}

#[test]
fn add_whole_numbers() {
    assert_eq!(add(num(1, 1, 0, 1), num(1, 1, 0, 1)).unwrap(), vec![num(2, 1, 0, 1)]);
}

#[test]
fn add_equal_halves() {
    assert_eq!(add(num(1, 2, 0, 1), num(1, 2, 0, 1)).unwrap(), vec![num(2, 2, 0, 2)]);
}

#[test]
fn add_with_differing_imaginary_denominators() {
    // the imaginary part takes the real part's denominator
    assert_eq!(add(num(1, 2, 1, 3), num(1, 4, 1, 5)).unwrap(), vec![num(0, 1, 0, 1)]);
}

#[test]
fn subtract_whole_numbers() {
    assert_eq!(subtract(num(5, 1, 2, 1), num(3, 1, 1, 1)).unwrap(), vec![num(2, 1, 1, 1)]);
}

#[test]
fn add_zero_denominator() {
    assert!(matches!(add(num(1, 0, 0, 1), num(1, 1, 0, 1)), Err(Error::ZeroDivisor)));
    assert!(matches!(subtract(num(1, 1, 0, 1), num(1, 1, 0, 0)), Err(Error::ZeroDivisor)));
}

#[test]
fn signed_gcd_values() {
    assert_eq!(gcd(12, 18), 6);
    assert_eq!(gcd(-12, 18), -6);
    assert_eq!(gcd(12, -18), -6);
    assert_eq!(gcd(-12, -18), 6);
    assert_eq!(gcd(7, 5), 1);
}

#[test]
fn cartesian_product_dedups() {
    let xs = vec![num(1, 1, 0, 1), num(-1, 1, 0, 1)];
    let ys = vec![num(1, 1, 0, 1), num(-1, 1, 0, 1)];
    assert_eq!(
        iterate_two_args(BinaryOp::Add, &xs, &ys).unwrap(),
        vec![num(2, 1, 0, 1), num(0, 1, 0, 1), num(-2, 1, 0, 1)]
    );
}

#[test]
fn cartesian_product_fails_whole() {
    let xs = vec![num(1, 1, 0, 1), Value::Boolean(true)];
    let ys = vec![num(1, 1, 0, 1)];
    assert!(matches!(iterate_two_args(BinaryOp::Add, &xs, &ys), Err(Error::MismatchedType)));
}

#[test]
fn operator_call_multiplies_numbers_only() {
    let mut ev = Evaluator::new();
    let three = Expression::Number(0, 3, 1);
    let two = Expression::Number(0, 2, 1);
    let product = Operator::Call(three, two).get_values(&mut ev).unwrap();
    assert_eq!(product, vec![num(6, 1, 0, 1)]);
    let function = Expression::Function(
        0,
        Box::new(Expression::Number(0, 1, 1)),
        Box::new(Expression::Number(0, 3, 1)),
    );
    let applied = Operator::Call(function, Expression::Number(0, 2, 1)).get_values(&mut ev);
    assert!(matches!(applied, Err(Error::MismatchedType)));
}

#[test]
fn operator_negate_and_add() {
    let mut ev = Evaluator::new();
    let negated = Operator::Negate(Expression::Number(0, 4, 1)).get_values(&mut ev).unwrap();
    assert_eq!(negated, vec![num(-4, 1, 0, 1)]);
    let sum = Operator::Add(Expression::Number(0, 4, 1), Expression::Number(0, 5, 1))
        .get_values(&mut ev)
        .unwrap();
    assert_eq!(sum, vec![num(9, 1, 0, 1)]);
}
