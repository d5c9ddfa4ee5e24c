use arc::nodes::{BinaryOp, Expression, UnaryOp};
use arc::parser::Parser;
use arc::tokens::Token;

fn parse(code: &str) -> Expression {
    let mut p = Parser::new(code.to_string());
    match p.parse() {
        Ok(e) => e,
        Err(e) => panic!("{:?} failed: {:?}", code, e),
    }
}

#[test]
fn lexes_names_numbers_and_symbols() {
    let mut p = Parser::new(String::new());
    p.chars = "αβ_1 12.5 3. +/- -> <= x".chars().collect();
    p.index = 0;
    assert_eq!(p.next_token(), Ok(Token::Identifier("αβ_1".to_string())));
    assert_eq!(p.next_token(), Ok(Token::Number("12.5".to_string())));
    assert_eq!(p.next_token(), Ok(Token::Number("3".to_string())));
    assert_eq!(p.next_token(), Ok(Token::Dot));
    assert_eq!(p.next_token(), Ok(Token::PlusOrMinus));
    assert_eq!(p.next_token(), Ok(Token::Arrow));
    assert_eq!(p.next_token(), Ok(Token::LessThanEqual));
    assert_eq!(p.next_token(), Ok(Token::Identifier("x".to_string())));
    assert_eq!(p.next_token(), Ok(Token::EOF));
    assert_eq!(p.next_token(), Ok(Token::EOF));
}

#[test]
fn numeral_takes_one_point() {
    let mut p = Parser::new(String::new());
    p.chars = "1.2.3".chars().collect();
    p.index = 0;
    assert_eq!(p.next_token(), Ok(Token::Number("1.2".to_string())));
    assert_eq!(p.next_token(), Ok(Token::Dot));
}

#[test]
fn chained_comparison_shares_operand() {
    match parse("1 < 2 <= 3") {
        Expression::Binary(_, BinaryOp::And, l, r) => {
            assert!(matches!(*l, Expression::Binary(_, BinaryOp::LessThan, _, _)));
            match *r {
                Expression::Binary(_, BinaryOp::LessThanEqual, a, b) => {
                    assert!(matches!(*a, Expression::Number(_, 2, 1)));
                    assert!(matches!(*b, Expression::Number(_, 3, 1)));
                },
                other => panic!("{:?}", other),
            }
        },
        other => panic!("{:?}", other),
    }
}

#[test]
fn power_groups_right() {
    match parse("2 ^ 3 ^ 4") {
        Expression::Binary(_, BinaryOp::Power, l, r) => {
            assert!(matches!(*l, Expression::Number(_, 2, 1)));
            assert!(matches!(*r, Expression::Binary(_, BinaryOp::Power, _, _)));
        },
        other => panic!("{:?}", other),
    }
}

#[test]
fn subtraction_groups_left() {
    match parse("5 - 2 - 1") {
        Expression::Binary(_, BinaryOp::Subtract, l, r) => {
            assert!(matches!(*l, Expression::Binary(_, BinaryOp::Subtract, _, _)));
            assert!(matches!(*r, Expression::Number(_, 1, 1)));
        },
        other => panic!("{:?}", other),
    }
}

#[test]
fn application_binds_tighter_than_multiplication() {
    match parse("f x * 2") {
        Expression::Binary(_, BinaryOp::Multiply, l, _) => {
            assert!(matches!(*l, Expression::Binary(_, BinaryOp::Call, _, _)));
        },
        other => panic!("{:?}", other),
    }
}

#[test]
fn prefix_operators() {
    assert!(matches!(parse("-x"), Expression::Unary(_, UnaryOp::Negate, _)));
    assert!(matches!(parse("+/-x"), Expression::Unary(_, UnaryOp::PlusMinus, _)));
    assert!(matches!(parse("not x"), Expression::Unary(_, UnaryOp::Not, _)));
    assert!(matches!(parse("3!%"), Expression::Unary(_, UnaryOp::Percent, _)));
}

#[test]
fn boolean_connectives() {
    assert!(matches!(parse("a or b and c"), Expression::Binary(_, BinaryOp::Or, _, _)));
}

#[test]
fn single_element_is_no_tuple() {
    assert!(matches!(parse("(1)"), Expression::Number(_, 1, 1)));
    match parse("1, 2, 3") {
        Expression::Tuple(_, xs) => assert_eq!(xs.len(), 3),
        other => panic!("{:?}", other),
    }
}

#[test]
fn substitution_replaces_by_name() {
    let body = parse("x * y + x");
    let old = parse("x");
    let new = parse("7");
    let result = body.sub(&old, &new);
    match *result {
        Expression::Binary(_, BinaryOp::Add, l, r) => {
            assert!(matches!(*r, Expression::Number(_, 7, 1)));
            match *l {
                Expression::Binary(_, BinaryOp::Multiply, a, b) => {
                    assert!(matches!(*a, Expression::Number(_, 7, 1)));
                    assert!(matches!(*b, Expression::Variable(_, ref n) if n == "y"));
                },
                other => panic!("{:?}", other),
            }
        },
        other => panic!("{:?}", other),
    }
}

#[test]
fn substitution_skips_function_pattern() {
    let lit = Expression::Function(0, Box::new(parse("x")), Box::new(parse("x")));
    let result = lit.sub(&parse("x"), &parse("1"));
    match *result {
        Expression::Function(_, p, b) => {
            assert!(matches!(*p, Expression::Variable(_, _)));
            assert!(matches!(*b, Expression::Number(_, 1, 1)));
        },
        other => panic!("{:?}", other),
    }
}
