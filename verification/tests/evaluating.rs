use exprcalc::error::Error;
use exprcalc::lexer::lexize;
use exprcalc::parser::{parse, Expression};
use exprcalc::tokenizer::{tokenize, Atomic};

fn eval(input: &str) -> Result<i64, Error> {
    parse(tokenize(lexize(input)).unwrap()).unwrap().evaluate()
}

#[test]
fn evaluate_is_deterministic() {
    let ast = parse(tokenize(lexize("2^(1+1)*3-4/2")).unwrap()).unwrap();
    let first = ast.evaluate().unwrap();
    let second = ast.evaluate().unwrap();
    assert_eq!(first, second);
    assert_eq!(first, 10);
}

#[test]
fn evaluate_negative_exponent_truncates_to_zero() {
    assert_eq!(eval("2^(-1)").unwrap(), 0);
    assert_eq!(eval("10^(-2)").unwrap(), 0);
    assert_eq!(eval("(-2)^(-3)").unwrap(), 0);
    assert_eq!(eval("1^(-5)").unwrap(), 1);
}

#[test]
fn evaluate_zero_base_negative_exponent_is_division_by_zero() {
    assert!(matches!(eval("0^(-1)").unwrap_err(), Error::DivisionByZero));
}

#[test]
fn evaluate_division_by_zero_is_an_error() {
    assert!(matches!(eval("1/0").unwrap_err(), Error::DivisionByZero));
    assert!(matches!(eval("5/(2-2)").unwrap_err(), Error::DivisionByZero));
}

#[test]
fn evaluate_division_truncates_toward_zero() {
    assert_eq!(eval("7/2").unwrap(), 3);
    assert_eq!(eval("(0-7)/2").unwrap(), -3);
    assert_eq!(eval("7/(0-2)").unwrap(), -3);
}

#[test]
fn evaluate_zero_exponent_is_one() {
    assert_eq!(eval("0^0").unwrap(), 1);
    assert_eq!(eval("5^0").unwrap(), 1);
}

#[test]
fn evaluate_identifier_is_unsupported() {
    let err = eval("x+1").unwrap_err();
    match err {
        Error::EvaluationUnsupported { name } => assert_eq!(name, "x"),
        other => panic!("expected an unsupported-evaluation error, got {other:?}"),
    }
}

#[test]
fn evaluate_overflow_is_an_error_not_a_panic() {
    assert!(matches!(
        eval("9223372036854775807+1").unwrap_err(),
        Error::Overflow
    ));
    assert!(matches!(eval("2^64").unwrap_err(), Error::Overflow));
    assert!(matches!(
        eval("0-9223372036854775807-2").unwrap_err(),
        Error::Overflow
    ));
}

#[test]
fn evaluate_modulo_follows_the_dividend_sign() {
    let m = Expression::Modulo {
        left: Box::new(Expression::Leaf(Atomic::Integer(7))),
        right: Box::new(Expression::Leaf(Atomic::Integer(3))),
    };
    assert_eq!(m.evaluate().unwrap(), 1);
    let m2 = Expression::Modulo {
        left: Box::new(Expression::Negate {
            right: Box::new(Expression::Leaf(Atomic::Integer(7))),
        }),
        right: Box::new(Expression::Leaf(Atomic::Integer(3))),
    };
    assert_eq!(m2.evaluate().unwrap(), -1);
}

#[test]
fn evaluate_modulo_by_zero_is_an_error() {
    let m = Expression::Modulo {
        left: Box::new(Expression::Leaf(Atomic::Integer(7))),
        right: Box::new(Expression::Leaf(Atomic::Integer(0))),
    };
    assert!(matches!(m.evaluate().unwrap_err(), Error::DivisionByZero));
}

#[test]
fn evaluate_assign_returns_its_right_hand_side() {
    let a = Expression::Assign {
        left: Box::new(Expression::Leaf(Atomic::Ident("x".to_string()))),
        right: Box::new(Expression::Leaf(Atomic::Integer(9))),
    };
    assert_eq!(a.evaluate().unwrap(), 9);
}

#[test]
fn evaluate_atomic_leaves() {
    assert_eq!(Atomic::Integer(41).evaluate().unwrap(), 41);
    assert!(matches!(
        Atomic::Ident("y".to_string()).evaluate().unwrap_err(),
        Error::EvaluationUnsupported { .. }
    ));
}
