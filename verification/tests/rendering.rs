use exprcalc::lexer::lexize;
use exprcalc::parser::{parse, Expression};
use exprcalc::tokenizer::{tokenize, Atomic, Token};

fn text_of(input: &str) -> String {
    parse(tokenize(lexize(input)).unwrap()).unwrap().to_text()
}

#[test]
fn render_is_fully_parenthesized() {
    assert_eq!(text_of("1+2*3"), "(1+(2*3))");
    assert_eq!(text_of("(1+2)*3"), "((1+2)*3)");
    assert_eq!(text_of("2^3^2"), "(2^(3^2))");
    assert_eq!(text_of("--2"), "(-(-2))");
    assert_eq!(text_of("8/4/2"), "((8/4)/2)");
    assert_eq!(text_of("1-2-3"), "((1-2)-3)");
}

#[test]
fn render_leaves_and_identifiers_verbatim() {
    assert_eq!(text_of("42"), "42");
    assert_eq!(text_of("foo"), "foo");
    assert_eq!(text_of("0xa"), "10");
}

#[test]
fn render_negative_integer_leaf() {
    let e = Expression::Leaf(Atomic::Integer(-12));
    assert_eq!(e.to_text(), "-12");
    let e2 = Expression::Leaf(Atomic::Integer(i64::MIN));
    assert_eq!(e2.to_text(), "-9223372036854775808");
}

#[test]
fn render_modulo_and_assign_nodes() {
    let m = Expression::Modulo {
        left: Box::new(Expression::Leaf(Atomic::Integer(7))),
        right: Box::new(Expression::Leaf(Atomic::Integer(3))),
    };
    assert_eq!(m.to_text(), "(7%3)");
    let a = Expression::Assign {
        left: Box::new(Expression::Leaf(Atomic::Ident("x".to_string()))),
        right: Box::new(Expression::Leaf(Atomic::Integer(9))),
    };
    assert_eq!(a.to_text(), "(x=9)");
}

#[test]
fn render_is_reparseable_and_evaluation_equivalent() {
    for input in ["1+2*3^2", "-(2^3)+4*2", "10/(3+2)"] {
        let ast = parse(tokenize(lexize(input)).unwrap()).unwrap();
        let rendered = ast.to_text();
        let again = parse(tokenize(lexize(&rendered)).unwrap()).unwrap();
        assert_eq!(ast.evaluate().unwrap(), again.evaluate().unwrap());
    }
}

#[test]
fn render_token_texts() {
    assert_eq!(Token::OpenP.to_text(), "(");
    assert_eq!(Token::Carot.to_text(), "^");
    assert_eq!(Token::Atomic(Atomic::Integer(305)).to_text(), "305");
    assert_eq!(Token::Atomic(Atomic::Ident("v".to_string())).to_text(), "v");
}
