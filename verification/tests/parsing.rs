use exprcalc::error::Error;
use exprcalc::lexer::lexize;
use exprcalc::parser::parse;
use exprcalc::tokenizer::{tokenize, Token};

#[test]
fn test_parser() {
    let tests = [
        ("1+1", 1 + 1),
        ("1+2*3", 1 + 2 * 3),
        ("(1+2)*3", (1 + 2) * 3),
        ("1*2*3*4+5", 1 * 2 * 3 * 4 + 5),
        ("--2", --2),
        ("1+2^(1+1)*2", 1 + 2_i64.pow(1 + 1) * 2),
        ("((1+2)+3)", (1 + 2) + 3),
        ("(1+(2*(3+4)))", 1 + (2 * (3 + 4))),
        ("((1+2)*(3+4))", (1 + 2) * (3 + 4)),
        ("-1+2", -1 + 2),
        ("-(1+2)", -(1 + 2)),
        ("-(-3)", -(-3)),
        ("2^3^2", 2_i64.pow(3_i64.pow(2) as u32)),
        ("-2^3", -2_i64.pow(3)),
        ("(2^3)^2", (2_i64.pow(3)).pow(2)),
        ("2^3*2", 2_i64.pow(3) * 2),
        ("2*3^2", 2 * 3_i64.pow(2)),
        ("1+2*3^2", 1 + 2 * 3_i64.pow(2)),
        ("(1+2)*(3+4)^2", (1 + 2) * (3 + 4_i64).pow(2)),
        ("--1+2", --1 + 2),
        ("---2", -(-(-2))),
        ("8/4/2", (8 / 4) / 2),
        ("10/(3+2)", 10 / (3 + 2)),
        ("-(2^3)+4*2", -(2_i64.pow(3)) + 4 * 2),
        ("2^(1+1)*3-4/2", 2_i64.pow(1 + 1) * 3 - 4 / 2),
    ];
    for (i, (input, evaluated)) in tests.iter().enumerate() {
        println!("[{i}]\ninput:\t({input})");
        let ast = parse(tokenize(lexize(input)).unwrap()).unwrap();
        let ast_str = ast.to_text();
        println!("ast:\t{ast_str}");
        assert_eq!(ast.evaluate().unwrap(), *evaluated)
    }
}

#[test]
fn parse_leading_star_is_an_unexpected_token_at_one_one() {
    let err = parse(tokenize(lexize("*2")).unwrap()).unwrap_err();
    match err {
        Error::UnexpectedToken { found } => {
            assert!(matches!(found.token, Token::Star));
            assert_eq!(found.lexeme.inner, "*");
            assert_eq!(found.lexeme.line, 1);
            assert_eq!(found.lexeme.column, 1);
        },
        other => panic!("expected an unexpected-token error, got {other:?}"),
    }
}

#[test]
fn parse_equals_after_operand_is_an_unexpected_token() {
    let err = parse(tokenize(lexize("2=")).unwrap()).unwrap_err();
    match err {
        Error::UnexpectedToken { found } => {
            assert!(matches!(found.token, Token::Eq));
            assert_eq!(found.lexeme.inner, "=");
        },
        other => panic!("expected an unexpected-token error, got {other:?}"),
    }
}

#[test]
fn parse_unterminated_group_is_an_unexpected_end() {
    let err = parse(tokenize(lexize("(1+2")).unwrap()).unwrap_err();
    assert!(matches!(err, Error::UnexpectedEnd));
}

#[test]
fn parse_empty_input_is_an_unexpected_end() {
    let err = parse(tokenize(lexize("")).unwrap()).unwrap_err();
    assert!(matches!(err, Error::UnexpectedEnd));
}

#[test]
fn parse_adjacent_operands_are_unsupported() {
    let err = parse(tokenize(lexize("2 3")).unwrap()).unwrap_err();
    assert!(matches!(err, Error::UnsupportedConstruct { .. }));
    let err = parse(tokenize(lexize("22( 1+ 3 )")).unwrap()).unwrap_err();
    assert!(matches!(err, Error::UnsupportedConstruct { .. }));
}

#[test]
fn parse_other_leading_operators_are_errors() {
    for input in [")1", "/2", "^2", "=2"] {
        let err = parse(tokenize(lexize(input)).unwrap()).unwrap_err();
        assert!(matches!(err, Error::UnexpectedToken { .. }), "{input}");
    }
}

#[test]
fn parse_leading_plus_is_a_no_op() {
    let ast = parse(tokenize(lexize("+7")).unwrap()).unwrap();
    assert_eq!(ast.evaluate().unwrap(), 7);
    assert_eq!(ast.to_text(), "7");
}
