use exprcalc::error::Error;
use exprcalc::lexer::lexize;
use exprcalc::tokenizer::{tokenize, Atomic, Token, TokenContainer};

#[test]
fn test_tokenizer() {
    let lexemes = lexize("2(0xa+0b11)+x");
    let tokens = tokenize(lexemes.clone()).unwrap();
    let expect_tokens = vec![
        Token::Atomic(Atomic::Integer(2)),
        Token::OpenP,
        Token::Atomic(Atomic::Integer(10)),
        Token::Plus,
        Token::Atomic(Atomic::Integer(3)),
        Token::ClosedP,
        Token::Plus,
        Token::Atomic(Atomic::Ident("x".to_string())),
    ];
    let expect = expect_tokens
        .into_iter()
        .zip(lexemes)
        .map(|(t, l)| TokenContainer { token: t, lexeme: l })
        .collect::<Vec<TokenContainer>>();
    assert_eq!(tokens, expect);
}

fn single_integer(input: &str) -> i64 {
    let tokens = tokenize(lexize(input)).unwrap();
    assert_eq!(tokens.len(), 1);
    match &tokens[0].token {
        Token::Atomic(Atomic::Integer(n)) => *n,
        other => panic!("expected an integer token, got {other:?}"),
    }
}

#[test]
fn tokenize_multi_radix_literals() {
    assert_eq!(single_integer("0xa"), 10);
    assert_eq!(single_integer("0b11"), 3);
    assert_eq!(single_integer("0o17"), 15);
    assert_eq!(single_integer("0d9"), 9);
    assert_eq!(single_integer("0xFF"), 255);
    assert_eq!(single_integer("42"), 42);
    assert_eq!(single_integer("0123"), 123);
}

#[test]
fn tokenize_invalid_binary_digit_is_an_error() {
    let err = tokenize(lexize("0b12")).unwrap_err();
    match err {
        Error::RadixParse { radix, text, line, column } => {
            assert_eq!(radix, 2);
            assert_eq!(text, "0b12");
            assert_eq!(line, 1);
            assert_eq!(column, 1);
        },
        other => panic!("expected a radix-parse error, got {other:?}"),
    }
}

#[test]
fn tokenize_invalid_octal_and_hex_digits_are_errors() {
    assert!(matches!(
        tokenize(lexize("0o8")).unwrap_err(),
        Error::RadixParse { radix: 8, .. }
    ));
    assert!(matches!(
        tokenize(lexize("0xg")).unwrap_err(),
        Error::RadixParse { radix: 16, .. }
    ));
    assert!(matches!(
        tokenize(lexize("0d9a")).unwrap_err(),
        Error::RadixParse { radix: 10, .. }
    ));
}

#[test]
fn tokenize_empty_digits_after_prefix_is_an_error() {
    assert!(matches!(
        tokenize(lexize("0x")).unwrap_err(),
        Error::RadixParse { radix: 16, .. }
    ));
}

#[test]
fn tokenize_decimal_too_large_for_sixty_four_bits_is_an_error() {
    assert_eq!(single_integer("9223372036854775807"), i64::MAX);
    assert!(matches!(
        tokenize(lexize("9223372036854775808")).unwrap_err(),
        Error::RadixParse { radix: 10, .. }
    ));
    assert!(matches!(
        tokenize(lexize("0xffffffffffffffff")).unwrap_err(),
        Error::RadixParse { radix: 16, .. }
    ));
}

#[test]
fn tokenize_fails_fast_on_the_first_bad_literal() {
    let err = tokenize(lexize("1+0b2+0o9")).unwrap_err();
    assert!(matches!(err, Error::RadixParse { radix: 2, .. }));
}

#[test]
fn tokenize_percent_and_words_become_identifiers() {
    let tokens = tokenize(lexize("% foo 0zz")).unwrap();
    let expect = vec![
        Token::Atomic(Atomic::Ident("%".to_string())),
        Token::Atomic(Atomic::Ident("foo".to_string())),
        Token::Atomic(Atomic::Ident("0zz".to_string())),
    ];
    let got: Vec<Token> = tokens.into_iter().map(|tc| tc.token).collect();
    assert_eq!(got, expect);
}

#[test]
fn tokenize_keeps_the_source_position_of_each_lexeme() {
    let tokens = tokenize(lexize("22( 1+ 3 )")).unwrap();
    let columns: Vec<usize> = tokens.iter().map(|tc| tc.lexeme.column).collect();
    assert_eq!(columns, vec![1, 3, 5, 6, 8, 10]);
    assert!(tokens.iter().all(|tc| tc.lexeme.line == 1));
}
