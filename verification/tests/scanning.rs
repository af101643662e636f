use exprcalc::lexer::{lexize, Lexeme};

#[test]
fn test_lexemes() {
    let test_string = lexize("22( 1+ 3 )");
    let equal = vec![
        Lexeme::new("22", 1, 1),
        Lexeme::new("(", 1, 3),
        Lexeme::new("1", 1, 5),
        Lexeme::new("+", 1, 6),
        Lexeme::new("3", 1, 8),
        Lexeme::new(")", 1, 10),
    ];
    assert_eq!(test_string, equal);
    println!("{test_string:?}");
}

#[test]
fn scan_empty_input_yields_nothing() {
    assert_eq!(lexize(""), Vec::<Lexeme>::new());
    assert_eq!(lexize("  \t \n "), Vec::<Lexeme>::new());
}

#[test]
fn scan_flushes_trailing_lexeme() {
    let lexemes = lexize("12+abc");
    let equal = vec![
        Lexeme::new("12", 1, 1),
        Lexeme::new("+", 1, 3),
        Lexeme::new("abc", 1, 4),
    ];
    assert_eq!(lexemes, equal);
}

#[test]
fn scan_newline_starts_line_at_column_one() {
    let lexemes = lexize("1+\n2");
    let equal = vec![
        Lexeme::new("1", 1, 1),
        Lexeme::new("+", 1, 2),
        Lexeme::new("2", 2, 1),
    ];
    assert_eq!(lexemes, equal);
}

#[test]
fn scan_every_single_character_lexeme() {
    let lexemes = lexize("()+-*/%^=");
    let texts: Vec<String> = lexemes.iter().map(|l| l.inner.clone()).collect();
    assert_eq!(texts, vec!["(", ")", "+", "-", "*", "/", "%", "^", "="]);
    for (k, l) in lexemes.iter().enumerate() {
        assert_eq!(l.line, 1);
        assert_eq!(l.column, k + 1);
    }
}

#[test]
fn scan_never_rejects_strange_characters() {
    let lexemes = lexize("@#!");
    assert_eq!(lexemes, vec![Lexeme::new("@#!", 1, 1)]);
}
