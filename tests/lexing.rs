use calc::{lex, LexError, Token};

#[test]
fn digits_become_a_number() {
    assert_eq!(lex("42"), Ok(vec![Token::Number(42)]));
    assert_eq!(lex("007"), Ok(vec![Token::Number(7)]));
    assert_eq!(lex("0"), Ok(vec![Token::Number(0)]));
}

#[test]
fn largest_number_fits() {
    assert_eq!(lex("9223372036854775807"), Ok(vec![Token::Number(i64::MAX)]));
}

#[test]
fn overflowing_number_is_invalid() {
    assert_eq!(
        lex("9223372036854775808"),
        Err(LexError::InvalidNumber("9223372036854775808".to_string()))
    );
    assert_eq!(
        lex("1 99999999999999999999999"),
        Err(LexError::InvalidNumber("99999999999999999999999".to_string()))
    );
}

#[test]
fn four_operator_symbols() {
    assert_eq!(lex("+"), Ok(vec![Token::Operator('+')]));
    assert_eq!(lex("-"), Ok(vec![Token::Operator('-')]));
    assert_eq!(lex("*"), Ok(vec![Token::Operator('*')]));
    assert_eq!(lex("/"), Ok(vec![Token::Operator('/')]));
}

#[test]
fn other_single_characters_are_invalid_operators() {
    assert_eq!(lex("^"), Err(LexError::InvalidOperator('^')));
    assert_eq!(lex("%"), Err(LexError::InvalidOperator('%')));
    assert_eq!(lex("x"), Err(LexError::InvalidOperator('x')));
    assert_eq!(lex("1 + a"), Err(LexError::InvalidOperator('a')));
}

#[test]
fn longer_words_are_unknown_input() {
    assert_eq!(lex("12a"), Err(LexError::UnknownInput("12a".to_string())));
    assert_eq!(lex("++"), Err(LexError::UnknownInput("++".to_string())));
    assert_eq!(lex("1+2"), Err(LexError::UnknownInput("1+2".to_string())));
}

#[test]
fn first_failing_word_decides() {
    assert_eq!(lex("1 abc x"), Err(LexError::UnknownInput("abc".to_string())));
    assert_eq!(lex("x abc"), Err(LexError::InvalidOperator('x')));
}

#[test]
fn whitespace_separates_words() {
    assert_eq!(
        lex("  1\t+\n 2  * 3 "),
        Ok(vec![
            Token::Number(1),
            Token::Operator('+'),
            Token::Number(2),
            Token::Operator('*'),
            Token::Number(3),
        ])
    );
    assert_eq!(lex("1\u{3000}-\u{a0}2"), Ok(vec![Token::Number(1), Token::Operator('-'), Token::Number(2)]));
}

#[test]
fn empty_and_blank_lines_have_no_tokens() {
    assert_eq!(lex(""), Ok(vec![]));
    assert_eq!(lex("   \t "), Ok(vec![]));
}

#[test]
fn agrees_with_split_whitespace() {
    let line = " 12\u{2003}+\u{85}7 \u{2028} / 3\r\n";
    let expected: Vec<Token> = line
        .split_whitespace()
        .map(|w| match w.parse::<i64>() {
            Ok(n) => Token::Number(n),
            Err(_) => Token::Operator(w.chars().next().unwrap()),
        })
        .collect();
    assert_eq!(lex(line), Ok(expected));
}
