use gnarly::char_scanner::CharScanner;
use gnarly::lexer::{LexError, Lexer, Token};
use gnarly::numeric::NumValue;

fn scan_ok(src: &str) -> Vec<Token> {
    match Lexer::scan(src) {
        Ok(lexer) => lexer.token_list,
        Err(e) => panic!("scan of {:?} failed: {:?}", src, e),
    }
}

#[test]
fn scan_integer_literal() {
    let toks = scan_ok("42");
    assert_eq!(toks.len(), 1);
    assert_eq!(toks[0], Token::NumberLiteral(NumValue { micros: 42_000_000 }));
}

#[test]
fn scan_decimal_literal() {
    let toks = scan_ok("3.5");
    assert_eq!(toks, vec![Token::NumberLiteral(NumValue { micros: 3_500_000 })]);
}

#[test]
fn scan_negative_literal() {
    let toks = scan_ok("-7");
    assert_eq!(toks, vec![Token::NumberLiteral(NumValue { micros: -7_000_000 })]);
}

#[test]
fn scan_trailing_dot_literal() {
    let toks = scan_ok("5.");
    assert_eq!(toks, vec![Token::NumberLiteral(NumValue { micros: 5_000_000 })]);
}

#[test]
fn scan_fraction_truncated_to_six_digits() {
    let toks = scan_ok("0.1234567");
    assert_eq!(toks, vec![Token::NumberLiteral(NumValue { micros: 123_456 })]);
}

#[test]
fn scan_number_sequence_with_operator() {
    let toks = scan_ok("1 2 +");
    assert_eq!(
        toks,
        vec![
            Token::NumberLiteral(NumValue { micros: 1_000_000 }),
            Token::NumberLiteral(NumValue { micros: 2_000_000 }),
            Token::Operator("+".to_string()),
        ]
    );
}

#[test]
fn scan_word_operator_with_dot() {
    let toks = scan_ok("string.concat");
    assert_eq!(toks, vec![Token::Operator("string.concat".to_string())]);
}

#[test]
fn scan_variable_identifier() {
    let toks = scan_ok("$foo_1");
    assert_eq!(toks, vec![Token::VariableIdentifier("foo_1".to_string())]);
}

#[test]
fn scan_string_literal() {
    let toks = scan_ok("\"hello\"");
    assert_eq!(toks, vec![Token::StringLiteral("hello".to_string())]);
}

#[test]
fn scan_string_with_escaped_quote() {
    let toks = scan_ok("\"a\\\"b\"");
    assert_eq!(toks, vec![Token::StringLiteral("a\"b".to_string())]);
}

#[test]
fn scan_multiline_string() {
    let toks = scan_ok("\"a\nb\"");
    assert_eq!(toks, vec![Token::StringLiteral("a\nb".to_string())]);
}

#[test]
fn scan_minus_alone_is_operator() {
    let toks = scan_ok("1 2 -");
    assert_eq!(toks[2], Token::Operator("-".to_string()));
}

#[test]
fn scan_minus_before_digit_is_number() {
    let toks = scan_ok("1 -2");
    assert_eq!(
        toks,
        vec![
            Token::NumberLiteral(NumValue { micros: 1_000_000 }),
            Token::NumberLiteral(NumValue { micros: -2_000_000 }),
        ]
    );
}

#[test]
fn scan_special_operator_ends_immediately() {
    // `+-3` is the operator `+` followed by the number `-3`.
    let toks = scan_ok("+-3");
    assert_eq!(
        toks,
        vec![
            Token::Operator("+".to_string()),
            Token::NumberLiteral(NumValue { micros: -3_000_000 }),
        ]
    );
}

#[test]
fn scan_terminator_starts_next_token() {
    // The quote that ends nothing starts a string right after a number.
    let toks = scan_ok("1\"a\"");
    assert_eq!(
        toks,
        vec![
            Token::NumberLiteral(NumValue { micros: 1_000_000 }),
            Token::StringLiteral("a".to_string()),
        ]
    );
}

#[test]
fn scan_braces_are_scope_markers() {
    let toks = scan_ok("{ }");
    assert_eq!(toks, vec![Token::ScopeStart, Token::ScopeEnd]);
}

#[test]
fn scan_empty_input() {
    let toks = scan_ok("");
    assert!(toks.is_empty());
}

#[test]
fn scan_whitespace_only() {
    let toks = scan_ok(" \t\n\r ");
    assert!(toks.is_empty());
}

#[test]
fn scan_unexpected_character() {
    match Lexer::scan("#") {
        Err(LexError::UnexpectedCharacter(c)) => assert_eq!(c, '#'),
        other => panic!("expected an unexpected-character error, got {:?}", other.map(|l| l.token_list)),
    }
}

#[test]
fn scan_invalid_number_two_dots() {
    match Lexer::scan("1.2.3") {
        Err(LexError::InvalidNumber(raw)) => assert_eq!(raw, "1.2.3"),
        other => panic!("expected an invalid-number error, got {:?}", other.map(|l| l.token_list)),
    }
}

#[test]
fn scan_invalid_number_at_end_of_input() {
    match Lexer::scan("7..") {
        Err(LexError::InvalidNumber(raw)) => assert_eq!(raw, "7.."),
        other => panic!("expected an invalid-number error, got {:?}", other.map(|l| l.token_list)),
    }
}

#[test]
fn scan_twice_yields_identical_tokens() {
    let src = "1 2 + \"s $x\" $x set { } print.stack";
    let first = scan_ok(src);
    let second = scan_ok(src);
    assert_eq!(first.len(), second.len());
    for (a, b) in first.iter().zip(second.iter()) {
        assert_eq!(a, b);
    }
}

#[test]
fn token_constructors() {
    assert_eq!(
        Token::new_number_literal("0.5"),
        Ok(Token::NumberLiteral(NumValue { micros: 500_000 }))
    );
    assert_eq!(
        Token::new_number_literal(".5"),
        Ok(Token::NumberLiteral(NumValue { micros: 500_000 }))
    );
    assert!(matches!(Token::new_number_literal("abc"), Err(LexError::InvalidNumber(_))));
    assert_eq!(Token::new_operator(""), Err(LexError::EmptyOperator));
    assert_eq!(Token::new_operator("set"), Ok(Token::Operator("set".to_string())));
    assert_eq!(
        Token::new_variable_identifier(""),
        Err(LexError::EmptyVariableIdentifier)
    );
    assert_eq!(
        Token::new_string_literal("x y"),
        Ok(Token::StringLiteral("x y".to_string()))
    );
}

#[test]
fn number_rendering() {
    assert_eq!(NumValue { micros: 42_000_000 }.render(), "42");
    assert_eq!(NumValue { micros: 3_500_000 }.render(), "3.5");
    assert_eq!(NumValue { micros: -500_000 }.render(), "-0.5");
    assert_eq!(NumValue { micros: 0 }.render(), "0");
    assert_eq!(NumValue { micros: 333_333 }.render(), "0.333333");
    assert_eq!(NumValue { micros: 2_500_000 }.render(), "2.5");
}

#[test]
fn scan_backslash_is_always_dropped() {
    // Every backslash is dropped and the following character is taken
    // literally, so a doubled backslash vanishes entirely.
    let toks = scan_ok("\"a\\\\b\"");
    assert_eq!(toks, vec![Token::StringLiteral("ab".to_string())]);
}

#[test]
fn char_scanner_cursor_and_lookahead() {
    let mut scanner = CharScanner::new("ab");
    assert_eq!(scanner.peek(), Some('a'));
    assert_eq!(scanner.next(), Some('a'));
    // Offsets are relative to the last consumed character.
    assert_eq!(scanner.peek_offset(0), Some('a'));
    assert_eq!(scanner.peek_offset(1), Some('b'));
    assert_eq!(scanner.peek_offset(-1), None);
    assert_eq!(scanner.peek_offset(5), None);
    assert_eq!(scanner.next(), Some('b'));
    assert_eq!(scanner.next(), None);
}
