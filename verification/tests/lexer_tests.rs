use stacklang::lexer::{tokenize, Lexer, Token};
use stacklang::number::Number;

fn lex_all(src: &str) -> Vec<Token> {
    tokenize(&src.as_bytes().to_vec())
}

#[test]
fn lexes_integer_literal() {
    assert_eq!(lex_all("42"), vec![Token::NumberLiteral(Number { num: 42, den: 1 })]);
}

#[test]
fn lexes_fractional_literal() {
    assert_eq!(lex_all("45.67"), vec![Token::NumberLiteral(Number { num: 4567, den: 100 })]);
}

#[test]
fn lexes_negative_literal() {
    assert_eq!(lex_all("-3.5"), vec![Token::NumberLiteral(Number { num: -35, den: 10 })]);
}

#[test]
fn lexes_trailing_dot_literal() {
    // a dot with no digits after it still ends the literal
    assert_eq!(lex_all("5."), vec![Token::NumberLiteral(Number { num: 5, den: 1 })]);
}

#[test]
fn lexes_zero_point() {
    assert_eq!(lex_all("0.5"), vec![Token::NumberLiteral(Number { num: 5, den: 10 })]);
}

#[test]
fn minus_without_digit_is_operator() {
    assert_eq!(lex_all("- 3"), vec![
        Token::Minus,
        Token::NumberLiteral(Number { num: 3, den: 1 }),
    ]);
}

#[test]
fn minus_at_end_is_operator() {
    assert_eq!(lex_all("-"), vec![Token::Minus]);
}

#[test]
fn lexes_operators() {
    assert_eq!(lex_all("+ - * /"), vec![Token::Plus, Token::Minus, Token::Asterisk, Token::Slash]);
}

#[test]
fn lexes_string_literal() {
    assert_eq!(lex_all("\"hello\""), vec![Token::StringLiteral(b"hello".to_vec())]);
}

#[test]
fn lexes_empty_string_literal() {
    assert_eq!(lex_all("\"\""), vec![Token::StringLiteral(Vec::new())]);
}

#[test]
fn unterminated_string_takes_rest_of_input() {
    assert_eq!(lex_all("\"abc"), vec![Token::StringLiteral(b"abc".to_vec())]);
}

#[test]
fn string_keeps_whitespace() {
    assert_eq!(lex_all("\"a b\tc\""), vec![Token::StringLiteral(b"a b\tc".to_vec())]);
}

#[test]
fn lexes_booleans() {
    assert_eq!(lex_all("true false"), vec![
        Token::BooleanLiteral(true),
        Token::BooleanLiteral(false),
    ]);
}

#[test]
fn boolean_prefix_words_are_identifiers() {
    // the fallback re-scans from the same start, so the boundaries agree
    assert_eq!(lex_all("trueish falsehood"), vec![
        Token::Identifier(b"trueish".to_vec()),
        Token::Identifier(b"falsehood".to_vec()),
    ]);
}

#[test]
fn boolean_capture_is_the_identifier_shaped_word() {
    // the tentative boolean reads the whole identifier-shaped word, so a
    // digit or underscore after `true` makes it one identifier, not a
    // boolean followed by something else
    assert_eq!(lex_all("true_x"), vec![Token::Identifier(b"true_x".to_vec())]);
    assert_eq!(lex_all("true1"), vec![Token::Identifier(b"true1".to_vec())]);
    assert_eq!(lex_all("f4lse"), vec![Token::Identifier(b"f4lse".to_vec())]);
    assert_eq!(lex_all("t_x"), vec![Token::Identifier(b"t_x".to_vec())]);
    assert_eq!(lex_all("f"), vec![Token::Identifier(b"f".to_vec())]);
}

#[test]
fn lexes_identifiers() {
    assert_eq!(lex_all("print dup_2 _x"), vec![
        Token::Identifier(b"print".to_vec()),
        Token::Identifier(b"dup_2".to_vec()),
        Token::Identifier(b"_x".to_vec()),
    ]);
}

#[test]
fn skips_unknown_characters() {
    assert_eq!(lex_all("# 1 ; 2 !"), vec![
        Token::NumberLiteral(Number { num: 1, den: 1 }),
        Token::NumberLiteral(Number { num: 2, den: 1 }),
    ]);
}

#[test]
fn empty_input_lexes_to_nothing() {
    assert_eq!(lex_all(""), Vec::<Token>::new());
    assert_eq!(lex_all("   \t\n"), Vec::<Token>::new());
}

#[test]
fn next_token_yields_eof_forever() {
    let mut lexer = Lexer::new(b"1".to_vec());
    assert_eq!(lexer.next_token(), Token::NumberLiteral(Number { num: 1, den: 1 }));
    assert_eq!(lexer.next_token(), Token::EOF);
    assert_eq!(lexer.next_token(), Token::EOF);
    assert_eq!(lexer.next_token(), Token::EOF);
}

#[test]
fn skip_whitespace_moves_cursor_to_next_token() {
    let mut lexer = Lexer::new(b"   7".to_vec());
    lexer.skip_whitespace();
    assert_eq!(lexer.position, 3);
    assert_eq!(lexer.next_token(), Token::NumberLiteral(Number { num: 7, den: 1 }));
}

#[test]
fn huge_literal_saturates() {
    // twenty-one nines exceed the representable range; the value saturates
    assert_eq!(lex_all("999999999999999999999"), vec![
        Token::NumberLiteral(Number { num: 1_000_000_000_000_000_000, den: 1 }),
    ]);
}

#[test]
fn lexes_mixed_program() {
    assert_eq!(lex_all("3 4 +"), vec![
        Token::NumberLiteral(Number { num: 3, den: 1 }),
        Token::NumberLiteral(Number { num: 4, den: 1 }),
        Token::Plus,
    ]);
}
