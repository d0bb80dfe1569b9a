use stacc::error::EvalError;
use stacc::lexer::{Lexer, Token};

#[test]
fn single_integer_numeral() {
    let mut lx = Lexer::new("42");
    assert_eq!(lx.lex(), Ok(Token::Number(42.0f64.to_bits())));
    assert_eq!(lx.lex(), Ok(Token::Eof));
}

#[test]
fn single_fractional_numeral() {
    let mut lx = Lexer::new("12.5");
    assert_eq!(lx.lex(), Ok(Token::Number(12.5f64.to_bits())));
    assert_eq!(lx.lex(), Ok(Token::Eof));
}

#[test]
fn trailing_dot_numeral() {
    let mut lx = Lexer::new("3.");
    assert_eq!(lx.lex(), Ok(Token::Number(3.0f64.to_bits())));
    assert_eq!(lx.lex(), Ok(Token::Eof));
}

#[test]
fn two_dots_is_parse_error() {
    let mut lx = Lexer::new("1.2.3");
    assert_eq!(
        lx.lex(),
        Err(EvalError::ParseError { span: "1.2.3".to_string() })
    );
    assert_eq!(lx.lex(), Ok(Token::Eof));
}

#[test]
fn lexing_resumes_after_parse_error() {
    let mut lx = Lexer::new("1..2 7");
    assert_eq!(
        lx.lex(),
        Err(EvalError::ParseError { span: "1..2".to_string() })
    );
    assert_eq!(lx.lex(), Ok(Token::Number(7.0f64.to_bits())));
    assert_eq!(lx.lex(), Ok(Token::Eof));
}

#[test]
fn single_word() {
    let mut lx = Lexer::new("foo");
    assert_eq!(lx.lex(), Ok(Token::Word("foo".to_string())));
    assert_eq!(lx.lex(), Ok(Token::Eof));
}

#[test]
fn dot_leading_span_is_a_word() {
    let mut lx = Lexer::new(".5");
    assert_eq!(lx.lex(), Ok(Token::Word(".5".to_string())));
    assert_eq!(lx.lex(), Ok(Token::Eof));
}

#[test]
fn numeral_stops_before_non_numeral_character() {
    let mut lx = Lexer::new("3x");
    assert_eq!(lx.lex(), Ok(Token::Number(3.0f64.to_bits())));
    assert_eq!(lx.lex(), Ok(Token::Word("x".to_string())));
    assert_eq!(lx.lex(), Ok(Token::Eof));
}

#[test]
fn empty_input_yields_only_eof() {
    let mut lx = Lexer::new("");
    assert_eq!(lx.lex(), Ok(Token::Eof));
    assert_eq!(lx.lex(), Ok(Token::Eof));
    assert_eq!(lx.lex(), Ok(Token::Eof));
}

#[test]
fn whitespace_only_input_yields_only_eof() {
    let mut lx = Lexer::new(" \t\r\n ");
    assert_eq!(lx.lex(), Ok(Token::Eof));
    assert_eq!(lx.lex(), Ok(Token::Eof));
}

#[test]
fn tokens_of_a_mixed_line() {
    let mut lx = Lexer::new("  3  4 + ");
    assert_eq!(lx.lex(), Ok(Token::Number(3.0f64.to_bits())));
    assert_eq!(lx.lex(), Ok(Token::Number(4.0f64.to_bits())));
    assert_eq!(lx.lex(), Ok(Token::Word("+".to_string())));
    assert_eq!(lx.lex(), Ok(Token::Eof));
}

#[test]
fn token_at_end_of_input_without_trailing_whitespace() {
    let mut lx = Lexer::new("ab");
    assert_eq!(lx.lex(), Ok(Token::Word("ab".to_string())));
    assert_eq!(lx.lex(), Ok(Token::Eof));
}

#[test]
fn next_folds_eof_and_errors_to_none() {
    let mut lx = Lexer::new("1 2 +");
    assert_eq!(lx.next(), Some(Token::Number(1.0f64.to_bits())));
    assert_eq!(lx.next(), Some(Token::Number(2.0f64.to_bits())));
    assert_eq!(lx.next(), Some(Token::Word("+".to_string())));
    assert_eq!(lx.next(), None);
    let mut bad = Lexer::new("1..2");
    assert_eq!(bad.next(), None);
}
