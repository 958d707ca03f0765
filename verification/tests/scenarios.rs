use lexer::diagnostic::Diagnostic;
use lexer::scanner::Scanner;
use lexer::token::{Token, TokenType};

fn scan(source: &str) -> (Vec<Token>, Vec<Diagnostic>) {
    let mut reports = Vec::new();
    let tokens = Scanner::new(source.to_string()).scan_tokens(&mut reports);
    (tokens, reports)
}

fn token(kind: TokenType, lexeme: &str, line: usize) -> Token {
    Token::new(kind, lexeme.to_string(), None, line)
}

#[test]
fn parentheses_around_plus() {
    let (tokens, reports) = scan("(+)");
    assert_eq!(
        tokens,
        vec![
            token(TokenType::LeftParen, "(", 1),
            token(TokenType::Plus, "+", 1),
            token(TokenType::RightParen, ")", 1),
            token(TokenType::Eof, "", 1),
        ]
    );
    assert!(reports.is_empty());
}

#[test]
fn bang_equal_is_one_token() {
    let (tokens, reports) = scan("!=");
    assert_eq!(
        tokens,
        vec![token(TokenType::BangEqual, "!=", 1), token(TokenType::Eof, "", 1)]
    );
    assert!(reports.is_empty());
}

#[test]
fn bang_alone() {
    let (tokens, reports) = scan("!");
    assert_eq!(
        tokens,
        vec![token(TokenType::Bang, "!", 1), token(TokenType::Eof, "", 1)]
    );
    assert!(reports.is_empty());
}

#[test]
fn comment_gives_no_token() {
    let (tokens, reports) = scan("// comment\n+");
    assert_eq!(
        tokens,
        vec![token(TokenType::Plus, "+", 2), token(TokenType::Eof, "", 2)]
    );
    assert!(reports.is_empty());
}

#[test]
fn unexpected_character_is_reported_once() {
    let (tokens, reports) = scan("@");
    assert_eq!(tokens, vec![token(TokenType::Eof, "", 1)]);
    assert_eq!(reports.len(), 1);
    assert_eq!(reports[0].line, 1);
    assert_eq!(reports[0].place, "");
    assert_eq!(reports[0].message, "Unexpected character.");
}

#[test]
fn multi_byte_character_is_read_whole() {
    let (tokens, reports) = scan("\u{e9}+");
    assert_eq!(
        tokens,
        vec![token(TokenType::Plus, "+", 1), token(TokenType::Eof, "", 1)]
    );
    assert_eq!(reports.len(), 1);
    assert_eq!(reports[0].line, 1);
}

#[test]
fn three_byte_character_is_read_whole() {
    let (tokens, reports) = scan("\u{20ac}!=");
    assert_eq!(
        tokens,
        vec![token(TokenType::BangEqual, "!=", 1), token(TokenType::Eof, "", 1)]
    );
    assert_eq!(reports.len(), 1);
}

#[test]
fn four_byte_character_is_read_whole() {
    let (tokens, reports) = scan("(\u{1f600})");
    assert_eq!(
        tokens,
        vec![
            token(TokenType::LeftParen, "(", 1),
            token(TokenType::RightParen, ")", 1),
            token(TokenType::Eof, "", 1),
        ]
    );
    assert_eq!(reports.len(), 1);
}

#[test]
fn multi_byte_character_on_a_later_line_cites_that_line() {
    let (tokens, reports) = scan("+\n\u{e9}\u{e9}\n-");
    assert_eq!(
        tokens,
        vec![
            token(TokenType::Plus, "+", 1),
            token(TokenType::Minus, "-", 3),
            token(TokenType::Eof, "", 3),
        ]
    );
    assert_eq!(reports.len(), 2);
    assert_eq!(reports[0].line, 2);
    assert_eq!(reports[1].line, 2);
}

#[test]
fn multi_byte_characters_inside_a_comment_are_skipped() {
    let (tokens, reports) = scan("// \u{e9}\u{20ac}\u{1f600}\n*");
    assert_eq!(
        tokens,
        vec![token(TokenType::Star, "*", 2), token(TokenType::Eof, "", 2)]
    );
    assert!(reports.is_empty());
}
