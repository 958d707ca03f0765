use lexer::diagnostic::Diagnostic;
use lexer::error;
use lexer::scanner::Scanner;
use lexer::token::{Literal, Token, TokenType};

fn scan_text(source: &str) -> (Vec<Token>, Vec<Diagnostic>) {
    let mut reports = Vec::new();
    let tokens = Scanner::new(source.to_string()).scan_tokens(&mut reports);
    (tokens, reports)
}

fn kinds(tokens: &[Token]) -> Vec<TokenType> {
    tokens.iter().map(|t| t.kind).collect()
}

fn lexemes(tokens: &[Token]) -> Vec<String> {
    tokens.iter().map(|t| t.lexeme.clone()).collect()
}

fn lines(tokens: &[Token]) -> Vec<usize> {
    tokens.iter().map(|t| t.line).collect()
}

#[test]
fn empty_source_gives_only_the_end_marker() {
    let (tokens, reports) = scan_text("");
    assert_eq!(tokens.len(), 1);
    assert_eq!(tokens[0].kind, TokenType::Eof);
    assert_eq!(tokens[0].lexeme, "");
    assert_eq!(tokens[0].literal, None);
    assert_eq!(tokens[0].line, 1);
    assert!(reports.is_empty());
}

#[test]
fn every_punctuation_character_gives_its_token() {
    let (tokens, reports) = scan_text("(){},.-+;*");
    assert_eq!(
        kinds(&tokens),
        vec![
            TokenType::LeftParen,
            TokenType::RightParen,
            TokenType::LeftBrace,
            TokenType::RightBrace,
            TokenType::Comma,
            TokenType::Dot,
            TokenType::Minus,
            TokenType::Plus,
            TokenType::Semicolon,
            TokenType::Star,
            TokenType::Eof,
        ]
    );
    assert_eq!(
        lexemes(&tokens),
        vec!["(", ")", "{", "}", ",", ".", "-", "+", ";", "*", ""]
    );
    assert_eq!(lines(&tokens), vec![1; 11]);
    assert!(reports.is_empty());
}

#[test]
fn operators_alone() {
    let (tokens, reports) = scan_text("! = < >");
    assert_eq!(
        kinds(&tokens),
        vec![
            TokenType::Bang,
            TokenType::Equal,
            TokenType::Less,
            TokenType::Greater,
            TokenType::Eof,
        ]
    );
    assert_eq!(lexemes(&tokens), vec!["!", "=", "<", ">", ""]);
    assert!(reports.is_empty());
}

#[test]
fn operators_followed_by_equal() {
    let (tokens, reports) = scan_text("!= == <= >=");
    assert_eq!(
        kinds(&tokens),
        vec![
            TokenType::BangEqual,
            TokenType::EqualEqual,
            TokenType::LessEqual,
            TokenType::GreaterEqual,
            TokenType::Eof,
        ]
    );
    assert_eq!(lexemes(&tokens), vec!["!=", "==", "<=", ">=", ""]);
    assert!(reports.is_empty());
}

#[test]
fn equal_signs_pair_up_from_the_left() {
    let (tokens, _) = scan_text("===");
    assert_eq!(
        kinds(&tokens),
        vec![TokenType::EqualEqual, TokenType::Equal, TokenType::Eof]
    );
    assert_eq!(lexemes(&tokens), vec!["==", "=", ""]);
}

#[test]
fn operator_at_the_end_of_the_text_stands_alone() {
    let (tokens, _) = scan_text("(<");
    assert_eq!(
        kinds(&tokens),
        vec![TokenType::LeftParen, TokenType::Less, TokenType::Eof]
    );
    assert_eq!(lexemes(&tokens), vec!["(", "<", ""]);
}

#[test]
fn whitespace_parts_an_operator_from_its_equal() {
    let (tokens, _) = scan_text("! =");
    assert_eq!(
        kinds(&tokens),
        vec![TokenType::Bang, TokenType::Equal, TokenType::Eof]
    );
}

#[test]
fn slash_alone_is_a_token() {
    let (tokens, reports) = scan_text("/");
    assert_eq!(kinds(&tokens), vec![TokenType::Slash, TokenType::Eof]);
    assert_eq!(tokens[0].lexeme, "/");
    assert!(reports.is_empty());
}

#[test]
fn slash_before_another_character_is_a_token() {
    let (tokens, _) = scan_text("/=/ /");
    assert_eq!(
        kinds(&tokens),
        vec![
            TokenType::Slash,
            TokenType::Equal,
            TokenType::Slash,
            TokenType::Slash,
            TokenType::Eof,
        ]
    );
    assert_eq!(lexemes(&tokens), vec!["/", "=", "/", "/", ""]);
}

#[test]
fn comment_runs_to_the_end_of_the_line() {
    let (tokens, reports) = scan_text("+// - * @\n-");
    assert_eq!(
        kinds(&tokens),
        vec![TokenType::Plus, TokenType::Minus, TokenType::Eof]
    );
    assert_eq!(lines(&tokens), vec![1, 2, 2]);
    assert!(reports.is_empty());
}

#[test]
fn comment_at_the_end_of_the_text() {
    let (tokens, reports) = scan_text("+ // no newline behind this");
    assert_eq!(kinds(&tokens), vec![TokenType::Plus, TokenType::Eof]);
    assert_eq!(lines(&tokens), vec![1, 1]);
    assert!(reports.is_empty());
}

#[test]
fn empty_comment() {
    let (tokens, reports) = scan_text("//");
    assert_eq!(kinds(&tokens), vec![TokenType::Eof]);
    assert!(reports.is_empty());
}

#[test]
fn three_slashes_are_a_comment() {
    let (tokens, reports) = scan_text("///\n/");
    assert_eq!(kinds(&tokens), vec![TokenType::Slash, TokenType::Eof]);
    assert_eq!(lines(&tokens), vec![2, 2]);
    assert!(reports.is_empty());
}

#[test]
fn whitespace_gives_no_token() {
    let (tokens, reports) = scan_text(" \t\r+\r\t ");
    assert_eq!(kinds(&tokens), vec![TokenType::Plus, TokenType::Eof]);
    assert_eq!(tokens[0].lexeme, "+");
    assert_eq!(lines(&tokens), vec![1, 1]);
    assert!(reports.is_empty());
}

#[test]
fn newlines_advance_the_line() {
    let (tokens, reports) = scan_text("\n\n+\n-\n");
    assert_eq!(
        kinds(&tokens),
        vec![TokenType::Plus, TokenType::Minus, TokenType::Eof]
    );
    assert_eq!(lines(&tokens), vec![3, 4, 5]);
    assert!(reports.is_empty());
}

#[test]
fn carriage_return_does_not_count_as_a_line() {
    let (tokens, _) = scan_text("+\r\n-\r*");
    assert_eq!(lines(&tokens), vec![1, 2, 2, 2]);
}

#[test]
fn several_unexpected_characters_are_each_reported() {
    let (tokens, reports) = scan_text("@#\n$");
    assert_eq!(kinds(&tokens), vec![TokenType::Eof]);
    assert_eq!(tokens[0].line, 2);
    assert_eq!(reports.len(), 3);
    assert_eq!(reports[0].line, 1);
    assert_eq!(reports[1].line, 1);
    assert_eq!(reports[2].line, 2);
    for report in &reports {
        assert_eq!(report.place, "");
        assert_eq!(report.message, "Unexpected character.");
    }
}

#[test]
fn scanning_goes_on_behind_an_unexpected_character() {
    let (tokens, reports) = scan_text("(@)");
    assert_eq!(
        kinds(&tokens),
        vec![TokenType::LeftParen, TokenType::RightParen, TokenType::Eof]
    );
    assert_eq!(lexemes(&tokens), vec!["(", ")", ""]);
    assert_eq!(reports.len(), 1);
}

#[test]
fn letters_digits_and_quotes_begin_no_lexeme() {
    let (tokens, reports) = scan_text("a1\"_");
    assert_eq!(kinds(&tokens), vec![TokenType::Eof]);
    assert_eq!(reports.len(), 4);
}

#[test]
fn nul_character_is_unexpected() {
    let (tokens, reports) = scan_text("\0+");
    assert_eq!(kinds(&tokens), vec![TokenType::Plus, TokenType::Eof]);
    assert_eq!(reports.len(), 1);
}

#[test]
fn reports_are_added_behind_those_already_filed() {
    let mut reports = vec![error(7, "earlier")];
    let tokens = Scanner::new("@".to_string()).scan_tokens(&mut reports);
    assert_eq!(tokens.len(), 1);
    assert_eq!(reports.len(), 2);
    assert_eq!(reports[0].line, 7);
    assert_eq!(reports[0].message, "earlier");
    assert_eq!(reports[1].line, 1);
    assert_eq!(reports[1].message, "Unexpected character.");
}

#[test]
fn no_token_carries_a_literal() {
    let (tokens, _) = scan_text("(!=)// c\n<= @ /");
    assert!(tokens.iter().all(|t| t.literal.is_none()));
}

#[test]
fn error_builds_a_report_without_place() {
    let report = error(3, "Unexpected character.");
    assert_eq!(report.line, 3);
    assert_eq!(report.place, "");
    assert_eq!(report.message, "Unexpected character.");
    assert_eq!(
        report,
        Diagnostic {
            line: 3,
            place: String::new(),
            message: "Unexpected character.".to_string(),
        }
    );
}

#[test]
fn token_new_keeps_its_parts() {
    let plain = Token::new(TokenType::Comma, ",".to_string(), None, 12);
    assert_eq!(plain.kind, TokenType::Comma);
    assert_eq!(plain.lexeme, ",");
    assert_eq!(plain.literal, None);
    assert_eq!(plain.line, 12);
    let with_literal = Token::new(TokenType::Dot, ".".to_string(), Some(Literal), 1);
    assert_eq!(with_literal.literal, Some(Literal));
}
