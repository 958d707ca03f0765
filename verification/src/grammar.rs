//! The lexical grammar, stated over sequences of characters.
//!
//! A text is read from left to right as a run of lexemes. Each lexeme is fixed
//! by the text that starts at its first character: how many characters it
//! takes, and what it stands for. The tokens and the complaints of a text are
//! what its lexemes give, in order.

use vstd::prelude::*;

use crate::diagnostic::DiagnosticModel;
use crate::token::{TokenModel, TokenType};

verus! {

/// The token that `c` forms by itself, whatever follows it.
pub open spec fn punctuation(c: char) -> Option<TokenType> {
    if c == '(' {
        Some(TokenType::LeftParen)
    } else if c == ')' {
        Some(TokenType::RightParen)
    } else if c == '{' {
        Some(TokenType::LeftBrace)
    } else if c == '}' {
        Some(TokenType::RightBrace)
    } else if c == ',' {
        Some(TokenType::Comma)
    } else if c == '.' {
        Some(TokenType::Dot)
    } else if c == '-' {
        Some(TokenType::Minus)
    } else if c == '+' {
        Some(TokenType::Plus)
    } else if c == ';' {
        Some(TokenType::Semicolon)
    } else if c == '*' {
        Some(TokenType::Star)
    } else {
        None
    }
}

/// For a character that begins an operator: the token it forms alone, and the
/// token it forms together with a following `=`.
pub open spec fn operator(c: char) -> Option<(TokenType, TokenType)> {
    if c == '!' {
        Some((TokenType::Bang, TokenType::BangEqual))
    } else if c == '=' {
        Some((TokenType::Equal, TokenType::EqualEqual))
    } else if c == '<' {
        Some((TokenType::Less, TokenType::LessEqual))
    } else if c == '>' {
        Some((TokenType::Greater, TokenType::GreaterEqual))
    } else {
        None
    }
}

/// Whitespace within a line.
pub open spec fn is_blank(c: char) -> bool {
    c == ' ' || c == '\r' || c == '\t'
}

/// Whether the second character of `s` is `c`.
pub open spec fn followed_by(s: Seq<char>, c: char) -> bool {
    s.len() > 1 && s[1] == c
}

/// The number of characters of `s` before its first newline; all of them
/// where it has none.
pub open spec fn line_rest_len(s: Seq<char>) -> nat
    decreases s.len(),
{
    if s.len() == 0 || s[0] == '\n' {
        0
    } else {
        1 + line_rest_len(s.drop_first())
    }
}

/// What a lexeme stands for.
pub enum LexemeClass {
    /// It gives a token of this kind.
    Symbol(TokenType),
    /// Whitespace within a line.
    Blank,
    /// A newline: the next lexeme starts on the next line.
    LineBreak,
    /// A comment, from `//` up to the end of the line.
    Comment,
    /// A character that begins no lexeme.
    Unexpected,
}

/// The number of characters in the first lexeme of a text that is not empty.
pub open spec fn lexeme_len(s: Seq<char>) -> nat
    recommends
        s.len() > 0,
{
    if operator(s[0]) is Some && followed_by(s, '=') {
        2
    } else if s[0] == '/' && followed_by(s, '/') {
        2 + line_rest_len(s.skip(2))
    } else {
        1
    }
}

/// What the first lexeme of a text that is not empty stands for.
pub open spec fn lexeme_class(s: Seq<char>) -> LexemeClass
    recommends
        s.len() > 0,
{
    let c = s[0];
    if let Some(kind) = punctuation(c) {
        LexemeClass::Symbol(kind)
    } else if let Some((alone, with_equal)) = operator(c) {
        LexemeClass::Symbol(
            if followed_by(s, '=') {
                with_equal
            } else {
                alone
            },
        )
    } else if c == '/' {
        if followed_by(s, '/') {
            LexemeClass::Comment
        } else {
            LexemeClass::Symbol(TokenType::Slash)
        }
    } else if is_blank(c) {
        LexemeClass::Blank
    } else if c == '\n' {
        LexemeClass::LineBreak
    } else {
        LexemeClass::Unexpected
    }
}

/// The line on which the second lexeme of `s` starts, where the first starts
/// on `line`.
pub open spec fn line_after(s: Seq<char>, line: nat) -> nat
    recommends
        s.len() > 0,
{
    if s[0] == '\n' {
        line + 1
    } else {
        line
    }
}

/// The tokens that the first lexeme of `s` gives, on `line`: one or none.
pub open spec fn lexeme_tokens(s: Seq<char>, line: nat) -> Seq<TokenModel>
    recommends
        s.len() > 0,
{
    match lexeme_class(s) {
        LexemeClass::Symbol(kind) => seq![
            TokenModel::plain(kind, s.take(lexeme_len(s) as int), line),
        ],
        _ => Seq::empty(),
    }
}

/// The complaints that the first lexeme of `s` gives, on `line`: one or none.
pub open spec fn lexeme_errors(s: Seq<char>, line: nat) -> Seq<DiagnosticModel>
    recommends
        s.len() > 0,
{
    match lexeme_class(s) {
        LexemeClass::Unexpected => seq![DiagnosticModel::unexpected(line)],
        _ => Seq::empty(),
    }
}

/// A line holds no more characters before its newline than it has.
pub proof fn lemma_line_rest_len_bound(s: Seq<char>)
    ensures
        line_rest_len(s) <= s.len(),
    decreases s.len(),
{
    if s.len() > 0 && s[0] != '\n' {
        lemma_line_rest_len_bound(s.drop_first());
    }
}

/// A lexeme takes at least one character and no more than the text has.
pub proof fn lemma_lexeme_len_bounds(s: Seq<char>)
    requires
        s.len() > 0,
    ensures
        1 <= lexeme_len(s) <= s.len(),
{
    if s[0] == '/' && followed_by(s, '/') {
        lemma_line_rest_len_bound(s.skip(2));
    }
}

/// The tokens of the text `s` that starts on `line`, the end marker last.
pub open spec fn tokens_from(s: Seq<char>, line: nat) -> Seq<TokenModel>
    decreases s.len(),
    via tokens_from_decreases
{
    if s.len() == 0 {
        seq![TokenModel::eof(line)]
    } else {
        lexeme_tokens(s, line) + tokens_from(s.skip(lexeme_len(s) as int), line_after(s, line))
    }
}

#[via_fn]
proof fn tokens_from_decreases(s: Seq<char>, line: nat) {
    if s.len() > 0 {
        lemma_lexeme_len_bounds(s);
    }
}

/// The complaints about the text `s` that starts on `line`.
pub open spec fn errors_from(s: Seq<char>, line: nat) -> Seq<DiagnosticModel>
    decreases s.len(),
    via errors_from_decreases
{
    if s.len() == 0 {
        Seq::empty()
    } else {
        lexeme_errors(s, line) + errors_from(s.skip(lexeme_len(s) as int), line_after(s, line))
    }
}

#[via_fn]
proof fn errors_from_decreases(s: Seq<char>, line: nat) {
    if s.len() > 0 {
        lemma_lexeme_len_bounds(s);
    }
}

/// The tokens of a whole source text.
pub open spec fn tokens_of(text: Seq<char>) -> Seq<TokenModel> {
    tokens_from(text, 1)
}

/// The complaints about a whole source text.
pub open spec fn errors_of(text: Seq<char>) -> Seq<DiagnosticModel> {
    errors_from(text, 1)
}

} // verus!
