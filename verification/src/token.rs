//! The records that scanning produces: a token and its classification.

use vstd::prelude::*;

verus! {

/// The closed classification of lexemes.
#[derive(Clone, Copy, Debug, PartialEq, Eq, Structural, Hash)]
pub enum TokenType {
    // Single-character punctuation.
    LeftParen,
    RightParen,
    LeftBrace,
    RightBrace,
    Comma,
    Dot,
    Minus,
    Plus,
    Semicolon,
    Slash,
    Star,
    // Operators, each plain and followed by `=`.
    Bang,
    BangEqual,
    Equal,
    EqualEqual,
    Greater,
    GreaterEqual,
    Less,
    LessEqual,
    // The end marker.
    Eof,
}

/// The value carried by a literal token. No token kind carries one yet; the
/// type keeps the place in the record.
#[derive(Clone, Copy, Debug, PartialEq, Eq, Hash)]
pub struct Literal;

/// One classified lexeme.
#[derive(Clone, Debug, PartialEq, Eq)]
pub struct Token {
    /// The class of the lexeme.
    pub kind: TokenType,
    /// The matched source text, owned by the token; empty only for `Eof`.
    pub lexeme: String,
    /// The associated value, absent for every kind that exists so far.
    pub literal: Option<Literal>,
    /// The 1-based line on which the lexeme starts.
    pub line: usize,
}

/// A token as contracts speak of it: the lexeme as a sequence of characters,
/// the line as a natural number.
pub struct TokenModel {
    pub kind: TokenType,
    pub lexeme: Seq<char>,
    pub literal: Option<Literal>,
    pub line: nat,
}

impl View for Token {
    type V = TokenModel;

    open spec fn view(&self) -> TokenModel {
        TokenModel {
            kind: self.kind,
            lexeme: self.lexeme@,
            literal: self.literal,
            line: self.line as nat,
        }
    }
}

/// The models of a sequence of tokens, in the same order.
pub open spec fn token_models(tokens: Seq<Token>) -> Seq<TokenModel> {
    tokens.map_values(|t: Token| t@)
}

impl TokenModel {
    /// The end marker on the given line.
    pub open spec fn eof(line: nat) -> TokenModel {
        TokenModel { kind: TokenType::Eof, lexeme: Seq::empty(), literal: None, line }
    }

    /// A token without literal value.
    pub open spec fn plain(kind: TokenType, lexeme: Seq<char>, line: nat) -> TokenModel {
        TokenModel { kind, lexeme, literal: None, line }
    }
}

impl Token {
    /// Builds a token from its four parts.
    pub fn new(kind: TokenType, lexeme: String, literal: Option<Literal>, line: usize) -> (token:
        Token)
        ensures
            token.kind == kind,
            token.lexeme == lexeme,
            token.literal == literal,
            token.line == line,
            token@ == (TokenModel { kind, lexeme: lexeme@, literal, line: line as nat }),
    {
        Token { kind, lexeme, literal, line }
    }
}

} // verus!
