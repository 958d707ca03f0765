//! The scanner: one walk over the source text that cuts it into lexemes.

use vstd::prelude::*;
use vstd::string::StringSliceAdditionalSpecFns;
use vstd::utf8::*;

use crate::diagnostic::{diagnostic_models, Diagnostic};
use crate::error;
use crate::grammar::{
    errors_from, errors_of, lemma_lexeme_len_bounds, lexeme_errors, lexeme_len, lexeme_tokens,
    line_after, line_rest_len, tokens_from, tokens_of,
};
use crate::laws::{law_token_lines_ascend, law_tokens_end_with_eof};
use crate::text::{
    boundaries, byte_len, chars_between, lemma_boundary_within, lemma_chars_byte_len,
    lemma_chars_split, lemma_next_char, utf8_width,
};
use crate::token::{token_models, Literal, Token, TokenModel, TokenType};

verus! {

/// The state of a scanner as contracts speak of it.
pub struct ScannerModel {
    /// The whole source text.
    pub text: Seq<char>,
    /// The tokens emitted so far, oldest first.
    pub tokens: Seq<TokenModel>,
    /// The 1-based line of the next unread character.
    pub line: nat,
    /// The byte offset at which the lexeme in progress starts.
    pub start: nat,
    /// The byte offset of the next unread character.
    pub current: nat,
}

impl ScannerModel {
    /// The state in which a scan of `text` begins.
    pub open spec fn fresh(text: Seq<char>) -> ScannerModel {
        ScannerModel { text, tokens: Seq::empty(), line: 1, start: 0, current: 0 }
    }

    /// The source text as the bytes that the offsets count.
    pub open spec fn bytes(self) -> Seq<u8> {
        encode_utf8(self.text)
    }

    /// Both offsets lie on character boundaries of the text, `start` not
    /// behind `current`, and lines are counted from 1.
    pub open spec fn wf(self) -> bool {
        &&& boundaries(self.bytes(), self.start as int, self.current as int)
        &&& self.line >= 1
    }

    /// Whether nothing is left to read.
    pub open spec fn at_end(self) -> bool {
        self.current >= self.bytes().len()
    }

    /// The characters of the lexeme in progress: those between the offsets.
    pub open spec fn pending(self) -> Seq<char> {
        chars_between(self.bytes(), self.start as int, self.current as int)
    }

    /// The characters not read yet.
    pub open spec fn unread(self) -> Seq<char> {
        chars_between(self.bytes(), self.current as int, self.bytes().len() as int)
    }

    /// The state after reading the character `c`.
    pub open spec fn advanced(self, c: char) -> ScannerModel {
        ScannerModel { current: self.current + utf8_width(c), ..self }
    }

    /// The state after emitting the lexeme in progress as a token.
    pub open spec fn emitted(self, kind: TokenType, literal: Option<Literal>) -> ScannerModel {
        ScannerModel {
            tokens: self.tokens.push(
                TokenModel { kind, lexeme: self.pending(), literal, line: self.line },
            ),
            ..self
        }
    }

    /// The state after recognising the first lexeme of the unread text, from
    /// a state in which no lexeme is in progress.
    pub open spec fn stepped(self) -> ScannerModel {
        let lexeme = self.unread().take(lexeme_len(self.unread()) as int);
        ScannerModel {
            tokens: self.tokens + lexeme_tokens(self.unread(), self.line),
            line: line_after(self.unread(), self.line),
            current: self.current + byte_len(lexeme),
            ..self
        }
    }

    /// At the start of a scan the state is well formed, no lexeme is in
    /// progress, and the whole text is unread.
    pub proof fn lemma_fresh(text: Seq<char>)
        ensures
            ScannerModel::fresh(text).wf(),
            ScannerModel::fresh(text).pending() == Seq::<char>::empty(),
            ScannerModel::fresh(text).unread() == text,
    {
        let fresh = ScannerModel::fresh(text);
        let bytes = fresh.bytes();
        encode_utf8_valid_utf8(text);
        encode_utf8_decode_utf8(text);
        assert(bytes.subrange(0, bytes.len() as int) =~= bytes);
        fresh.lemma_pending_bytes();
    }

    /// The lexeme in progress takes the bytes between the two offsets.
    pub proof fn lemma_pending_bytes(self)
        requires
            self.wf(),
        ensures
            byte_len(self.pending()) == self.current - self.start,
            self.start == self.current ==> self.pending() == Seq::<char>::empty(),
    {
        lemma_chars_byte_len(self.bytes(), self.start as int, self.current as int);
        if self.start == self.current {
            assert(byte_len(self.pending()) == 0);
            assert(self.pending() =~= Seq::<char>::empty());
        }
    }

    /// Reading the next character moves it from the unread text to the lexeme
    /// in progress.
    pub proof fn lemma_advanced(self)
        requires
            self.wf(),
            !self.at_end(),
        ensures
            self.unread().len() > 0,
            self.advanced(self.unread()[0]).wf(),
            self.advanced(self.unread()[0]).unread() == self.unread().drop_first(),
            self.advanced(self.unread()[0]).pending() == self.pending().push(self.unread()[0]),
    {
        let bytes = self.bytes();
        let c = self.unread()[0];
        let end = self.current + utf8_width(c);
        lemma_next_char(bytes, self.current as int);
        lemma_chars_split(bytes, self.start as int, self.current as int, end as int);
    }

    /// The text is at its end exactly when no character is unread.
    pub proof fn lemma_at_end(self)
        requires
            self.wf(),
        ensures
            self.at_end() <==> self.unread().len() == 0,
            self.at_end() <==> self.current == self.bytes().len(),
    {
        if !self.at_end() {
            self.lemma_advanced();
        } else {
            assert(self.bytes().subrange(self.current as int, self.bytes().len() as int)
                =~= Seq::<u8>::empty());
        }
    }
}

/// A scanner: the source text it owns, the tokens emitted so far, and the
/// cursor.
pub struct Scanner {
    source: String,
    tokens: Vec<Token>,
    line: usize,
    start: usize,
    current: usize,
}

impl View for Scanner {
    type V = ScannerModel;

    closed spec fn view(&self) -> ScannerModel {
        ScannerModel {
            text: self.source@,
            tokens: token_models(self.tokens@),
            line: self.line as nat,
            start: self.start as nat,
            current: self.current as nat,
        }
    }
}

impl Scanner {
    /// The state is well formed, the text is short enough for a count of its
    /// lines, and no more lines were counted than bytes were read.
    pub closed spec fn wf(&self) -> bool {
        &&& self@.wf()
        &&& self@.bytes().len() < usize::MAX
        &&& self.line <= self.current + 1
    }

    /// A scanner at the start of `source`.
    pub fn new(source: String) -> (scanner: Self)
        requires
            byte_len(source@) < usize::MAX,
        ensures
            scanner.wf(),
            scanner@ == ScannerModel::fresh(source@),
            scanner@.unread() == source@,
    {
        proof {
            ScannerModel::lemma_fresh(source@);
            assert(token_models(Seq::<Token>::empty()) =~= Seq::<TokenModel>::empty());
        }
        Self { source, tokens: Vec::new(), start: 0, current: 0, line: 1 }
    }

    /// Whether the cursor stands at the end of the text.
    fn is_at_end(&self) -> (at_end: bool)
        requires
            self.wf(),
        ensures
            at_end == self@.at_end(),
            at_end == (self@.unread().len() == 0),
            at_end == (self@.current == self@.bytes().len()),
    {
        proof {
            self@.lemma_at_end();
        }
        self.current >= self.source.as_str().len()
    }

    /// The next unread character, or `'\0'` at the end of the text.
    fn peek(&self) -> (c: char)
        requires
            self.wf(),
        ensures
            c == (if self@.at_end() {
                '\0'
            } else {
                self@.unread()[0]
            }),
    {
        if self.is_at_end() {
            return '\0';
        }
        proof {
            self@.lemma_advanced();
        }
        let (_, rest) = self.source.as_str().split_at(self.current);
        proof {
            encode_utf8_decode_utf8(rest@);
        }
        rest.chars().next().expect("Peeking out of bounds")
    }

    /// Reads the next character and moves the cursor behind it.
    fn advance(&mut self) -> (c: char)
        requires
            old(self).wf(),
            !old(self)@.at_end(),
        ensures
            final(self).wf(),
            old(self)@.unread().len() > 0,
            c == old(self)@.unread()[0],
            final(self)@ == old(self)@.advanced(c),
            final(self)@.unread() == old(self)@.unread().drop_first(),
            final(self)@.pending() == old(self)@.pending().push(c),
    {
        proof {
            self@.lemma_advanced();
        }
        let (_, rest) = self.source.as_str().split_at(self.current);
        proof {
            encode_utf8_decode_utf8(rest@);
        }
        let c = rest.chars().next().expect("Advancing out of bounds");
        self.current += c.len_utf8();
        c
    }

    /// Reads the next character if it is `expected`; reads nothing otherwise.
    fn advance_if(&mut self, expected: char) -> (matched: bool)
        requires
            old(self).wf(),
        ensures
            final(self).wf(),
            matched == (!old(self)@.at_end() && old(self)@.unread()[0] == expected),
            matched ==> final(self)@ == old(self)@.advanced(expected),
            matched ==> final(self)@.unread() == old(self)@.unread().drop_first(),
            matched ==> final(self)@.pending() == old(self)@.pending().push(expected),
            !matched ==> final(self)@ == old(self)@,
    {
        if self.is_at_end() {
            return false;
        }
        proof {
            self@.lemma_advanced();
        }
        let (_, rest) = self.source.as_str().split_at(self.current);
        proof {
            encode_utf8_decode_utf8(rest@);
        }
        let c = rest.chars().next().expect("Advancing out of bounds");
        if c != expected {
            return false;
        }
        self.current += c.len_utf8();
        true
    }

    /// Emits the lexeme in progress as a token of the given kind.
    fn add_token(&mut self, token_type: TokenType, literal: Option<Literal>)
        requires
            old(self).wf(),
        ensures
            final(self).wf(),
            final(self)@ == old(self)@.emitted(token_type, literal),
    {
        proof {
            lemma_boundary_within(self@.bytes(), 0, self.start as int, self.current as int);
        }
        let (head, _) = self.source.as_str().split_at(self.current);
        let (_, text) = head.split_at(self.start);
        proof {
            encode_utf8_decode_utf8(text@);
            assert(head.spec_bytes().subrange(self.start as int, head.spec_bytes().len() as int)
                =~= self@.bytes().subrange(self.start as int, self.current as int));
        }
        let token = Token::new(token_type, text.to_owned(), literal, self.line);
        assert(token@.lexeme == self@.pending());
        proof {
            self.tokens@.lemma_push_map_commute(|t: Token| t@, token);
        }
        self.tokens.push(token);
    }

    /// Recognises the lexeme that starts at the cursor: reads it, and emits
    /// its token or files the complaint about it, if it gives either.
    fn scan_token(&mut self, reports: &mut Vec<Diagnostic>)
        requires
            old(self).wf(),
            !old(self)@.at_end(),
            old(self)@.start == old(self)@.current,
        ensures
            final(self).wf(),
            final(self)@ == old(self)@.stepped(),
            final(self)@.unread() == old(self)@.unread().skip(
                lexeme_len(old(self)@.unread()) as int,
            ),
            final(self)@.pending() == old(self)@.unread().take(
                lexeme_len(old(self)@.unread()) as int,
            ),
            diagnostic_models(final(reports)@) == diagnostic_models(old(reports)@) + lexeme_errors(
                old(self)@.unread(),
                old(self)@.line,
            ),
    {
        let ghost before = self@;
        let ghost unread = self@.unread();
        proof {
            before.lemma_pending_bytes();
            before.lemma_advanced();
        }
        let c = self.advance();
        proof {
            self@.lemma_at_end();
            assert(self@.pending() =~= unread.take(1));
            assert(self@.unread() =~= unread.skip(1));
            if !self@.at_end() {
                self@.lemma_advanced();
            }
        }
        match c {
            '(' => self.add_token(TokenType::LeftParen, None),
            ')' => self.add_token(TokenType::RightParen, None),
            '{' => self.add_token(TokenType::LeftBrace, None),
            '}' => self.add_token(TokenType::RightBrace, None),
            ',' => self.add_token(TokenType::Comma, None),
            '.' => self.add_token(TokenType::Dot, None),
            '-' => self.add_token(TokenType::Minus, None),
            '+' => self.add_token(TokenType::Plus, None),
            ';' => self.add_token(TokenType::Semicolon, None),
            '*' => self.add_token(TokenType::Star, None),
            '!' => {
                let tt = if self.advance_if('=') {
                    TokenType::BangEqual
                } else {
                    TokenType::Bang
                };
                self.add_token(tt, None);
            },
            '=' => {
                let tt = if self.advance_if('=') {
                    TokenType::EqualEqual
                } else {
                    TokenType::Equal
                };
                self.add_token(tt, None);
            },
            '<' => {
                let tt = if self.advance_if('=') {
                    TokenType::LessEqual
                } else {
                    TokenType::Less
                };
                self.add_token(tt, None);
            },
            '>' => {
                let tt = if self.advance_if('=') {
                    TokenType::GreaterEqual
                } else {
                    TokenType::Greater
                };
                self.add_token(tt, None);
            },
            '/' => {
                if self.advance_if('/') {
                    let ghost mut read: int = 2;
                    proof {
                        assert(self@.pending() =~= unread.take(2));
                        assert(self@.unread() =~= unread.skip(2));
                    }
                    while !self.is_at_end() && self.peek() != '\n'
                        invariant
                            self.wf(),
                            self@ == (ScannerModel { current: self@.current, ..before }),
                            2 <= read <= unread.len(),
                            self@.pending() == unread.take(read),
                            self@.unread() == unread.skip(read),
                            line_rest_len(unread.skip(2)) == read - 2 + line_rest_len(
                                unread.skip(read),
                            ),
                        decreases unread.len() - read,
                    {
                        proof {
                            self@.lemma_advanced();
                            assert(unread.skip(read).drop_first() =~= unread.skip(read + 1));
                            assert(unread.take(read).push(unread[read]) =~= unread.take(read + 1));
                        }
                        self.advance();
                        proof {
                            read = read + 1;
                        }
                    }
                } else {
                    self.add_token(TokenType::Slash, None);
                }
            },
            ' ' | '\r' | '\t' => {},
            '\n' => self.line += 1,
            _ => reports.push(error(self.line, "Unexpected character.")),
        }
        proof {
            let after = self@;
            let n = lexeme_len(unread) as int;
            after.lemma_pending_bytes();
            assert(after.pending() =~= unread.take(n));
            assert(after.unread() =~= unread.skip(n));
            assert(after.tokens =~= before.tokens + lexeme_tokens(unread, before.line));
            assert(diagnostic_models(reports@) =~= diagnostic_models(old(reports)@)
                + lexeme_errors(unread, before.line));
        }
    }

    /// Scans the text to its end and hands back all tokens, the end marker
    /// last. The complaints about characters that begin no lexeme are added
    /// to `reports`, in the order of the text.
    ///
    /// For a scanner as `new` makes it, the tokens are `tokens_of` the source
    /// text and the complaints added are `errors_of` it. Of the tokens that
    /// the call adds, the last is the end marker, which has no lexeme and
    /// occurs only there, and their line numbers never fall.
    pub fn scan_tokens(self, reports: &mut Vec<Diagnostic>) -> (tokens: Vec<Token>)
        requires
            self.wf(),
        ensures
            token_models(tokens@) == self@.tokens + tokens_from(self@.unread(), self@.line),
            diagnostic_models(final(reports)@) == diagnostic_models(old(reports)@) + errors_from(
                self@.unread(),
                self@.line,
            ),
            self@ == ScannerModel::fresh(self@.text) ==> {
                &&& token_models(tokens@) == tokens_of(self@.text)
                &&& diagnostic_models(final(reports)@) == diagnostic_models(old(reports)@)
                    + errors_of(self@.text)
            },
            tokens@.len() > self@.tokens.len(),
            tokens@.last().kind == TokenType::Eof,
            tokens@.last().lexeme@ == Seq::<char>::empty(),
            forall|i: int|
                self@.tokens.len() <= i < tokens@.len() - 1 ==> (#[trigger] tokens@[i]).kind
                    != TokenType::Eof,
            forall|i: int, j: int|
                self@.tokens.len() <= i <= j < tokens@.len() ==> (#[trigger] tokens@[i]).line
                    <= (#[trigger] tokens@[j]).line,
    {
        let ghost before = self@;
        let ghost filed = diagnostic_models(reports@);
        proof {
            ScannerModel::lemma_fresh(before.text);
            assert(Seq::<TokenModel>::empty() + tokens_of(before.text) =~= tokens_of(before.text));
        }
        let mut scanner = self;
        while !scanner.is_at_end()
            invariant
                scanner.wf(),
                scanner@.tokens + tokens_from(scanner@.unread(), scanner@.line) == before.tokens
                    + tokens_from(before.unread(), before.line),
                diagnostic_models(reports@) + errors_from(scanner@.unread(), scanner@.line) == filed
                    + errors_from(before.unread(), before.line),
            decreases scanner@.unread().len(),
        {
            let ghost tokens = scanner@.tokens;
            let ghost unread = scanner@.unread();
            let ghost line = scanner@.line;
            let ghost reported = diagnostic_models(reports@);
            scanner.start = scanner.current;
            proof {
                lemma_lexeme_len_bounds(unread);
            }
            scanner.scan_token(reports);
            proof {
                let rest = unread.skip(lexeme_len(unread) as int);
                let next = line_after(unread, line);
                assert(scanner@.tokens + tokens_from(rest, next) =~= tokens + (lexeme_tokens(
                    unread,
                    line,
                ) + tokens_from(rest, next)));
                assert(diagnostic_models(reports@) + errors_from(rest, next) =~= reported + (
                lexeme_errors(unread, line) + errors_from(rest, next)));
            }
        }
        let eof = Token::new(TokenType::Eof, String::new(), None, scanner.line);
        proof {
            scanner.tokens@.lemma_push_map_commute(|t: Token| t@, eof);
        }
        scanner.tokens.push(eof);
        proof {
            let scanned = tokens_from(before.unread(), before.line);
            let models = token_models(scanner.tokens@);
            law_tokens_end_with_eof(before.unread(), before.line);
            law_token_lines_ascend(before.unread(), before.line);
            assert(models =~= before.tokens + scanned);
            assert forall|i: int| before.tokens.len() <= i < models.len() implies (
            #[trigger] scanner.tokens@[i])@ == scanned[i - before.tokens.len()] by {
                assert(models[i] == scanner.tokens@[i]@);
            }
        }
        scanner.tokens
    }
}

} // verus!
