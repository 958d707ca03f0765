//! What holds of every scan: the shape of the token sequence, the pieces
//! into which a scan cuts its text, and the lines it counts.

use vstd::prelude::*;

use crate::diagnostic::DiagnosticModel;
use crate::grammar::{
    errors_from, errors_of, lemma_lexeme_len_bounds, lexeme_class, lexeme_len, line_after,
    line_rest_len, tokens_from, tokens_of, LexemeClass,
};
use crate::token::{TokenModel, TokenType};

verus! {

/// The tokens of a text end with the end marker, which has no lexeme and
/// occurs nowhere else; every other token has a lexeme, and none has a
/// literal value.
pub proof fn law_tokens_end_with_eof(s: Seq<char>, line: nat)
    ensures
        tokens_from(s, line).len() >= 1,
        tokens_from(s, line).last().kind == TokenType::Eof,
        tokens_from(s, line).last().lexeme == Seq::<char>::empty(),
        forall|i: int|
            0 <= i < tokens_from(s, line).len() - 1 ==> {
                &&& (#[trigger] tokens_from(s, line)[i]).kind != TokenType::Eof
                &&& tokens_from(s, line)[i].lexeme.len() >= 1
            },
        forall|i: int|
            0 <= i < tokens_from(s, line).len() ==> (#[trigger] tokens_from(
                s,
                line,
            )[i]).literal is None,
    decreases s.len(),
{
    if s.len() > 0 {
        lemma_lexeme_len_bounds(s);
        law_tokens_end_with_eof(s.skip(lexeme_len(s) as int), line_after(s, line));
    }
}

/// Line numbers never fall along the tokens of a text, and none lies before
/// the line on which the text starts.
pub proof fn law_token_lines_ascend(s: Seq<char>, line: nat)
    ensures
        forall|i: int|
            0 <= i < tokens_from(s, line).len() ==> line <= (#[trigger] tokens_from(
                s,
                line,
            )[i]).line,
        forall|i: int, j: int|
            0 <= i <= j < tokens_from(s, line).len() ==> (#[trigger] tokens_from(s, line)[i]).line
                <= (#[trigger] tokens_from(s, line)[j]).line,
    decreases s.len(),
{
    if s.len() > 0 {
        lemma_lexeme_len_bounds(s);
        law_token_lines_ascend(s.skip(lexeme_len(s) as int), line_after(s, line));
    }
}

/// The test for a newline character.
pub open spec fn is_newline() -> spec_fn(char) -> bool {
    |c: char| c == '\n'
}

/// The number of newline characters in `s`.
pub open spec fn newlines(s: Seq<char>) -> nat {
    s.filter(is_newline()).len()
}

/// One lexeme of a text, with where it stands.
pub struct Piece {
    /// What the lexeme stands for.
    pub class: LexemeClass,
    /// The number of characters of the text before the lexeme.
    pub start: nat,
    /// The characters of the lexeme.
    pub text: Seq<char>,
    /// The 1-based line on which the lexeme starts.
    pub line: nat,
}

impl Piece {
    /// The number of characters of the text up to the end of the lexeme.
    pub open spec fn end(self) -> nat {
        self.start + self.text.len()
    }

    /// The token that a lexeme of class `Symbol` gives.
    pub open spec fn token(self) -> TokenModel
        recommends
            self.class is Symbol,
    {
        TokenModel::plain(self.class->0, self.text, self.line)
    }

    /// The complaint that a lexeme of class `Unexpected` gives.
    pub open spec fn complaint(self) -> DiagnosticModel
        recommends
            self.class is Unexpected,
    {
        DiagnosticModel::unexpected(self.line)
    }
}

/// The first lexeme of the text `s`, which is not empty, stands behind
/// `start` characters, and starts on `line`.
pub open spec fn first_piece(s: Seq<char>, start: nat, line: nat) -> Piece
    recommends
        s.len() > 0,
{
    Piece { class: lexeme_class(s), start, text: s.take(lexeme_len(s) as int), line }
}

/// The lexemes of the text `s`, which stands behind `start` characters and
/// starts on `line`.
pub open spec fn pieces_from(s: Seq<char>, start: nat, line: nat) -> Seq<Piece>
    decreases s.len(),
    via pieces_from_decreases
{
    if s.len() == 0 {
        Seq::empty()
    } else {
        seq![first_piece(s, start, line)] + pieces_from(
            s.skip(lexeme_len(s) as int),
            start + lexeme_len(s),
            line_after(s, line),
        )
    }
}

#[via_fn]
proof fn pieces_from_decreases(s: Seq<char>, start: nat, line: nat) {
    if s.len() > 0 {
        lemma_lexeme_len_bounds(s);
    }
}

/// The lexemes of a whole source text.
pub open spec fn pieces(text: Seq<char>) -> Seq<Piece> {
    pieces_from(text, 0, 1)
}

/// The test for a lexeme that gives a token.
pub open spec fn gives_token() -> spec_fn(Piece) -> bool {
    |p: Piece| p.class is Symbol
}

/// The test for a lexeme that gives a complaint.
pub open spec fn gives_complaint() -> spec_fn(Piece) -> bool {
    |p: Piece| p.class is Unexpected
}

/// The characters of each lexeme, in order.
pub open spec fn texts(ps: Seq<Piece>) -> Seq<Seq<char>> {
    ps.map_values(|p: Piece| p.text)
}

/// The tokens of the lexemes that give one, in order.
pub open spec fn symbols(ps: Seq<Piece>) -> Seq<TokenModel> {
    ps.filter(gives_token()).map_values(|p: Piece| p.token())
}

/// The complaints of the lexemes that give one, in order.
pub open spec fn complaints(ps: Seq<Piece>) -> Seq<DiagnosticModel> {
    ps.filter(gives_complaint()).map_values(|p: Piece| p.complaint())
}

/// No newline stands among the characters that `line_rest_len` counts.
pub proof fn lemma_line_rest_has_no_newline(s: Seq<char>, i: int)
    requires
        0 <= i < line_rest_len(s),
    ensures
        i < s.len(),
        s[i] != '\n',
    decreases s.len(),
{
    if i > 0 {
        lemma_line_rest_has_no_newline(s.drop_first(), i - 1);
    }
}

/// The newlines of two texts put together are those of both.
pub proof fn lemma_newlines_add(a: Seq<char>, b: Seq<char>)
    ensures
        newlines(a + b) == newlines(a) + newlines(b),
{
    Seq::filter_distributes_over_add(a, b, is_newline());
}

/// A text without a newline character has no newlines.
pub proof fn lemma_newlines_none(s: Seq<char>)
    requires
        forall|i: int| 0 <= i < s.len() ==> s[i] != '\n',
    ensures
        newlines(s) == 0,
{
    let found = s.filter(is_newline());
    if found.len() > 0 {
        s.lemma_filter_pred(is_newline(), 0);
        assert(found.contains(found[0]));
        s.lemma_filter_contains_rev(is_newline(), found[0]);
    }
}

/// A lexeme holds a newline only where it is one.
pub proof fn lemma_lexeme_newlines(s: Seq<char>)
    requires
        s.len() > 0,
    ensures
        newlines(s.take(lexeme_len(s) as int)) == (if s[0] == '\n' {
            1nat
        } else {
            0nat
        }),
{
    let n = lexeme_len(s) as int;
    let lexeme = s.take(n);
    lemma_lexeme_len_bounds(s);
    if s[0] == '\n' {
        assert(lexeme =~= Seq::<char>::empty().push('\n'));
        assert(newlines(lexeme) == 1) by {
            reveal_with_fuel(Seq::filter, 2);
        }
    } else {
        assert forall|i: int| 0 <= i < lexeme.len() implies lexeme[i] != '\n' by {
            if i >= 2 {
                lemma_line_rest_has_no_newline(s.skip(2), i - 2);
            }
        }
        lemma_newlines_none(lexeme);
    }
}

/// The line behind the first lexeme of a text and the newlines of the rest
/// give the newlines of the whole.
pub proof fn lemma_newlines_step(s: Seq<char>, line: nat)
    requires
        s.len() > 0,
    ensures
        line_after(s, line) + newlines(s.skip(lexeme_len(s) as int)) == line + newlines(s),
{
    let n = lexeme_len(s) as int;
    lemma_lexeme_len_bounds(s);
    lemma_lexeme_newlines(s);
    lemma_newlines_add(s.take(n), s.skip(n));
    assert(s.take(n) + s.skip(n) =~= s);
}

/// The lexemes of a text, put together in order, are the text.
pub proof fn law_pieces_join(s: Seq<char>, start: nat, line: nat)
    ensures
        texts(pieces_from(s, start, line)).flatten() == s,
    decreases s.len(),
{
    if s.len() > 0 {
        let n = lexeme_len(s);
        let rest = pieces_from(s.skip(n as int), start + n, line_after(s, line));
        lemma_lexeme_len_bounds(s);
        law_pieces_join(s.skip(n as int), start + n, line_after(s, line));
        let all = texts(pieces_from(s, start, line));
        assert(all.first() == s.take(n as int));
        assert(all.drop_first() =~= texts(rest));
        assert(s.take(n as int) + s.skip(n as int) =~= s);
    }
}

/// The tokens of a text are those of its lexemes that give one, in order,
/// and then the end marker, on the line behind the last newline.
pub proof fn law_pieces_give_tokens(s: Seq<char>, start: nat, line: nat)
    ensures
        tokens_from(s, line) == symbols(pieces_from(s, start, line)).push(
            TokenModel::eof(line + newlines(s)),
        ),
    decreases s.len(),
{
    let eof = TokenModel::eof(line + newlines(s));
    if s.len() == 0 {
        assert(newlines(s) == 0) by {
            lemma_newlines_none(s);
        }
        assert(Seq::<Piece>::empty().filter(gives_token()) =~= Seq::<Piece>::empty()) by {
            Seq::<Piece>::empty().lemma_filter_len(gives_token());
        }
        assert(tokens_from(s, line) =~= symbols(pieces_from(s, start, line)).push(eof));
    } else {
        let n = lexeme_len(s);
        let first = first_piece(s, start, line);
        let rest = pieces_from(s.skip(n as int), start + n, line_after(s, line));
        lemma_lexeme_len_bounds(s);
        lemma_newlines_step(s, line);
        law_pieces_give_tokens(s.skip(n as int), start + n, line_after(s, line));
        rest.lemma_filter_prepend(first, gives_token());
        assert(tokens_from(s, line) =~= symbols(pieces_from(s, start, line)).push(eof));
    }
}

/// The complaints about a text are those of its lexemes that give one, in
/// order.
pub proof fn law_pieces_give_errors(s: Seq<char>, start: nat, line: nat)
    ensures
        errors_from(s, line) == complaints(pieces_from(s, start, line)),
    decreases s.len(),
{
    if s.len() == 0 {
        assert(Seq::<Piece>::empty().filter(gives_complaint()) =~= Seq::<Piece>::empty()) by {
            Seq::<Piece>::empty().lemma_filter_len(gives_complaint());
        }
        assert(errors_from(s, line) =~= complaints(pieces_from(s, start, line)));
    } else {
        let n = lexeme_len(s);
        let first = first_piece(s, start, line);
        let rest = pieces_from(s.skip(n as int), start + n, line_after(s, line));
        lemma_lexeme_len_bounds(s);
        law_pieces_give_errors(s.skip(n as int), start + n, line_after(s, line));
        rest.lemma_filter_prepend(first, gives_complaint());
        assert(errors_from(s, line) =~= complaints(pieces_from(s, start, line)));
    }
}

/// Where each lexeme of a text stands: the lexemes follow one another
/// without gap from the first character to the last, each is the stretch of
/// the text between its start and its end, and each starts on the line that
/// the newlines before it make.
pub proof fn law_piece_places(s: Seq<char>, start: nat, line: nat, i: int)
    requires
        0 <= i < pieces_from(s, start, line).len(),
    ensures
        ({
            let ps = pieces_from(s, start, line);
            let at = ps[i].start - start;
            &&& start <= ps[i].start < ps[i].end() <= start + s.len()
            &&& ps[i].text == s.subrange(at, at + ps[i].text.len())
            &&& ps[i] == first_piece(s.skip(at), ps[i].start, ps[i].line)
            &&& ps[i].line == line + newlines(s.take(at))
            &&& i == 0 ==> ps[i].start == start
            &&& i + 1 < ps.len() ==> ps[i + 1].start == ps[i].end()
            &&& i + 1 == ps.len() ==> ps[i].end() == start + s.len()
        }),
    decreases s.len(),
{
    let ps = pieces_from(s, start, line);
    let n = lexeme_len(s) as int;
    let tail = s.skip(n);
    let rest = pieces_from(tail, (start + n) as nat, line_after(s, line));
    lemma_lexeme_len_bounds(s);
    assert(ps =~= seq![first_piece(s, start, line)] + rest);
    if i == 0 {
        assert(s.skip(0) =~= s);
        assert(s.take(0) =~= Seq::<char>::empty());
        lemma_newlines_none(s.take(0));
        assert(s.take(n) =~= s.subrange(0, n));
        if rest.len() > 0 {
            law_piece_places(tail, (start + n) as nat, line_after(s, line), 0);
        } else {
            assert(tail.len() == 0);
        }
    } else {
        law_piece_places(tail, (start + n) as nat, line_after(s, line), i - 1);
        let at = ps[i].start - start;
        let len = ps[i].text.len() as int;
        assert(ps[i] == rest[i - 1]);
        assert(tail.subrange(at - n, at - n + len) =~= s.subrange(at, at + len));
        assert(tail.skip(at - n) =~= s.skip(at));
        assert(s.take(at) =~= s.take(n) + tail.take(at - n));
        lemma_newlines_add(s.take(n), tail.take(at - n));
        lemma_lexeme_newlines(s);
    }
}

/// A scan cuts its text into lexemes: put together they are the text, those
/// that give a token give the tokens before the end marker, one each and in
/// order, and those that give a complaint give the complaints.
pub proof fn law_scan_cuts_text(text: Seq<char>)
    ensures
        texts(pieces(text)).flatten() == text,
        tokens_of(text) == symbols(pieces(text)).push(TokenModel::eof(1 + newlines(text))),
        tokens_of(text).len() - 1 == pieces(text).filter(gives_token()).len(),
        errors_of(text) == complaints(pieces(text)),
        errors_of(text).len() == pieces(text).filter(gives_complaint()).len(),
{
    law_pieces_join(text, 0, 1);
    law_pieces_give_tokens(text, 0, 1);
    law_pieces_give_errors(text, 0, 1);
}

/// Where a text holds no character that the scan complains about, every
/// lexeme of it either is the lexeme of a token or is whitespace, a newline
/// or a comment: the lexemes of the tokens, in order, with whitespace,
/// newlines and comments put back in their places, are the text.
pub proof fn law_clean_text_is_tokens_and_layout(text: Seq<char>)
    requires
        errors_of(text).len() == 0,
    ensures
        texts(pieces(text)).flatten() == text,
        tokens_of(text).drop_last() == symbols(pieces(text)),
        tokens_of(text).len() - 1 == pieces(text).filter(gives_token()).len(),
        forall|i: int|
            0 <= i < pieces(text).len() ==> {
                ||| (#[trigger] pieces(text)[i]).class is Symbol
                ||| pieces(text)[i].class is Blank
                ||| pieces(text)[i].class is LineBreak
                ||| pieces(text)[i].class is Comment
            },
{
    let ps = pieces(text);
    law_scan_cuts_text(text);
    assert(tokens_of(text).drop_last() =~= symbols(ps));
    assert forall|i: int| 0 <= i < ps.len() implies !(#[trigger] ps[i].class is Unexpected) by {
        if ps[i].class is Unexpected {
            ps.lemma_filter_contains(gives_complaint(), i);
        }
    }
}

/// The line of a lexeme is one more than the number of newlines before its
/// start, and the lexeme is the stretch of the text from its start to its
/// end.
pub proof fn law_piece_line_counts_newlines(text: Seq<char>, i: int)
    requires
        0 <= i < pieces(text).len(),
    ensures
        ({
            let piece = pieces(text)[i];
            &&& piece.end() <= text.len()
            &&& piece.text == text.subrange(piece.start as int, piece.end() as int)
            &&& piece.line == 1 + newlines(text.take(piece.start as int))
        }),
{
    law_piece_places(text, 0, 1, i);
}

/// Every token before the end marker is the token of a lexeme of the text,
/// and so stands on the line that the newlines before its lexeme make; the
/// end marker stands on the line that all newlines of the text make.
pub proof fn law_token_line_counts_newlines(text: Seq<char>, k: int)
    requires
        0 <= k < tokens_of(text).len(),
    ensures
        k == tokens_of(text).len() - 1 ==> tokens_of(text)[k] == TokenModel::eof(
            1 + newlines(text),
        ),
        k < tokens_of(text).len() - 1 ==> exists|i: int|
            {
                &&& 0 <= i < pieces(text).len()
                &&& (#[trigger] pieces(text)[i]).class is Symbol
                &&& tokens_of(text)[k] == pieces(text)[i].token()
                &&& tokens_of(text)[k].lexeme == text.subrange(
                    pieces(text)[i].start as int,
                    pieces(text)[i].end() as int,
                )
                &&& tokens_of(text)[k].line == 1 + newlines(
                    text.take(pieces(text)[i].start as int),
                )
            },
{
    let ps = pieces(text);
    let kept = ps.filter(gives_token());
    law_scan_cuts_text(text);
    if k < tokens_of(text).len() - 1 {
        assert(tokens_of(text)[k] == kept[k].token());
        ps.lemma_filter_pred(gives_token(), k);
        assert(kept.contains(kept[k]));
        ps.lemma_filter_contains_rev(gives_token(), kept[k]);
        let i = choose|i: int| 0 <= i < ps.len() && ps[i] == kept[k];
        law_piece_line_counts_newlines(text, i);
    }
}

} // verus!
