//! Byte offsets into UTF-8 text, and the characters between them.
//!
//! A `String` is addressed by byte offsets, while the grammar speaks of
//! characters. The lemmas here carry facts from one side to the other: what
//! lies between two character boundaries is a run of whole characters.

use vstd::prelude::*;
use vstd::utf8::*;

verus! {

/// The number of bytes that `c` takes in UTF-8: one for a code point of up
/// to seven bits, two for up to eleven, three for up to sixteen, else four.
pub open spec fn utf8_width(c: char) -> nat {
    let code = c as u32;
    if code <= 0x7F {
        1
    } else if code <= 0x7FF {
        2
    } else if code <= 0xFFFF {
        3
    } else {
        4
    }
}

/// `char::len_utf8` of std, which is documented to return the number of bytes
/// that the character needs when it is encoded in UTF-8. This is believed,
/// not proved.
pub assume_specification[ char::len_utf8 ](c: char) -> (n: usize)
    ensures
        n == utf8_width(c),
;

/// The number of bytes that `text` takes in UTF-8.
pub open spec fn byte_len(text: Seq<char>) -> nat {
    encode_utf8(text).len()
}

/// The characters that the bytes from offset `from` up to offset `to` encode.
pub open spec fn chars_between(bytes: Seq<u8>, from: int, to: int) -> Seq<char> {
    decode_utf8(bytes.subrange(from, to))
}

/// Two character boundaries of a text, the first not behind the second.
pub open spec fn boundaries(bytes: Seq<u8>, from: int, to: int) -> bool {
    &&& valid_utf8(bytes)
    &&& 0 <= from <= to <= bytes.len()
    &&& is_char_boundary(bytes, from)
    &&& is_char_boundary(bytes, to)
}

/// The width of a character is the number of bytes of its encoding.
pub proof fn lemma_utf8_width(c: char)
    ensures
        utf8_width(c) == encode_scalar(c as u32).len(),
        utf8_width(c) == byte_len(seq![c]),
{
    char_is_scalar(c);
    lemma_single_char(c);
}

/// A single character encodes to its own bytes and decodes from them.
pub proof fn lemma_single_char(c: char)
    ensures
        encode_utf8(seq![c]) == encode_scalar(c as u32),
        decode_utf8(encode_scalar(c as u32)) == seq![c],
{
    let s = seq![c];
    assert(s.drop_first() =~= Seq::<char>::empty());
    assert(encode_utf8(s) =~= encode_scalar(c as u32)) by {
        reveal_with_fuel(encode_utf8, 2);
    }
    encode_utf8_decode_utf8(s);
}

/// What lies between two character boundaries is valid UTF-8 by itself.
pub proof fn lemma_valid_between(bytes: Seq<u8>, from: int, to: int)
    requires
        boundaries(bytes, from, to),
    ensures
        valid_utf8(bytes.subrange(from, to)),
{
    lemma_boundary_within(bytes, from, from, to);
}

/// A character boundary of the text between two others is one of the part
/// between them.
pub proof fn lemma_boundary_within(bytes: Seq<u8>, from: int, mid: int, to: int)
    requires
        boundaries(bytes, from, mid),
        boundaries(bytes, mid, to),
    ensures
        valid_utf8(bytes.subrange(from, to)),
        is_char_boundary(bytes.subrange(from, to), mid - from),
{
    let part = bytes.subrange(from, to);
    if from == 0 {
        valid_utf8_split(bytes, to);
    } else {
        valid_utf8_split(bytes, from);
        let tail = bytes.subrange(from, bytes.len() as int);
        lemma_boundary_in_tail(bytes, from, to);
        valid_utf8_split(tail, to - from);
        assert(tail.subrange(0, to - from) =~= part);
    }
    if mid < to {
        is_char_boundary_iff_not_is_continuation_byte(bytes, mid);
        is_char_boundary_iff_not_is_continuation_byte(part, mid - from);
    } else {
        is_char_boundary_start_end_of_seq(part);
    }
}

/// A character boundary behind another is one of the text from that other on.
pub proof fn lemma_boundary_in_tail(bytes: Seq<u8>, from: int, to: int)
    requires
        boundaries(bytes, from, to),
    ensures
        valid_utf8(bytes.subrange(from, bytes.len() as int)),
        is_char_boundary(bytes.subrange(from, bytes.len() as int), to - from),
{
    let tail = bytes.subrange(from, bytes.len() as int);
    valid_utf8_split(bytes, from);
    if to < bytes.len() {
        is_char_boundary_iff_not_is_continuation_byte(bytes, to);
        is_char_boundary_iff_not_is_continuation_byte(tail, to - from);
    } else {
        is_char_boundary_start_end_of_seq(tail);
    }
}

/// The characters between two boundaries are those up to a boundary between
/// them, followed by those from it on.
pub proof fn lemma_chars_split(bytes: Seq<u8>, from: int, mid: int, to: int)
    requires
        boundaries(bytes, from, mid),
        boundaries(bytes, mid, to),
    ensures
        chars_between(bytes, from, to) == chars_between(bytes, from, mid) + chars_between(
            bytes,
            mid,
            to,
        ),
{
    let part = bytes.subrange(from, to);
    lemma_boundary_within(bytes, from, mid, to);
    decode_utf8_split(part, mid - from);
    assert(part.subrange(0, mid - from) =~= bytes.subrange(from, mid));
    assert(part.subrange(mid - from, part.len() as int) =~= bytes.subrange(mid, to));
}

/// The characters between two boundaries take as many bytes as lie between.
pub proof fn lemma_chars_byte_len(bytes: Seq<u8>, from: int, to: int)
    requires
        boundaries(bytes, from, to),
    ensures
        encode_utf8(chars_between(bytes, from, to)) == bytes.subrange(from, to),
        encode_utf8(chars_between(bytes, from, to)).len() == to - from,
{
    lemma_valid_between(bytes, from, to);
    decode_utf8_encode_utf8(bytes.subrange(from, to));
}

/// Behind a character boundary that is not the end of the text stands a whole
/// character: the next boundary lies behind its bytes.
pub proof fn lemma_next_char(bytes: Seq<u8>, at: int)
    requires
        boundaries(bytes, at, at),
        at < bytes.len(),
    ensures
        ({
            let rest = chars_between(bytes, at, bytes.len() as int);
            let end = at + utf8_width(rest[0]);
            &&& rest.len() > 0
            &&& boundaries(bytes, at, end)
            &&& chars_between(bytes, at, end) == seq![rest[0]]
            &&& chars_between(bytes, end, bytes.len() as int) == rest.drop_first()
        }),
{
    let len = bytes.len() as int;
    let tail = bytes.subrange(at, len);
    valid_utf8_split(bytes, at);
    assert(valid_first_scalar(tail) && valid_utf8(pop_first_scalar(tail)));
    let c = decode_first_scalar(tail) as char;
    let width = length_of_first_scalar(tail);
    let after = pop_first_scalar(tail);
    let rest = decode_utf8(tail);
    assert(rest == seq![c] + decode_utf8(after));
    assert(rest[0] == c);
    assert(rest.drop_first() =~= decode_utf8(after));
    decode_utf8_first_scalar(tail);
    assert(take_first_scalar(tail).len() == width);
    lemma_utf8_width(c);
    assert(utf8_width(c) == width);
    let end = at + width;
    assert(after =~= bytes.subrange(end, len));
    assert(take_first_scalar(tail) =~= bytes.subrange(at, end));
    lemma_single_char(c);
    if end < len {
        assert(after.len() > 0);
        assert(valid_first_scalar(after));
        assert(after[0] == bytes[end]);
        is_char_boundary_iff_is_leading_byte(bytes, end);
    } else {
        is_char_boundary_start_end_of_seq(bytes);
    }
}

} // verus!
