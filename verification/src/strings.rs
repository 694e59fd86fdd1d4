//! Strings seen as bytes.
//!
//! A shaping buffer addresses its text by byte offset, so the contracts of
//! the editing side speak of the UTF-8 bytes of a string rather than of its
//! characters. This module holds the bridge between the two.

use vstd::prelude::*;
use vstd::string::*;
use vstd::utf8::*;

verus! {

/// The UTF-8 bytes of a text.
#[verifier::opaque]
pub open spec fn text_bytes(text: Seq<char>) -> Seq<u8> {
    encode_utf8(text)
}

/// `at` is a place where `bytes` may be cut without splitting a character.
pub open spec fn is_cut(bytes: Seq<u8>, at: int) -> bool {
    0 <= at <= bytes.len() && is_char_boundary(bytes, at)
}

/// Encoding a concatenation is concatenating the encodings.
pub proof fn lemma_text_bytes_concat(a: Seq<char>, b: Seq<char>)
    ensures
        text_bytes(a + b) == text_bytes(a) + text_bytes(b),
    decreases a.len(),
{
    reveal(text_bytes);
    if a.len() == 0 {
        assert(a + b =~= b);
        assert(text_bytes(a) + text_bytes(b) =~= text_bytes(b));
    } else {
        lemma_text_bytes_concat(a.drop_first(), b);
        assert((a + b).drop_first() =~= a.drop_first() + b);
        assert((a + b)[0] == a[0]);
        assert(text_bytes(a + b) =~= text_bytes(a) + text_bytes(b));
    }
}

/// Two texts with the same bytes are the same text.
pub proof fn lemma_text_bytes_injective(a: Seq<char>, b: Seq<char>)
    requires
        text_bytes(a) == text_bytes(b),
    ensures
        a == b,
{
    lemma_text_of_bytes(a);
    lemma_text_of_bytes(b);
}

/// Decoding the bytes of a text gives the text.
pub proof fn lemma_text_of_bytes(text: Seq<char>)
    ensures
        decode_utf8(text_bytes(text)) == text,
        valid_utf8(text_bytes(text)),
{
    reveal(text_bytes);
    encode_utf8_decode_utf8(text);
    encode_utf8_valid_utf8(text);
}

/// A text may be cut at its start and at its end.
pub proof fn lemma_ends_are_cuts(text: Seq<char>)
    ensures
        is_cut(text_bytes(text), 0),
        is_cut(text_bytes(text), text_bytes(text).len() as int),
{
    lemma_text_of_bytes(text);
    is_char_boundary_start_end_of_seq(text_bytes(text));
}

/// The empty text has no bytes.
pub proof fn lemma_text_bytes_empty()
    ensures
        text_bytes(Seq::<char>::empty()) == Seq::<u8>::empty(),
{
    reveal(text_bytes);
    assert(text_bytes(Seq::<char>::empty()) =~= Seq::<u8>::empty());
}

/// A cut of the whole is a cut of every prefix that reaches it.
pub proof fn lemma_cut_in_prefix(bytes: Seq<u8>, from: int, to: int)
    requires
        valid_utf8(bytes),
        is_cut(bytes, from),
        is_cut(bytes, to),
        from <= to,
    ensures
        valid_utf8(bytes.subrange(0, to)),
        is_cut(bytes.subrange(0, to), from),
{
    valid_utf8_split(bytes, to);
    let head = bytes.subrange(0, to);
    if from == to {
        is_char_boundary_start_end_of_seq(head);
    } else {
        is_char_boundary_iff_not_is_continuation_byte(bytes, from);
        is_char_boundary_iff_not_is_continuation_byte(head, from);
    }
}

/// Number of bytes in `s`.
pub fn byte_len(s: &str) -> (n: usize)
    ensures
        n == text_bytes(s@).len(),
{
    proof {
        reveal(text_bytes);
    }
    s.as_bytes().len()
}

/// Whether `s` may be cut at byte `at`.
pub fn can_cut(s: &str, at: usize) -> (ok: bool)
    ensures
        ok == is_cut(text_bytes(s@), at as int),
{
    proof {
        reveal(text_bytes);
        encode_utf8_valid_utf8(s@);
        if at as int > text_bytes(s@).len() {
            lemma_no_boundary_past_end(text_bytes(s@), at as int);
        }
    }
    s.is_char_boundary(at)
}

proof fn lemma_no_boundary_past_end(bytes: Seq<u8>, at: int)
    requires
        valid_utf8(bytes),
        at > bytes.len(),
    ensures
        !is_char_boundary(bytes, at),
    decreases bytes.len(),
{
    if bytes.len() > 0 {
        let rest = pop_first_scalar(bytes);
        let width = length_of_first_scalar(bytes);
        assert(rest.len() == bytes.len() - width);
        lemma_no_boundary_past_end(rest, at - width);
    }
}

/// The part of `s` between two cuts.
pub fn substring<'a>(s: &'a str, from: usize, to: usize) -> (part: &'a str)
    requires
        from <= to,
        is_cut(text_bytes(s@), from as int),
        is_cut(text_bytes(s@), to as int),
    ensures
        text_bytes(part@) == text_bytes(s@).subrange(from as int, to as int),
{
    proof {
        reveal(text_bytes);
        encode_utf8_valid_utf8(s@);
        lemma_cut_in_prefix(text_bytes(s@), from as int, to as int);
    }
    let (head, _) = s.split_at(to);
    let (_, part) = head.split_at(from);
    assert(text_bytes(part@) =~= text_bytes(s@).subrange(from as int, to as int));
    part
}

/// Appends `piece` to `acc`.
pub fn push_text(acc: &mut String, piece: &str)
    ensures
        final(acc)@ == old(acc)@ + piece@,
        text_bytes(final(acc)@) == text_bytes(old(acc)@) + text_bytes(piece@),
{
    proof {
        lemma_text_bytes_concat(acc@, piece@);
    }
    acc.append(piece);
}

} // verus!
