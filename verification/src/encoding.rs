//! How the characters of a text relate to the bytes of its UTF-8 encoding.
//!
//! Strings are searched byte by byte, while contracts speak of characters.
//! The lemmas here carry facts from one side to the other.

use vstd::prelude::*;
use vstd::utf8::*;
use crate::text::{occurs_at, occurs_in};

verus! {

/// The encoding of a concatenation is the concatenation of the encodings.
pub proof fn lemma_encode_concat(a: Seq<char>, b: Seq<char>)
    ensures
        encode_utf8(a + b) == encode_utf8(a) + encode_utf8(b),
    decreases a.len(),
{
    if a.len() == 0 {
        assert(a + b =~= b);
    } else {
        assert((a + b).drop_first() =~= a.drop_first() + b);
        lemma_encode_concat(a.drop_first(), b);
    }
}

/// An ASCII character is encoded as the one byte of its own number.
pub proof fn lemma_encode_ascii(c: char)
    requires
        (c as u32) < 0x80,
    ensures
        encode_utf8(seq![c]) == seq![c as u8],
{
    let s = c as u32;
    assert(s as u8 == leading_byte_width_1(s)) by (bit_vector)
        requires
            s < 0x80,
    ;
    assert(seq![c].drop_first() =~= Seq::<char>::empty());
    assert(encode_utf8(seq![c]) =~= encode_scalar(s) + encode_utf8(seq![c].drop_first()));
}

/// The encoding of a non-empty text is non-empty and starts a character.
pub proof fn lemma_encode_nonempty(s: Seq<char>)
    requires
        s.len() > 0,
    ensures
        encode_utf8(s).len() > 0,
        !is_continuation_byte(encode_utf8(s)[0]),
{
    encode_utf8_first_scalar(s);
}

/// A text whose encoding lacks the byte of an ASCII character lacks that
/// character.
pub proof fn lemma_ascii_byte_absent(s: Seq<char>, c: char)
    requires
        (c as u32) < 0x80,
        forall|k: int| 0 <= k < encode_utf8(s).len() ==> encode_utf8(s)[k] != c as u8,
    ensures
        forall|j: int| 0 <= j < s.len() ==> s[j] != c,
{
    assert forall|j: int| 0 <= j < s.len() implies s[j] != c by {
        if s[j] == c {
            let before = s.subrange(0, j);
            let after = s.subrange(j + 1, s.len() as int);
            assert(s =~= before + seq![c] + after);
            lemma_encode_concat(before + seq![c], after);
            lemma_encode_concat(before, seq![c]);
            lemma_encode_ascii(c);
            let at = encode_utf8(before).len() as int;
            assert(encode_utf8(s)[at] == c as u8);
        }
    }
}

/// A text whose encoding is the one byte of an ASCII character is that
/// character alone.
pub proof fn lemma_decode_ascii(s: Seq<char>, c: char)
    requires
        (c as u32) < 0x80,
        encode_utf8(s) == seq![c as u8],
    ensures
        s == seq![c],
{
    lemma_encode_ascii(c);
    encode_utf8_decode_utf8(s);
    encode_utf8_decode_utf8(seq![c]);
}

/// Cutting an encoding at a character boundary cuts the text in two.
pub proof fn lemma_split_at_boundary(whole: Seq<char>, left: Seq<char>, right: Seq<char>, mid: int)
    requires
        is_char_boundary(encode_utf8(whole), mid),
        0 <= mid <= encode_utf8(whole).len(),
        encode_utf8(left) == encode_utf8(whole).subrange(0, mid),
        encode_utf8(right) == encode_utf8(whole).subrange(mid, encode_utf8(whole).len() as int),
    ensures
        whole == left + right,
{
    let bytes = encode_utf8(whole);
    encode_utf8_valid_utf8(whole);
    decode_utf8_split(bytes, mid);
    encode_utf8_decode_utf8(whole);
    encode_utf8_decode_utf8(left);
    encode_utf8_decode_utf8(right);
}

/// Where a well-formed encoding starts with a well-formed encoding, the
/// end of that prefix is a character boundary.
pub proof fn lemma_boundary_after_prefix(head: Seq<u8>, tail: Seq<u8>)
    requires
        valid_utf8(head),
        valid_utf8(head + tail),
    ensures
        is_char_boundary(head + tail, head.len() as int),
    decreases head.len(),
{
    let all = head + tail;
    if head.len() > 0 {
        let width = length_of_first_scalar(head);
        assert(all[0] == head[0]);
        assert(width <= head.len());
        assert(length_of_first_scalar(all) == width);
        assert(pop_first_scalar(all) =~= pop_first_scalar(head) + tail);
        lemma_boundary_after_prefix(pop_first_scalar(head), tail);
    }
}

/// A text occurs in another exactly where its encoding occurs in the
/// other's encoding: to search the bytes is to search the characters.
pub proof fn lemma_utf8_occurrence(needle: Seq<char>, hay: Seq<char>)
    ensures
        occurs_in(encode_utf8(needle), encode_utf8(hay)) <==> occurs_in(needle, hay),
{
    let n = encode_utf8(needle);
    let h = encode_utf8(hay);
    if occurs_in(needle, hay) {
        let at = choose|at: int| occurs_at(needle, hay, at);
        let before = hay.subrange(0, at);
        let after = hay.subrange(at + needle.len(), hay.len() as int);
        assert(hay =~= before + needle + after);
        lemma_encode_concat(before + needle, after);
        lemma_encode_concat(before, needle);
        let pos = encode_utf8(before).len() as int;
        assert(h.subrange(pos, pos + n.len()) =~= n);
        assert(occurs_at(n, h, pos));
    }
    if occurs_in(n, h) {
        if needle.len() == 0 {
            assert(hay.subrange(0, 0) =~= needle);
            assert(occurs_at(needle, hay, 0));
        } else {
            let pos = choose|pos: int| occurs_at(n, h, pos);
            lemma_encode_nonempty(needle);
            encode_utf8_valid_utf8(hay);
            encode_utf8_valid_utf8(needle);
            assert(h[pos] == h.subrange(pos, pos + n.len())[0]);
            is_char_boundary_iff_not_is_continuation_byte(h, pos);
            valid_utf8_split(h, pos);
            let front = h.subrange(0, pos);
            let back = h.subrange(pos, h.len() as int);
            let rest = h.subrange(pos + n.len(), h.len() as int);
            assert(back =~= n + rest);
            lemma_boundary_after_prefix(n, rest);
            valid_utf8_split(back, n.len() as int);
            assert(back.subrange(0, n.len() as int) =~= n);
            assert(back.subrange(n.len() as int, back.len() as int) =~= rest);
            let before = decode_utf8(front);
            let after = decode_utf8(rest);
            decode_utf8_encode_utf8(front);
            decode_utf8_encode_utf8(back);
            decode_utf8_encode_utf8(rest);
            lemma_split_at_boundary(hay, before, decode_utf8(back), pos);
            lemma_split_at_boundary(decode_utf8(back), needle, after, n.len() as int);
            let at = before.len() as int;
            assert(hay =~= before + (needle + after));
            assert(hay.subrange(at, at + needle.len()) =~= needle);
            assert(occurs_at(needle, hay, at));
        }
    }
}

} // verus!
