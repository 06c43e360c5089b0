//! Cutting a string into its lines.

use vstd::prelude::*;
use vstd::string::StringSliceAdditionalSpecFns;
use vstd::utf8::{
    encode_utf8_valid_utf8, is_char_boundary, is_char_boundary_iff_not_is_continuation_byte,
    is_char_boundary_start_end_of_seq, pop_first_scalar, valid_utf8_split,
};
use crate::encoding::{
    lemma_ascii_byte_absent, lemma_decode_ascii, lemma_encode_ascii, lemma_encode_concat,
    lemma_encode_nonempty, lemma_split_at_boundary,
};
use crate::text::{
    after_first_line, first_line, lemma_line_end_unique, lines_of, without_trailing_cr,
};

verus! {

/// The texts of a sequence of string slices, in the same order.
pub open spec fn texts(items: Seq<&str>) -> Seq<Seq<char>> {
    items.map_values(|item: &str| item@)
}

/// The position of the first byte `wanted` in `bytes`, or the length of
/// `bytes` if there is none.
fn find_byte(bytes: &[u8], wanted: u8) -> (at: usize)
    ensures
        at <= bytes@.len(),
        forall|k: int| 0 <= k < at ==> bytes@[k] != wanted,
        at < bytes@.len() ==> bytes@[at as int] == wanted,
{
    let n: usize = bytes.len();
    let mut at: usize = 0;
    while at < n
        invariant
            at <= n,
            n == bytes@.len(),
            forall|k: int| 0 <= k < at ==> bytes@[k] != wanted,
        decreases n - at,
    {
        if bytes[at] == wanted {
            return at;
        }
        at += 1;
    }
    at
}

/// `line` without one carriage return at its end, if it has one there.
fn strip_carriage_return<'a>(line: &'a str) -> (out: &'a str)
    ensures
        out@ == without_trailing_cr(line@),
{
    let bytes = line.as_bytes();
    let n: usize = bytes.len();
    proof {
        encode_utf8_valid_utf8(line@);
    }
    if n > 0 && bytes[n - 1] == 13 {
        proof {
            is_char_boundary_iff_not_is_continuation_byte(bytes@, n - 1);
        }
        let (head, tail) = line.split_at(n - 1);
        proof {
            assert(tail.spec_bytes() =~= seq!['\r' as u8]);
            lemma_decode_ascii(tail@, '\r');
            lemma_split_at_boundary(line@, head@, tail@, n - 1);
            assert(head@ =~= line@.drop_last());
        }
        head
    } else {
        proof {
            if line@.len() > 0 && line@.last() == '\r' {
                let front = line@.drop_last();
                assert(line@ =~= front + seq!['\r']);
                lemma_encode_concat(front, seq!['\r']);
                lemma_encode_ascii('\r');
                assert(bytes@[n - 1] == 13);
            }
        }
        line
    }
}

/// Cuts the first line off `text`: returns that line, without its
/// terminator, and what follows the terminator. An empty text has no first
/// line.
pub fn split_first_line<'a>(text: &'a str) -> (parts: Option<(&'a str, &'a str)>)
    ensures
        parts is None <==> text@.len() == 0,
        parts matches Some((line, rest)) ==> {
            &&& line@ == first_line(text@)
            &&& rest@ == after_first_line(text@)
        },
{
    if text.is_empty() {
        return None;
    }
    let bytes = text.as_bytes();
    let n: usize = find_byte(bytes, 10);
    proof {
        encode_utf8_valid_utf8(text@);
    }
    if n == bytes.len() {
        proof {
            is_char_boundary_start_end_of_seq(bytes@);
        }
        let (_, rest) = text.split_at(n);
        proof {
            if rest@.len() > 0 {
                lemma_encode_nonempty(rest@);
            }
            lemma_ascii_byte_absent(text@, '\n');
            lemma_line_end_unique(text@, text@.len() as int);
        }
        Some((text, rest))
    } else {
        proof {
            is_char_boundary_iff_not_is_continuation_byte(bytes@, n as int);
            valid_utf8_split(bytes@, n as int);
        }
        let (head, tail) = text.split_at(n);
        proof {
            lemma_split_at_boundary(text@, head@, tail@, n as int);
            encode_utf8_valid_utf8(tail@);
            assert(tail.spec_bytes()[0] == 10);
            assert(is_char_boundary(pop_first_scalar(tail.spec_bytes()), 0));
            assert(is_char_boundary(tail.spec_bytes(), 1));
        }
        let (feed, rest) = tail.split_at(1);
        proof {
            assert(feed.spec_bytes() =~= seq!['\n' as u8]);
            lemma_decode_ascii(feed@, '\n');
            lemma_split_at_boundary(tail@, feed@, rest@, 1);
            lemma_ascii_byte_absent(head@, '\n');
            assert(text@ =~= head@ + seq!['\n'] + rest@);
            lemma_line_end_unique(text@, head@.len() as int);
            assert(text@.subrange(0, head@.len() as int) =~= head@);
            assert(text@.subrange(head@.len() as int + 1, text@.len() as int) =~= rest@);
        }
        let line = strip_carriage_return(head);
        Some((line, rest))
    }
}

/// The lines of `contents`, from top to bottom, each a slice of `contents`.
pub fn lines<'a>(contents: &'a str) -> (out: Vec<&'a str>)
    ensures
        texts(out@) == lines_of(contents@),
{
    let mut out: Vec<&'a str> = Vec::new();
    let mut cursor: &'a str = contents;
    loop
        invariant
            lines_of(contents@) == texts(out@) + lines_of(cursor@),
        ensures
            texts(out@) == lines_of(contents@),
        decreases cursor@.len(),
    {
        match split_first_line(cursor) {
            None => {
                break;
            },
            Some((line, rest)) => {
                proof {
                    assert(texts(out@.push(line)) =~= texts(out@) + seq![line@]);
                }
                out.push(line);
                cursor = rest;
            },
        }
    }
    out
}

} // verus!
