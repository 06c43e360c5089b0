//! The mathematical model of text: occurrences of one sequence in another,
//! and the division of a text into lines.

use vstd::prelude::*;

verus! {

/// `needle` lies in `hay` at offset `at`.
pub open spec fn occurs_at<T>(needle: Seq<T>, hay: Seq<T>, at: int) -> bool {
    &&& 0 <= at
    &&& at + needle.len() <= hay.len()
    &&& hay.subrange(at, at + needle.len()) == needle
}

/// `needle` is a contiguous part of `hay`.
pub open spec fn occurs_in<T>(needle: Seq<T>, hay: Seq<T>) -> bool {
    exists|at: int| occurs_at(needle, hay, at)
}

/// The number of characters before the first line feed of `text`, or the
/// length of `text` if it holds no line feed.
pub open spec fn line_end(text: Seq<char>) -> nat
    decreases text.len(),
{
    if text.len() == 0 || text[0] == '\n' {
        0
    } else {
        1 + line_end(text.drop_first())
    }
}

/// `line` without one carriage return at its end, if it has one there.
pub open spec fn without_trailing_cr(line: Seq<char>) -> Seq<char> {
    if line.len() > 0 && line.last() == '\r' {
        line.drop_last()
    } else {
        line
    }
}

/// The first line of a non-empty `text`.
///
/// A line ends at a line feed, or at a carriage return directly followed by a
/// line feed; the terminator is not part of the line. The last line of a text
/// needs no terminator and is then taken as it stands.
pub open spec fn first_line(text: Seq<char>) -> Seq<char> {
    let n = line_end(text) as int;
    if n < text.len() {
        without_trailing_cr(text.subrange(0, n))
    } else {
        text
    }
}

/// What is left of `text` after its first line and that line's terminator.
pub open spec fn after_first_line(text: Seq<char>) -> Seq<char> {
    let n = line_end(text) as int;
    if n < text.len() {
        text.subrange(n + 1, text.len() as int)
    } else {
        Seq::empty()
    }
}

/// The lines of `text`, from top to bottom.
pub open spec fn lines_of(text: Seq<char>) -> Seq<Seq<char>>
    decreases text.len(),
{
    if text.len() == 0 {
        Seq::empty()
    } else {
        seq![first_line(text)] + lines_of(after_first_line(text))
    }
}

/// `line_end` is the position of the first line feed: nothing before it is a
/// line feed, and it is either a line feed itself or the end of the text.
pub proof fn lemma_line_end(text: Seq<char>)
    ensures
        line_end(text) <= text.len(),
        forall|i: int| 0 <= i < line_end(text) ==> text[i] != '\n',
        line_end(text) < text.len() ==> text[line_end(text) as int] == '\n',
    decreases text.len(),
{
    if text.len() == 0 || text[0] == '\n' {
    } else {
        let rest = text.drop_first();
        lemma_line_end(rest);
        assert forall|i: int| 0 <= i < line_end(text) implies text[i] != '\n' by {
            if i > 0 {
                assert(text[i] == rest[i - 1]);
            }
        }
        assert(line_end(text) < text.len() ==> text[line_end(text) as int] == rest[line_end(rest) as int]);
    }
}

/// A position with no line feed before it, that is the end of the text or
/// holds a line feed, is `line_end`.
pub proof fn lemma_line_end_unique(text: Seq<char>, n: int)
    requires
        0 <= n <= text.len(),
        forall|i: int| 0 <= i < n ==> text[i] != '\n',
        n < text.len() ==> text[n] == '\n',
    ensures
        line_end(text) == n,
{
    lemma_line_end(text);
    let m = line_end(text) as int;
    if m < n {
        assert(text[m] == '\n');
    } else if n < m {
        assert(text[n] != '\n');
    }
}

} // verus!
