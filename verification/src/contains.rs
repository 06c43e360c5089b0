//! Substring containment on strings, decided on their bytes.

use vstd::prelude::*;
use vstd::string::StringSliceAdditionalSpecFns;
use crate::encoding::lemma_utf8_occurrence;
use crate::text::{occurs_at, occurs_in};

verus! {

/// Whether `needle` lies in `hay` at offset `at`.
fn bytes_match_at(hay: &[u8], needle: &[u8], at: usize) -> (found: bool)
    requires
        at + needle@.len() <= hay@.len(),
    ensures
        found == occurs_at(needle@, hay@, at as int),
{
    let n: usize = needle.len();
    let total: usize = hay.len();
    let mut j: usize = 0;
    while j < n
        invariant
            j <= n,
            n == needle@.len(),
            total == hay@.len(),
            at + n <= total,
            forall|k: int| 0 <= k < j ==> hay@[at + k] == needle@[k],
        decreases n - j,
    {
        if hay[at + j] != needle[j] {
            proof {
                let part = hay@.subrange(at as int, at + needle@.len());
                assert(part[j as int] == hay@[at + j]);
            }
            return false;
        }
        j += 1;
    }
    proof {
        assert(hay@.subrange(at as int, at + needle@.len()) =~= needle@);
    }
    true
}

/// Whether `needle` is a contiguous part of `hay`.
fn bytes_contain(hay: &[u8], needle: &[u8]) -> (found: bool)
    ensures
        found == occurs_in(needle@, hay@),
{
    if needle.len() > hay.len() {
        return false;
    }
    let last: usize = hay.len() - needle.len();
    let mut at: usize = 0;
    loop
        invariant
            at <= last,
            last == hay@.len() - needle@.len(),
            forall|k: int| 0 <= k < at ==> !occurs_at(needle@, hay@, k),
        decreases last - at,
    {
        if bytes_match_at(hay, needle, at) {
            return true;
        }
        if at == last {
            return false;
        }
        at += 1;
    }
}

/// Whether the text of `needle` is a contiguous part of the text of
/// `haystack`. The empty text is part of every text. The strings are
/// compared byte by byte, which finds exactly the occurrences of the
/// characters.
pub fn contains(haystack: &str, needle: &str) -> (found: bool)
    ensures
        found == occurs_in(needle@, haystack@),
{
    proof {
        lemma_utf8_occurrence(needle@, haystack@);
    }
    bytes_contain(haystack.as_bytes(), needle.as_bytes())
}

/// Whether two strings hold the same text.
pub fn same_text(a: &str, b: &str) -> (same: bool)
    ensures
        same == (a@ == b@),
{
    let x = a.as_bytes();
    let y = b.as_bytes();
    proof {
        vstd::utf8::encode_utf8_decode_utf8(a@);
        vstd::utf8::encode_utf8_decode_utf8(b@);
    }
    if x.len() != y.len() {
        return false;
    }
    let same = bytes_match_at(x, y, 0);
    proof {
        assert(x@.subrange(0, x@.len() as int) =~= x@);
    }
    same
}

} // verus!
