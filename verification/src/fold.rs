//! Letter case, as the standard library folds it.

use vstd::prelude::*;

verus! {

/// The lowercase form of a text: the text of the string that
/// `str::to_lowercase` returns for a string with this text. The mapping
/// follows the Unicode tables of the standard library and is not spelled
/// out here; contracts use it by name only.
pub uninterp spec fn lowercase_of(text: Seq<char>) -> Seq<char>;

/// `str::to_lowercase` of the standard library. Taken on trust: the text
/// of the returned string depends on the text of the argument alone, and is
/// by definition its lowercase form. Nothing is claimed about what that form
/// looks like.
pub assume_specification[ str::to_lowercase ](s: &str) -> (lowered: String)
    ensures
        lowered@ == lowercase_of(s@),
;

} // verus!
