//! Lowercasing, which is left to the standard library.

use vstd::prelude::*;

verus! {

/// The lowercase form of a text, as `str::to_lowercase` gives it. It follows
/// the case mappings of Unicode, which are not written out here; it depends
/// on the text alone.
pub uninterp spec fn lowercase_of(text: Seq<char>) -> Seq<char>;

/// `str::to_lowercase`: the lowercase form of `text`, as a new string.
///
/// Nothing is proved of this function. Its contract names the result and
/// adds that the lowercase form of the empty string is empty.
#[verifier::external_body]
pub(crate) fn to_lowercase(text: &str) -> (lowered: String)
    ensures
        lowered@ == lowercase_of(text@),
        text@.len() == 0 ==> lowered@.len() == 0,
{
    text.to_lowercase()
}

} // verus!
