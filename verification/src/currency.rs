//! Currency codes.

use vstd::prelude::*;

verus! {

/// The upper-case form of a text.
pub uninterp spec fn uppercased(text: Seq<char>) -> Seq<char>;

/// `str::to_uppercase`: the result is the upper-case form of `text`. Taken
/// on trust from the standard library.
#[verifier::external_body]
fn uppercase_of(text: &str) -> (upper: String)
    ensures
        upper@ == uppercased(text@),
{
    text.to_uppercase()
}

/// The code under which a currency is filed: the upper-case form of the
/// code as it was written.
pub fn normalize_currency(code: &str) -> (normal: String)
    ensures
        normal@ == uppercased(code@),
{
    uppercase_of(code)
}

} // verus!
