//! Method names, upper-cased so that lookups ignore case.
use vstd::prelude::*;

verus! {

/// The upper-case form of a string, as `str::to_uppercase` computes it.
pub uninterp spec fn upper_of(s: Seq<char>) -> Seq<char>;

/// Relies on `str::to_uppercase`: the result depends on the characters
/// alone.
#[verifier::external_body]
fn to_uppercase(s: &str) -> (r: String)
    ensures
        r@ == upper_of(s@),
{
    s.to_uppercase()
}

/// The canonical form of a method name, under which routes are stored and
/// looked up.
pub fn normalize_method(method: &str) -> (r: String)
    ensures
        r@ == upper_of(method@),
{
    to_uppercase(method)
}

} // verus!
