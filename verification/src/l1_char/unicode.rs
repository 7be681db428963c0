//! Unicode normalization (NFKC).
use vstd::prelude::*;
use unicode_normalization::UnicodeNormalization;

verus! {

/// The NFKC normal form of `s`, as `unicode_normalization` computes it.
pub uninterp spec fn nfkc_of(s: Seq<char>) -> Seq<char>;

/// Applies NFKC (compatibility decomposition, then canonical composition).
///
/// Trusted: calls `UnicodeNormalization::nfkc` of `unicode_normalization` and
/// collects the characters. The contract claims only that the result is the
/// NFKC form of the input, a function of the input alone ([`nfkc_of`]).
#[verifier::external_body]
pub fn nfkc(input: &str) -> (out: String)
    ensures
        out@ == nfkc_of(input@),
{
    input.nfkc().collect()
}

} // verus!
