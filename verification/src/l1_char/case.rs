//! Upper / lower case of letters.
//!
//! Search indexes and comparisons often fold case; display should not, so the
//! choice is left to the use.
use vstd::prelude::*;

verus! {

/// How letter case is treated.
#[derive(Debug, Clone, Copy, PartialEq, Eq, Structural)]
pub enum CaseAction {
    /// Unchanged.
    Keep,
    /// Lower case (Unicode lowercase mapping).
    Lower,
    /// Upper case.
    Upper,
}

impl Default for CaseAction {
    fn default() -> (r: Self)
        ensures
            r == CaseAction::Keep,
    {
        CaseAction::Keep
    }
}

/// `s` under Unicode's full lowercase mapping, as `str::to_lowercase` computes it.
pub uninterp spec fn lowercase_of(s: Seq<char>) -> Seq<char>;

/// `s` under Unicode's full uppercase mapping, as `str::to_uppercase` computes it.
pub uninterp spec fn uppercase_of(s: Seq<char>) -> Seq<char>;

/// Trusted: calls std's `str::to_lowercase`. The contract claims only that the
/// result depends on the input alone ([`lowercase_of`]).
#[verifier::external_body]
fn to_lower(s: &str) -> (out: String)
    ensures
        out@ == lowercase_of(s@),
{
    s.to_lowercase()
}

/// Trusted: calls std's `str::to_uppercase`. The contract claims only that the
/// result depends on the input alone ([`uppercase_of`]).
#[verifier::external_body]
fn to_upper(s: &str) -> (out: String)
    ensures
        out@ == uppercase_of(s@),
{
    s.to_uppercase()
}

/// What [`process`] returns for each action.
pub open spec fn process_spec(s: Seq<char>, action: CaseAction) -> Seq<char> {
    match action {
        CaseAction::Keep => s,
        CaseAction::Lower => lowercase_of(s),
        CaseAction::Upper => uppercase_of(s),
    }
}

/// Converts letter case as `action` says.
pub fn process(input: &str, action: CaseAction) -> (out: String)
    ensures
        out@ == process_spec(input@, action),
{
    match action {
        CaseAction::Keep => input.to_owned(),
        CaseAction::Lower => to_lower(input),
        CaseAction::Upper => to_upper(input),
    }
}

} // verus!
