//! Replacement of text patterns, used to lay out the XML files the editor
//! writes.

use vstd::prelude::*;

verus! {

/// `s` with every occurrence of `from` replaced by `to`, occurrences being
/// found from the left and not overlapping.
pub open spec fn replace_all(s: Seq<char>, from: Seq<char>, to: Seq<char>) -> Seq<char>
    decreases s.len(),
{
    if from.len() == 0 || s.len() < from.len() {
        s
    } else if s.subrange(0, from.len() as int) == from {
        to + replace_all(s.subrange(from.len() as int, s.len() as int), from, to)
    } else {
        seq![s[0]] + replace_all(s.subrange(1, s.len() as int), from, to)
    }
}

/// Calls `str::replace`, which replaces all matches of the pattern `from`
/// with `to`; matches are found from the left and do not overlap. The
/// contract is stated for a non-empty pattern only.
#[verifier::external_body]
pub(crate) fn replace_str(s: &str, from: &str, to: &str) -> (r: String)
    requires
        from@.len() > 0,
    ensures
        r@ == replace_all(s@, from@, to@),
{
    s.replace(from, to)
}

} // verus!
