//! The one regular expression of the tokenizer, matched by the `regex` crate.
use vstd::prelude::*;
use regex::Regex;
use crate::text::ends_in_non_space;

verus! {

/// The pattern `\S$`: a character other than white space, at the end of the text.
pub open spec fn non_space_at_end() -> Seq<char> {
    seq!['\\', 'S', '$']
}

/// Taken on trust from the `regex` crate: compiles `pattern` with `regex::Regex::new` and
/// searches `haystack` with `Regex::is_match`. Stated for the pattern `\S$` alone: in the
/// crate's syntax `\S` is any character that Unicode does not mark `White_Space`, and `$`,
/// with no flag set, is the end of the haystack, so there is a match exactly when the
/// haystack ends in a character that is not white space. The pattern is valid, so
/// compiling it succeeds.
#[verifier::external_body]
fn is_match(pattern: &str, haystack: &str) -> (found: bool)
    requires
        pattern@ == non_space_at_end(),
    ensures
        found == ends_in_non_space(haystack@),
{
    Regex::new(pattern).unwrap().is_match(haystack)
}

/// Whether `line` ends in a character other than white space.
pub fn ends_visibly(line: &str) -> (b: bool)
    ensures
        b == ends_in_non_space(line@),
{
    let pattern = "\\S$";
    proof {
        reveal_strlit("\\S$");
        assert(pattern@ =~= non_space_at_end());
    }
    is_match(pattern, line)
}

} // verus!
