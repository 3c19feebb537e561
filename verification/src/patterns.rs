//! Regular expressions.

use vstd::prelude::*;

verus! {

/// What the groups of a regular expression match in a text, leftmost match first;
/// group 0 is the whole match.  `None` without a match, or if the pattern is no
/// regular expression.
pub uninterp spec fn captured(pattern: Seq<char>, text: Seq<char>) -> Option<
    Seq<Option<Seq<char>>>,
>;

/// The texts of groups.
pub open spec fn group_texts(groups: Seq<Option<String>>) -> Seq<Option<Seq<char>>> {
    Seq::new(
        groups.len(),
        |i: int|
            match groups[i] {
                Some(text) => Some(text@),
                None => None,
            },
    )
}

/// The texts of the groups of a match.
pub open spec fn match_texts(found: Option<Vec<Option<String>>>) -> Option<
    Seq<Option<Seq<char>>>,
> {
    match found {
        Some(groups) => Some(group_texts(groups@)),
        None => None,
    }
}

/// Matches a text with `regex::Regex::captures` and copies what each group holds.
/// The result depends on the pattern and the text alone; which texts a pattern
/// matches is left unsaid: that is the business of the pattern language.
#[verifier::external_body]
pub(crate) fn find_captures(pattern: &str, text: &str) -> (found: Option<Vec<Option<String>>>)
    ensures
        match_texts(found) == captured(pattern@, text@),
{
    let expression = regex::Regex::new(pattern).ok()?;
    let captures = expression.captures(text)?;
    Some(captures.iter().map(|group| group.map(|m| m.as_str().to_owned())).collect())
}

} // verus!
