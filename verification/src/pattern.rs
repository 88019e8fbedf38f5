//! Searching a text with a regular expression.

use crate::screen::{Error, ErrorView};
use crate::text::texts;
use regex::Regex;
use vstd::prelude::*;

verus! {

/// What a search for `pattern` finds in `text`: nothing at all where the
/// pattern is no regular expression; else the matches, one after the other
/// and none overlapping another, each as the list of its groups, of which the
/// first is the whole match.
pub uninterp spec fn regex_captures(pattern: Seq<char>, text: Seq<char>) -> Option<
    Seq<Seq<Seq<char>>>,
>;

/// The texts of a list of matches, group by group.
pub open spec fn groups(found: Seq<Vec<String>>) -> Seq<Seq<Seq<char>>> {
    Seq::new(found.len(), |i: int| texts(found[i]@))
}

/// Compiles `pattern` with `regex::Regex::new` and walks `text` with
/// `Regex::captures_iter`. The contract claims no more than that the outcome
/// depends on the two texts alone: nothing where the pattern does not
/// compile, else the matches in the order in which the iterator yields them,
/// each with the text of every group in the order of `Captures::iter`; a
/// group that took no part in the match is given as the empty text.
#[verifier::external_body]
fn captures(pattern: &str, text: &str) -> (found: Option<Vec<Vec<String>>>)
    ensures
        match found {
            Some(lines) => regex_captures(pattern@, text@) == Some(groups(lines@)),
            None => regex_captures(pattern@, text@) is None,
        },
{
    let expression = Regex::new(pattern).ok()?;
    let mut lines = Vec::new();
    for found in expression.captures_iter(text) {
        let mut line = Vec::new();
        for group in found.iter() {
            line.push(group.map_or(String::new(), |part| part.as_str().to_string()));
        }
        lines.push(line);
    }
    Some(lines)
}

/// What a search for `pattern` finds in `text`, or that the pattern is none.
pub open spec fn search_result(pattern: Seq<char>, text: Seq<char>) -> Result<
    Seq<Seq<Seq<char>>>,
    ErrorView,
> {
    match regex_captures(pattern, text) {
        Some(found) => Ok(found),
        None => Err(ErrorView::InvalidPattern(pattern)),
    }
}

/// Searches `text` for `pattern`: the matches, one after the other, each as
/// the list of its groups; `InvalidPattern` with the pattern where it is no
/// regular expression.
pub fn search(pattern: &str, text: &str) -> (out: Result<Vec<Vec<String>>, Error>)
    ensures
        match out {
            Ok(found) => search_result(pattern@, text@) == Ok::<Seq<Seq<Seq<char>>>, ErrorView>(
                groups(found@),
            ),
            Err(error) => search_result(pattern@, text@) == Err::<Seq<Seq<Seq<char>>>, ErrorView>(
                error@,
            ),
        },
{
    match captures(pattern, text) {
        Some(found) => Ok(found),
        None => Err(Error::InvalidPattern(pattern.to_owned())),
    }
}

} // verus!
