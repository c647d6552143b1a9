//! Regular-expression searches, done by the `regex` crate.

use vstd::prelude::*;
use crate::text::texts;

verus! {

/// The leftmost match of `pattern` in `text`, as the text before it, the
/// match and the text after it; `None` where `text` holds no match or
/// `pattern` is no regular expression.
pub uninterp spec fn first_match(pattern: Seq<char>, text: Seq<char>) -> Option<
    (Seq<char>, Seq<char>, Seq<char>),
>;

/// The matches of `pattern` in `text`, from the left and not overlapping;
/// none where `pattern` is no regular expression.
pub uninterp spec fn all_matches(pattern: Seq<char>, text: Seq<char>) -> Seq<Seq<char>>;

/// `regex::Regex::find` with the expression compiled by `regex::Regex::new`:
/// the leftmost match, cut out of `text` at the offsets of the match, so that
/// the three parts put together are `text` again.
#[verifier::external_body]
pub(crate) fn find_first(pattern: &str, text: &str) -> (found: Option<(String, String, String)>)
    ensures
        match found {
            Some(parts) => first_match(pattern@, text@) == Some((parts.0@, parts.1@, parts.2@))
                && parts.0@ + parts.1@ + parts.2@ == text@,
            None => first_match(pattern@, text@) is None,
        },
{
    let found = regex::Regex::new(pattern).ok()?.find(text)?;
    Some(
        (
            text[..found.start()].to_string(),
            found.as_str().to_string(),
            text[found.end()..].to_string(),
        ),
    )
}

/// `regex::Regex::captures_iter` with the expression compiled by
/// `regex::Regex::new`: the whole text of each match, in order.
#[verifier::external_body]
pub(crate) fn find_all(pattern: &str, text: &str) -> (found: Vec<String>)
    ensures
        texts(found@) == all_matches(pattern@, text@),
{
    match regex::Regex::new(pattern) {
        Ok(expression) => expression.captures_iter(text).map(|c| c[0].to_string()).collect(),
        Err(_) => Vec::new(),
    }
}

} // verus!
