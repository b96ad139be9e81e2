//! Regular expressions, as the `regex` crate understands them.

use vstd::prelude::*;

use crate::apis::search::{page_cards, CARD_PATTERN};
use crate::text::pair_views;

verus! {

/// The text of the first capturing group in the leftmost match of a pattern; none where the
/// pattern is not valid, does not match, or the group takes no part in the match.
pub uninterp spec fn first_group(pattern: Seq<char>, text: Seq<char>) -> Option<Seq<char>>;

/// The texts of the first two capturing groups in each of the successive matches of a
/// pattern, which do not overlap; empty for a group that takes no part in a match. No match
/// where the pattern is not valid.
pub uninterp spec fn group_pairs(pattern: Seq<char>, text: Seq<char>) -> Seq<
    (Seq<char>, Seq<char>),
>;

/// `Regex::captures` of the `regex` crate, of which the first group is taken.
#[verifier::external_body]
pub(crate) fn match_group(pattern: &str, text: &str) -> (r: Option<String>)
    ensures
        match r {
            Some(s) => first_group(pattern@, text@) == Some(s@),
            None => first_group(pattern@, text@) is None,
        },
{
    let re = regex::Regex::new(pattern).ok()?;
    re.captures(text)?.get(1).map(|m| m.as_str().to_string())
}

/// `Regex::captures_iter` of the `regex` crate, of which the first two groups are taken.
///
/// Of the pattern of a card the matches are stated in full. As documented, they are found
/// from left to right without overlap. `\s+` is greedy over Unicode white space. `[^>]*?` and
/// `[\s\S]*?` are lazy, and end at the first `>` and the first `</z-bookcard>`.
#[verifier::external_body]
pub(crate) fn match_pairs(pattern: &str, text: &str) -> (r: Vec<(String, String)>)
    ensures
        pair_views(r@) == group_pairs(pattern@, text@),
        pattern@ == CARD_PATTERN@ ==> pair_views(r@) == page_cards(text@),
{
    match regex::Regex::new(pattern) {
        Ok(re) => re.captures_iter(text).map(
            |c|
                (
                    c.get(1).map(|m| m.as_str().to_string()).unwrap_or_default(),
                    c.get(2).map(|m| m.as_str().to_string()).unwrap_or_default(),
                ),
        ).collect(),
        Err(_) => Vec::new(),
    }
}

} // verus!
