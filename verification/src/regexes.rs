//! Regular expressions, through the `regex` crate.

use vstd::prelude::*;
use crate::bundle_graph::{BLOCK_COMMENT, LINE_COMMENTS, OPEN_WORK};
use crate::git_remote::{BRACKETED_NUMBER, NAMED_NUMBER, PLAIN_NUMBER};
use crate::git_timeline::RELATIVE_SINCE;
use crate::graph_source::{CALL, PYTHON_FUNCTION, RUST_FUNCTION, SWIFT_FUNCTION};
use crate::remote_proxy::WHITE_SPACE_RUN;
use crate::spans::is_span;

verus! {

/// The matches of a pattern that do not overlap, from left to right: of each match the
/// byte offsets of its groups, the whole match first. `None` stands for a group that
/// takes no part. There are none where the pattern is no regular expression.
pub uninterp spec fn regex_spans(pattern: Seq<char>, text: Seq<char>) -> Seq<
    Seq<Option<(usize, usize)>>,
>;

/// The text of a group in the leftmost match of a pattern: `None` where the pattern is
/// no regular expression, does not match, or the group takes no part in the match.
pub uninterp spec fn regex_group(pattern: Seq<char>, text: Seq<char>, group: nat) -> Option<
    Seq<char>,
>;

/// How many matches of a pattern that do not overlap a text has; none where the pattern
/// is no regular expression.
pub uninterp spec fn regex_matches(pattern: Seq<char>, text: Seq<char>) -> nat;

/// A text with every match of a pattern replaced; the text itself where the pattern is
/// no regular expression.
pub uninterp spec fn regex_replaced(
    pattern: Seq<char>,
    text: Seq<char>,
    replacement: Seq<char>,
) -> Seq<char>;

/// One of the patterns of this library. They are small: how large a pattern may be depends
/// on the machine.
pub open spec fn is_known(pattern: Seq<char>) -> bool {
    pattern == BLOCK_COMMENT@ || pattern == LINE_COMMENTS@ || pattern == OPEN_WORK@ || pattern
        == BRACKETED_NUMBER@ || pattern == NAMED_NUMBER@ || pattern == PLAIN_NUMBER@ || pattern
        == RELATIVE_SINCE@ || pattern == CALL@ || pattern == RUST_FUNCTION@ || pattern
        == PYTHON_FUNCTION@ || pattern == SWIFT_FUNCTION@ || pattern == WHITE_SPACE_RUN@
}

/// Calls `Regex::new`, `Regex::captures` and `Captures::get`.
#[verifier::external_body]
pub(crate) fn capture_group(pattern: &str, text: &str, group: usize) -> (r: Option<String>)
    requires
        is_known(pattern@),
    ensures
        match r {
            Some(v) => regex_group(pattern@, text@, group as nat) == Some(v@),
            None => regex_group(pattern@, text@, group as nat) is None,
        },
{
    let regex = regex::Regex::new(pattern).ok()?;
    let captures = regex.captures(text)?;
    captures.get(group).map(|found| found.as_str().to_string())
}

/// Calls `Regex::new` and `Regex::find_iter`, and counts what it finds.
#[verifier::external_body]
pub(crate) fn count_matches(pattern: &str, text: &str) -> (r: usize)
    requires
        is_known(pattern@),
    ensures
        r == regex_matches(pattern@, text@),
{
    regex::Regex::new(pattern).map_or(0, |regex| regex.find_iter(text).count())
}

/// Calls `Regex::new` and `Regex::replace_all`.
#[verifier::external_body]
pub(crate) fn replace_matches(pattern: &str, text: &str, replacement: &str) -> (r: String)
    requires
        is_known(pattern@),
    ensures
        r@ == regex_replaced(pattern@, text@, replacement@),
{
    let Ok(regex) = regex::Regex::new(pattern) else {
        return text.to_string();
    };
    regex.replace_all(text, replacement).into_owned()
}

/// The lists of spans by their views.
pub open spec fn spans_view(v: Seq<Vec<Option<(usize, usize)>>>) -> Seq<
    Seq<Option<(usize, usize)>>,
> {
    Seq::new(v.len(), |i: int| v[i]@)
}

/// Every offset is that of a piece of the text.
pub open spec fn spans_fit(spans: Seq<Seq<Option<(usize, usize)>>>, text: Seq<char>) -> bool {
    forall|k: int, j: int|
        0 <= k < spans.len() && 0 <= j < spans[k].len() ==> match #[trigger] spans[k][j] {
            Some((start, end)) => is_span(text, start, end),
            None => true,
        }
}

/// Calls `Regex::new` and `Regex::captures_iter`, and takes the offsets of each group.
/// Those of a match always bound a piece of the text.
#[verifier::external_body]
pub(crate) fn capture_spans(pattern: &str, text: &str) -> (r: Vec<Vec<Option<(usize, usize)>>>)
    requires
        is_known(pattern@),
    ensures
        spans_view(r@) == regex_spans(pattern@, text@),
        spans_fit(spans_view(r@), text@),
{
    let Ok(regex) = regex::Regex::new(pattern) else {
        return Vec::new();
    };
    regex.captures_iter(text).map(
        |found| found.iter().map(
            |group| group.map(|piece| (piece.start(), piece.end())),
        ).collect(),
    ).collect()
}

} // verus!
