//! What a search suggests to call next, and short previews of text.

use vstd::prelude::*;
use vstd::slice::slice_subrange;
use crate::bundle::{ContextBundleParams, LineRange};
use crate::bundle_graph::text_of;
use crate::bundle_snippets::opt_view;
use crate::decimal::{decimal, push_decimal};
use crate::git_timeline::append_texts;
use crate::pieces::{join, joined, lines_of, push_text, str_lines, texts};
use crate::search::{SemanticSearchMatch, SemanticSearchResponse, SuggestedTool};
use crate::service_plan::{keep_positive, lists_range, positive_line};
use crate::service_state::{
    budget_of, smaller_of, EnvironmentSnapshot, DEFAULT_NEIGHBOR_LIMIT_HINT,
    DEFAULT_SNIPPET_LIMIT_HINT,
};
use crate::text::{chars_of, string_of, trim_end, trim_str, trimmed, trimmed_end};

verus! {

/// How many lines around a match a suggestion adds on each side.
pub const SUGGESTED_RANGE_PADDING: u32 = 2;

/// How many tools are suggested.
pub const MAX_SUGGESTIONS: usize = 3;

/// The most characters of a preview, before the mark that it was cut.
pub const MAX_PREVIEW_LEN: usize = 160;

/// The most lines that a preview is made of.
pub const MAX_PREVIEW_LINES: usize = 3;

// ---------------------------------------------------------------------------
// Previews
// ---------------------------------------------------------------------------

/// The first texts of a list, at most `limit` of them.
pub open spec fn first_texts(list: Seq<Seq<char>>, limit: int) -> Seq<Seq<char>> {
    if list.len() <= limit {
        list
    } else {
        list.take(limit)
    }
}

/// The lines of the texts, one text after the other.
pub open spec fn lines_of_all(segments: Seq<Seq<char>>) -> Seq<Seq<char>>
    decreases segments.len(),
{
    if segments.len() == 0 {
        Seq::empty()
    } else {
        lines_of_all(segments.drop_last()) + lines_of(segments.last())
    }
}

/// The first characters of a text, and a mark where there are more.
pub open spec fn cut_at(text: Seq<char>, limit: int) -> Seq<char> {
    if text.len() <= limit {
        text
    } else {
        text.take(limit) + "..."@
    }
}

/// The first lines of the texts as one line, cut where it is too long.
pub open spec fn preview_of(segments: Seq<Seq<char>>) -> Seq<char> {
    cut_at(
        trimmed(
            joined(first_texts(lines_of_all(segments), MAX_PREVIEW_LINES as int), " "@),
        ),
        MAX_PREVIEW_LEN as int,
    )
}

/// The first lines of the texts as one line, cut where it is too long.
pub fn compose_preview(segments: &Vec<String>) -> (r: String)
    ensures
        r@ == preview_of(texts(segments@)),
{
    let mut all: Vec<String> = Vec::new();
    let ghost given = texts(segments@);
    let mut i: usize = 0;
    assert(given.take(0) =~= Seq::<Seq<char>>::empty());
    assert(texts(all@) =~= Seq::<Seq<char>>::empty());
    while i < segments.len()
        invariant
            i <= segments@.len(),
            given == texts(segments@),
            texts(all@) == lines_of_all(given.take(i as int)),
        decreases segments.len() - i,
    {
        let lines = str_lines(segments[i].as_str());
        append_texts(&mut all, &lines);
        proof {
            let next = given.take(i + 1);
            assert(next.drop_last() =~= given.take(i as int));
            assert(next.last() == segments@[i as int]@);
        }
        i += 1;
    }
    assert(given.take(i as int) =~= given);
    let keep: usize = if all.len() <= MAX_PREVIEW_LINES {
        all.len()
    } else {
        MAX_PREVIEW_LINES
    };
    let first = slice_subrange(all.as_slice(), 0, keep);
    assert(texts(first@) =~= first_texts(lines_of_all(given), MAX_PREVIEW_LINES as int));
    let line = join(first, " ");
    let line = trim_str(line.as_str());
    let chars = chars_of(line.as_str());
    if chars.len() <= MAX_PREVIEW_LEN {
        return line;
    }
    let head = slice_subrange(chars.as_slice(), 0, MAX_PREVIEW_LEN);
    assert(head@ =~= line@.take(MAX_PREVIEW_LEN as int));
    let mut out = string_of(head);
    out.append("...");
    out
}

/// A preview is at most as long as its limit and the mark that it was cut.
pub proof fn law_preview_length(segments: Seq<Seq<char>>)
    ensures
        preview_of(segments).len() <= MAX_PREVIEW_LEN + 3,
{
    reveal_strlit("...");
}

/// The text without white space around it, unless nothing is left.
pub open spec fn filled_fragment(text: Option<Seq<char>>) -> Seq<Seq<char>> {
    match text {
        Some(t) => if trimmed(t).len() > 0 {
            seq![trimmed(t)]
        } else {
            Seq::empty()
        },
        None => Seq::empty(),
    }
}

/// A preview of a match: of what comes before it, then of the match itself.
pub open spec fn snippet_preview_of(content: Seq<char>, before: Option<Seq<char>>) -> Option<
    Seq<char>,
> {
    let fragments = filled_fragment(before) + filled_fragment(Some(content));
    if fragments.len() == 0 {
        None
    } else {
        Some(preview_of(fragments))
    }
}

/// A preview of a match; `None` where there is no text to show.
pub fn snippet_preview(content: &str, context_before: Option<&str>) -> (r: Option<String>)
    ensures
        text_of(r) == snippet_preview_of(content@, opt_view(context_before)),
{
    let mut fragments: Vec<String> = Vec::new();
    if let Some(before) = context_before {
        let text = trim_str(before);
        if !text.as_str().is_empty() {
            push_text(&mut fragments, text);
        }
    }
    assert(texts(fragments@) =~= filled_fragment(opt_view(context_before)));
    let ghost first = texts(fragments@);
    let text = trim_str(content);
    if !text.as_str().is_empty() {
        push_text(&mut fragments, text);
    }
    assert(texts(fragments@) =~= first + filled_fragment(Some(content@)));
    if fragments.len() == 0 {
        return None;
    }
    Some(compose_preview(&fragments))
}

/// The line, or, where it is longer than `max_len` characters, its first ones without
/// white space at their end, and a mark.
pub open spec fn short_line(line: Seq<char>, max_len: int) -> Seq<char> {
    if line.len() <= max_len {
        line
    } else {
        trimmed_end(line.take(max_len)) + "..."@
    }
}

/// The line, cut where it is longer than `max_len` characters.
pub fn truncate_summary_line(line: &str, max_len: usize) -> (r: String)
    ensures
        r@ == short_line(line@, max_len as int),
{
    let chars = chars_of(line);
    if chars.len() <= max_len {
        return string_of(chars.as_slice());
    }
    let head = slice_subrange(chars.as_slice(), 0, max_len);
    assert(head@ =~= line@.take(max_len as int));
    let kept = trim_end(head);
    let mut out = string_of(kept);
    out.append("...");
    out
}

// ---------------------------------------------------------------------------
// Suggestions
// ---------------------------------------------------------------------------

/// The first and the last line of a match, where it starts on a line.
pub open spec fn match_lines(start: Option<i64>, end: Option<i64>) -> Option<(u32, u32)> {
    match positive_line(start) {
        Some(a) => {
            let b = match positive_line(end) {
                Some(b) => b,
                None => a,
            };
            if b < a {
                Some((b, a))
            } else {
                Some((a, b))
            }
        },
        None => None,
    }
}

/// The lines with some more on each side; they start at the first line or later.
pub open spec fn padded(lines: (u32, u32)) -> LineRange {
    LineRange {
        start_line: if lines.0 <= SUGGESTED_RANGE_PADDING {
            1
        } else {
            (lines.0 - SUGGESTED_RANGE_PADDING) as u32
        },
        end_line: smaller_of(lines.1 + SUGGESTED_RANGE_PADDING, u32::MAX as int) as u32,
    }
}

/// The line in the middle.
pub open spec fn middle_line(lines: (u32, u32)) -> int {
    lines.0 + (lines.1 - lines.0) / 2
}

/// Where a suggestion points to.
pub open spec fn place_text(path: Seq<char>, lines: Option<(u32, u32)>) -> Seq<char> {
    match lines {
        Some(l) => {
            let range = padded(l);
            if range.start_line == range.end_line {
                path + "#L"@ + decimal(range.start_line as nat)
            } else {
                path + ":"@ + decimal(range.start_line as nat) + "-"@ + decimal(
                    range.end_line as nat,
                )
            }
        },
        None => path,
    }
}

/// A bundle around a match is suggested, as the `index`th tool counted from zero.
pub open spec fn is_suggestion(
    tool: SuggestedTool,
    result: SemanticSearchMatch,
    index: int,
    cwd: Option<String>,
    database_name: Option<String>,
    budget: u32,
) -> bool {
    let lines = match_lines(result.line_start, result.line_end);
    &&& tool.tool@ == "context_bundle"@
    &&& tool.rank == index + 1
    &&& tool.score == result.normalized_score
    &&& text_of(tool.description) == Some(place_text(result.path@, lines))
    &&& text_of(tool.preview) == snippet_preview_of(
        result.content@,
        text_of(result.context_before),
    )
    &&& tool.parameters.root == cwd
    &&& tool.parameters.database_name == database_name
    &&& tool.parameters.file == result.path
    &&& tool.parameters.symbol is None
    &&& tool.parameters.max_snippets == Some(DEFAULT_SNIPPET_LIMIT_HINT)
    &&& tool.parameters.max_neighbors == Some(DEFAULT_NEIGHBOR_LIMIT_HINT)
    &&& tool.parameters.budget_tokens == Some(budget)
    &&& lists_range(
        tool.parameters.ranges,
        match lines {
            Some(l) => Some(padded(l)),
            None => None,
        },
    )
    &&& tool.parameters.focus_line == (match lines {
        Some(l) => Some(middle_line(l) as u32),
        None => None,
    })
    &&& tool.parameters.query is None
    &&& tool.parameters.context_goals is None
}

/// The first and the last line of a match, where it starts on a line.
pub fn lines_of_match(start: Option<i64>, end: Option<i64>) -> (r: Option<(u32, u32)>)
    ensures
        r == match_lines(start, end),
        r matches Some(l) ==> l.0 <= l.1,
{
    match keep_positive(start) {
        Some(a) => {
            let b: u32 = match keep_positive(end) {
                Some(b) => b,
                None => a,
            };
            if b < a {
                Some((b, a))
            } else {
                Some((a, b))
            }
        },
        None => None,
    }
}

/// The lines with some more on each side.
pub fn pad_lines(lines: (u32, u32)) -> (r: LineRange)
    requires
        lines.0 <= lines.1,
    ensures
        r == padded(lines),
{
    let start_line: u32 = if lines.0 <= SUGGESTED_RANGE_PADDING {
        1
    } else {
        lines.0 - SUGGESTED_RANGE_PADDING
    };
    let end_line: u32 = if lines.1 > u32::MAX - SUGGESTED_RANGE_PADDING {
        u32::MAX
    } else {
        lines.1 + SUGGESTED_RANGE_PADDING
    };
    LineRange { start_line, end_line }
}

/// A range of lines that a suggestion names starts at the first line or later, does not
/// end before it starts, and holds the line in the focus.
pub proof fn law_suggested_range(lines: (u32, u32))
    requires
        1 <= lines.0 <= lines.1,
    ensures
        1 <= padded(lines).start_line,
        padded(lines).start_line <= middle_line(lines) <= padded(lines).end_line,
{
}

/// The tool call that follows a match up.
fn suggest(
    result: &SemanticSearchMatch,
    index: usize,
    cwd: &Option<String>,
    database_name: &Option<String>,
    budget: u32,
) -> (r: SuggestedTool)
    requires
        index < u32::MAX,
    ensures
        is_suggestion(r, *result, index as int, *cwd, *database_name, budget),
{
    let mut description = result.path.clone();
    let mut ranges: Option<Vec<LineRange>> = None;
    let mut focus_line: Option<u32> = None;
    if let Some(lines) = lines_of_match(result.line_start, result.line_end) {
        let range = pad_lines(lines);
        focus_line = Some(lines.0 + (lines.1 - lines.0) / 2);
        if range.start_line == range.end_line {
            description.append("#L");
            push_decimal(&mut description, range.start_line as u64);
        } else {
            description.append(":");
            push_decimal(&mut description, range.start_line as u64);
            description.append("-");
            push_decimal(&mut description, range.end_line as u64);
        }
        let mut list: Vec<LineRange> = Vec::new();
        list.push(range);
        assert(list@ =~= seq![range]);
        ranges = Some(list);
    }
    let before = match &result.context_before {
        Some(text) => Some(text.as_str()),
        None => None,
    };
    let preview = snippet_preview(result.content.as_str(), before);
    SuggestedTool {
        tool: "context_bundle".to_owned(),
        rank: index as u32 + 1,
        score: result.normalized_score,
        description: Some(description),
        preview,
        parameters: ContextBundleParams {
            root: cwd.clone(),
            database_name: database_name.clone(),
            file: result.path.clone(),
            symbol: None,
            max_snippets: Some(DEFAULT_SNIPPET_LIMIT_HINT),
            max_neighbors: Some(DEFAULT_NEIGHBOR_LIMIT_HINT),
            budget_tokens: Some(budget),
            ranges,
            focus_line,
            query: None,
            context_goals: None,
        },
    }
}

/// The tool calls that follow the first matches up.
pub fn build_search_suggestions(
    snapshot: &EnvironmentSnapshot,
    response: &SemanticSearchResponse,
) -> (r: Vec<SuggestedTool>)
    ensures
        r@.len() == smaller_of(response.results@.len() as int, MAX_SUGGESTIONS as int),
        forall|i: int|
            0 <= i < r@.len() ==> is_suggestion(
                #[trigger] r@[i],
                response.results@[i],
                i,
                snapshot.cwd,
                response.database_name,
                smaller_of(
                    budget_of(
                        snapshot.bundle_budget_override,
                        snapshot.remaining_context_tokens,
                    ),
                    u32::MAX as int,
                ) as u32,
            ),
{
    let budget: u32 = snapshot.bundle_budget_hint();
    let mut out: Vec<SuggestedTool> = Vec::new();
    let mut i: usize = 0;
    while i < response.results.len() && i < MAX_SUGGESTIONS
        invariant
            i <= response.results@.len(),
            i <= MAX_SUGGESTIONS,
            out@.len() == i,
            forall|k: int|
                0 <= k < i ==> is_suggestion(
                    #[trigger] out@[k],
                    response.results@[k],
                    k,
                    snapshot.cwd,
                    response.database_name,
                    budget,
                ),
        decreases response.results.len() - i,
    {
        let tool = suggest(
            &response.results[i],
            i,
            &snapshot.cwd,
            &response.database_name,
            budget,
        );
        out.push(tool);
        i += 1;
    }
    out
}

// ---------------------------------------------------------------------------
// What holds of suggestions
// ---------------------------------------------------------------------------

/// The first texts of a list are its beginning, as much as there is and may be.
pub proof fn law_first_texts(list: Seq<Seq<char>>, limit: int)
    requires
        limit >= 0,
    ensures
        first_texts(list, limit).is_prefix_of(list),
        first_texts(list, limit).len() == limit || first_texts(list, limit) == list,
        first_texts(list, limit).len() <= limit,
{
}

/// The lines of the texts stand one text after the other.
pub proof fn law_lines_of_all(front: Seq<Seq<char>>, back: Seq<Seq<char>>, text: Seq<char>)
    ensures
        lines_of_all(front + back) == lines_of_all(front) + lines_of_all(back),
        lines_of_all(seq![text]) == lines_of(text),
    decreases back.len(),
{
    let one = seq![text];
    assert(one.drop_last() =~= Seq::<Seq<char>>::empty());
    assert(lines_of_all(one.drop_last()) =~= Seq::<Seq<char>>::empty());
    assert(Seq::<Seq<char>>::empty() + lines_of(text) =~= lines_of(text));
    let all = front + back;
    if back.len() > 0 {
        law_lines_of_all(front, back.drop_last(), text);
        assert(all.drop_last() =~= front + back.drop_last());
        assert(all.last() == back.last());
        assert(lines_of_all(front) + lines_of_all(back.drop_last()) + lines_of(back.last())
            =~= lines_of_all(front) + lines_of_all(back));
    } else {
        assert(all =~= front);
        assert(lines_of_all(front) + lines_of_all(back) =~= lines_of_all(front));
    }
}

/// A text that fits is shown whole. Of another one the beginning is shown, with a mark
/// behind it.
pub proof fn law_cut(text: Seq<char>, limit: int)
    requires
        limit >= 0,
    ensures
        text.len() <= limit ==> cut_at(text, limit) == text && short_line(text, limit) == text,
        text.len() > limit ==> cut_at(text, limit) == text.take(limit) + "..."@,
        text.len() > limit ==> exists|n: int|
            0 <= n <= limit && short_line(text, limit) == #[trigger] text.take(n) + "..."@ && (n == 0
                || !crate::text::is_white_space(text[n - 1])) && forall|i: int|
                n <= i < limit ==> crate::text::is_white_space(#[trigger] text[i]),
{
    if text.len() > limit {
        let head = text.take(limit);
        crate::text::lemma_trimmed_end(head);
        let n = trimmed_end(head).len() as int;
        assert(head.take(n) =~= text.take(n));
        if n > 0 {
            assert(trimmed_end(head).last() == text[n - 1]);
        }
        assert forall|i: int| n <= i < limit implies crate::text::is_white_space(
            #[trigger] text[i],
        ) by {
            assert(head[i] == text[i]);
        }
        assert(short_line(text, limit) == text.take(n) + "..."@);
    }
}

/// What comes before a match is shown before it, and nothing is shown where both are blank.
pub proof fn law_snippet_preview(content: Seq<char>, before: Seq<char>)
    ensures
        trimmed(content).len() == 0 && trimmed(before).len() == 0 ==> snippet_preview_of(
            content,
            Some(before),
        ) is None,
        trimmed(content).len() > 0 && trimmed(before).len() > 0 ==> snippet_preview_of(
            content,
            Some(before),
        ) == Some(preview_of(seq![trimmed(before), trimmed(content)])),
        trimmed(content).len() > 0 ==> snippet_preview_of(content, None) == Some(
            preview_of(seq![trimmed(content)]),
        ),
        trimmed(content).len() == 0 ==> snippet_preview_of(content, None) is None,
{
    let a = filled_fragment(Some(before));
    let b = filled_fragment(Some(content));
    let none = Seq::<Seq<char>>::empty();
    if trimmed(content).len() > 0 {
        assert(none + b =~= seq![trimmed(content)]);
        if trimmed(before).len() > 0 {
            assert(a + b =~= seq![trimmed(before), trimmed(content)]);
        }
    }
}

/// The lines of a match are its two lines, the smaller first; one that does not say where
/// it ends is of one line.
pub proof fn law_match_lines(a: i64, b: i64)
    requires
        0 < a <= u32::MAX,
        0 < b <= u32::MAX,
    ensures
        match_lines(Some(a), Some(b)) matches Some((x, y)) && x <= y && (x == a && y == b || x == b
            && y == a),
        match_lines(Some(a), None) matches Some((x, y)) && x == a && y == a,
        match_lines(None, Some(b)) is None,
{
}

/// A suggested range has two lines more on each side, as far as there are lines in front,
/// and the focus lies in the middle of the match.
pub proof fn law_padding(lines: (u32, u32))
    requires
        1 <= lines.0 <= lines.1,
        lines.1 <= u32::MAX - 2,
    ensures
        lines.0 > 2 ==> padded(lines).start_line == lines.0
            - 2,
        lines.0 <= 2 ==> padded(lines).start_line == 1,
        padded(lines).end_line == lines.1 + 2,
        lines.0 <= middle_line(lines) <= lines.1,
        (middle_line(lines) - lines.0) - (lines.1 - middle_line(lines)) <= 0,
        (lines.1 - middle_line(lines)) - (middle_line(lines) - lines.0) <= 1,
{
}

/// A suggestion is to look at the context of its match: in the match's file, around its
/// lines, with the rest of the budget; the better match has the smaller rank.
pub proof fn law_suggestion(
    tool: SuggestedTool,
    result: SemanticSearchMatch,
    index: int,
    cwd: Option<String>,
    database_name: Option<String>,
    budget: u32,
)
    requires
        is_suggestion(tool, result, index, cwd, database_name, budget),
    ensures
        tool.tool@ == "context_bundle"@,
        tool.rank == index + 1,
        tool.score == result.normalized_score,
        tool.parameters.file == result.path,
        tool.parameters.budget_tokens == Some(budget),
        tool.parameters.root == cwd && tool.parameters.database_name == database_name,
        match_lines(result.line_start, result.line_end) matches Some(l) ==> tool.parameters.ranges
            matches Some(rs) && rs@.len() == 1 && rs@[0] == padded(l),
        match_lines(result.line_start, result.line_end) is None ==> tool.parameters.ranges is None
            && tool.parameters.focus_line is None,
{
}

} // verus!
