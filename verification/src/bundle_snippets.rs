//! The snippets of a bundle: what is cut from the file, how each is weighed, and which
//! of them are chosen.

use vstd::prelude::*;
use vstd::slice::slice_subrange;
use crate::bundle::{
    BundleSnippet, LineRange, SnippetSource, FOCUS_CONTEXT_RADIUS, MAX_SNIPPET_LIMIT,
};
use crate::decimal::{decimal, push_decimal, push_signed_decimal, signed_decimal};
use crate::pieces::{contains_text, push_text, str_contains, texts};
use crate::ranking::{
    find_new, ints, law_new_positions, law_ranking, new_positions, positions, rank_desc, ranking,
    take_at,
};
use crate::score::{is_nan, score_key};
use crate::sizes::{
    byte_length, char_at_byte, char_width, lemma_boundary_unique, lemma_size_push, lemma_size_take,
    boundary, utf8_size,
};
use crate::text::{chars_of, lowercase, string_of, to_lowercase};

verus! {

// ---------------------------------------------------------------------------
// Lines
// ---------------------------------------------------------------------------

/// The positions behind the line feeds of `s`, with 0 before them.
pub open spec fn line_starts(s: Seq<char>) -> Seq<int>
    decreases s.len(),
{
    if s.len() == 0 {
        seq![0]
    } else if s.last() == '\n' {
        line_starts(s.drop_last()).push(s.len() as int)
    } else {
        line_starts(s.drop_last())
    }
}

/// Where the lines of `s` begin, and at the end where the last one ends: line `n`,
/// counted from one, reaches from entry `n - 1` to entry `n`.
pub open spec fn line_bounds(s: Seq<char>) -> Seq<int> {
    if line_starts(s).last() != s.len() {
        line_starts(s).push(s.len() as int)
    } else {
        line_starts(s)
    }
}

proof fn lemma_line_starts(s: Seq<char>)
    ensures
        line_starts(s).len() > 0,
        forall|k: int| 0 <= k < line_starts(s).len() ==> 0 <= #[trigger] line_starts(s)[k] <= s.len(),
        forall|j: int, k: int|
            0 <= j < k < line_starts(s).len() ==> line_starts(s)[j] < line_starts(s)[k],
    decreases s.len(),
{
    if s.len() > 0 {
        lemma_line_starts(s.drop_last());
        let before = line_starts(s.drop_last());
        assert forall|k: int| 0 <= k < line_starts(s).len() implies 0 <= #[trigger] line_starts(
            s,
        )[k] <= s.len() by {
            if k < before.len() {
                assert(line_starts(s)[k] == before[k]);
            }
        }
    }
}

/// The bounds of the lines increase and lie in the text.
pub proof fn lemma_line_bounds(s: Seq<char>)
    ensures
        line_bounds(s).len() > 0,
        forall|k: int| 0 <= k < line_bounds(s).len() ==> 0 <= #[trigger] line_bounds(s)[k] <= s.len(),
        forall|j: int, k: int|
            0 <= j < k < line_bounds(s).len() ==> line_bounds(s)[j] < line_bounds(s)[k],
        line_bounds(s).last() == s.len(),
{
    lemma_line_starts(s);
    assert(0 <= line_starts(s)[line_starts(s).len() - 1] <= s.len());
}

/// The offsets list the bounds of the lines of `s` in bytes.
pub open spec fn offsets_of(offsets: Seq<usize>, s: Seq<char>) -> bool {
    &&& offsets.len() == line_bounds(s).len()
    &&& forall|k: int|
        0 <= k < offsets.len() ==> #[trigger] offsets[k] == utf8_size(s.take(line_bounds(s)[k]))
}

/// The byte offsets of the bounds of the lines.
pub fn compute_line_offsets(content: &str) -> (r: Vec<usize>)
    ensures
        offsets_of(r@, content@),
{
    let v = chars_of(content);
    let size: usize = byte_length(content);
    let mut offsets: Vec<usize> = Vec::new();
    offsets.push(0);
    let mut total: usize = 0;
    let mut i: usize = 0;
    let ghost s = content@;
    assert(s.take(0) =~= Seq::<char>::empty());
    while i < v.len()
        invariant
            i <= v.len(),
            v@ == s,
            size == utf8_size(s),
            total == utf8_size(s.take(i as int)),
            offsets@.len() == line_starts(s.take(i as int)).len(),
            forall|k: int|
                0 <= k < offsets@.len() ==> #[trigger] offsets@[k] == utf8_size(
                    s.take(line_starts(s.take(i as int))[k]),
                ),
        decreases v.len() - i,
    {
        let c = v[i];
        proof {
            assert(s.take(i + 1) =~= s.take(i as int).push(c));
            lemma_size_push(s.take(i as int), c);
            lemma_size_take(s, i + 1, s.len() as int);
            assert(s.take(i + 1).drop_last() =~= s.take(i as int));
        }
        total += char_width(c);
        if c == '\n' {
            offsets.push(total);
        }
        i += 1;
    }
    proof {
        assert(s.take(i as int) =~= s);
        lemma_line_starts(s);
        let last = line_starts(s).last();
        assert(0 <= line_starts(s)[line_starts(s).len() - 1] <= s.len());
        lemma_size_take(s, last, s.len() as int);
    }
    if offsets[offsets.len() - 1] != size {
        offsets.push(size);
    }
    offsets
}

/// The lines that a request for lines `first` to `last` shows of `count` lines, where
/// it shows any.
pub open spec fn shown_lines(count: int, first: int, last: int) -> Option<(int, int)> {
    let start = if first < 1 {
        1
    } else {
        first
    };
    let wanted = if last < first {
        first
    } else {
        last
    };
    let end = if wanted > count {
        count
    } else {
        wanted
    };
    if start > count || start > end {
        None
    } else {
        Some((start, end))
    }
}

/// The lines around `line` that a focus request shows of `count` lines.
pub open spec fn focus_lines(count: int, line: int) -> Option<(int, int)> {
    let centre = if line < 1 {
        1
    } else if line > count {
        count
    } else {
        line
    };
    if count < 1 {
        None
    } else {
        shown_lines(
            count,
            if centre - FOCUS_CONTEXT_RADIUS < 1 {
                1
            } else {
                centre - FOCUS_CONTEXT_RADIUS
            },
            centre + FOCUS_CONTEXT_RADIUS,
        )
    }
}

/// `b` is the snippet that shows lines `a` to `z` of the text `s`.
pub open spec fn shows_lines(
    b: BundleSnippet,
    path: Option<Seq<char>>,
    s: Seq<char>,
    a: int,
    z: int,
) -> bool {
    let from = line_bounds(s)[a - 1];
    let to = line_bounds(s)[z];
    &&& b.content@ == s.subrange(from, to)
    &&& match path {
        Some(p) => b.path is Some && b.path->0@ == p,
        None => b.path is None,
    }
    &&& b.source == SnippetSource::Content
    &&& b.chunk_index is None
    &&& b.byte_start == Some(utf8_size(s.take(from)) as i64)
    &&& b.byte_end == Some(utf8_size(s.take(to)) as i64)
    &&& b.line_start == Some(a as i64)
    &&& b.line_end == Some(z as i64)
    &&& b.served_count is None
    &&& b.summary is None
    &&& b.symbol is None
    &&& b.identifier is None
    &&& b.source_type is Some && b.source_type->0@ == "content"@
    &&& b.metadata is None
    &&& b.score is None
    &&& b.similarity is None
    &&& b.embedding_model is None
    &&& b.embedding is None
}

/// The view of an optional string slice.
pub open spec fn opt_view(s: Option<&str>) -> Option<Seq<char>> {
    match s {
        Some(v) => Some(v@),
        None => None,
    }
}

/// Cuts lines `start` to `end` out of the text.
fn cut_lines(
    path: Option<&str>,
    content: &str,
    offsets: &[usize],
    start: usize,
    end: usize,
) -> (r: BundleSnippet)
    requires
        offsets_of(offsets@, content@),
        1 <= start <= end < offsets@.len(),
    ensures
        shows_lines(r, opt_view(path), content@, start as int, end as int),
{
    let v = chars_of(content);
    let start_byte: usize = offsets[start - 1];
    let end_byte: usize = offsets[end];
    proof {
        lemma_line_bounds(content@);
        let a = line_bounds(content@)[start - 1];
        let b = line_bounds(content@)[end as int];
        assert(boundary(content@, start_byte as int, a));
        assert(boundary(content@, end_byte as int, b));
    }
    let from = char_at_byte(v.as_slice(), start_byte);
    let to = char_at_byte(v.as_slice(), end_byte);
    let text = match (from, to) {
        (Some(i), Some(j)) => {
            proof {
                let a = line_bounds(content@)[start - 1];
                let b = line_bounds(content@)[end as int];
                lemma_boundary_unique(content@, start_byte as int, a, i as int);
                lemma_boundary_unique(content@, end_byte as int, b, j as int);
            }
            string_of(slice_subrange(v.as_slice(), i, j))
        },
        _ => {
            assert(false);
            String::new()
        },
    };
    let path_text: Option<String> = match path {
        Some(p) => Some(p.to_owned()),
        None => None,
    };
    BundleSnippet {
        path: path_text,
        source: SnippetSource::Content,
        chunk_index: None,
        content: text,
        byte_start: Some(start_byte as i64),
        byte_end: Some(end_byte as i64),
        line_start: Some(start as i64),
        line_end: Some(end as i64),
        served_count: None,
        summary: None,
        symbol: None,
        identifier: None,
        source_type: Some("content".to_owned()),
        metadata: None,
        score: None,
        similarity: None,
        embedding_model: None,
        embedding: None,
    }
}

/// The snippet that shows lines `start_line` to `end_line`, where the text has any of
/// them.
pub fn build_range_snippet(
    path: Option<&str>,
    content: &str,
    offsets: &[usize],
    start_line: u32,
    end_line: u32,
) -> (r: Option<BundleSnippet>)
    requires
        offsets_of(offsets@, content@),
    ensures
        match shown_lines(line_bounds(content@).len() - 1, start_line as int, end_line as int) {
            Some((a, z)) => r is Some && shows_lines(r->0, opt_view(path), content@, a, z),
            None => r is None,
        },
{
    proof {
        lemma_line_bounds(content@);
    }
    let count: usize = offsets.len() - 1;
    let start: u64 = if start_line < 1 {
        1
    } else {
        start_line as u64
    };
    let wanted: u64 = if end_line < start_line {
        start_line as u64
    } else {
        end_line as u64
    };
    let end: u64 = if wanted > count as u64 {
        count as u64
    } else {
        wanted
    };
    if start > count as u64 || start > end {
        return None;
    }
    Some(cut_lines(path, content, offsets, start as usize, end as usize))
}

/// The snippet that shows the lines around `focus_line`, where the text has any line.
pub fn build_focus_snippet(content: &str, offsets: &[usize], focus_line: u32) -> (r: Option<
    BundleSnippet,
>)
    requires
        offsets_of(offsets@, content@),
    ensures
        match focus_lines(line_bounds(content@).len() - 1, focus_line as int) {
            Some((a, z)) => r is Some && shows_lines(r->0, None, content@, a, z),
            None => r is None,
        },
{
    proof {
        lemma_line_bounds(content@);
    }
    let count: usize = offsets.len() - 1;
    if count < 1 {
        return None;
    }
    let line: u64 = if focus_line < 1 {
        1
    } else if focus_line as u64 > count as u64 {
        count as u64
    } else {
        focus_line as u64
    };
    let start: u64 = if line <= FOCUS_CONTEXT_RADIUS as u64 {
        1
    } else {
        line - FOCUS_CONTEXT_RADIUS as u64
    };
    let end: u64 = if line + FOCUS_CONTEXT_RADIUS as u64 > count as u64 {
        count as u64
    } else {
        line + FOCUS_CONTEXT_RADIUS as u64
    };
    Some(cut_lines(None, content, offsets, start as usize, end as usize))
}

/// A focus request shows the focus line, where the text has it.
pub proof fn law_focus_shown(count: int, line: int)
    requires
        1 <= line <= count,
    ensures
        focus_lines(count, line) is Some,
        ({
            let (a, z) = focus_lines(count, line)->0;
            1 <= a <= line <= z <= count
        }),
{
}

// ---------------------------------------------------------------------------
// Weight
// ---------------------------------------------------------------------------

/// The text in lower case holds a word that introduces a definition.
pub open spec fn has_structure(lower: Seq<char>) -> bool {
    ||| contains_text(lower, "fn "@)
    ||| contains_text(lower, "pub "@)
    ||| contains_text(lower, "struct "@)
    ||| contains_text(lower, "class "@)
    ||| contains_text(lower, "impl "@)
    ||| contains_text(lower, "def "@)
    ||| contains_text(lower, "enum "@)
    ||| contains_text(lower, "interface "@)
}

/// How much the lower-case text of a snippet counts for.
pub open spec fn weight_of(lower: Seq<char>) -> int {
    (if has_structure(lower) {
        8int
    } else {
        0
    }) + (if contains_text(lower, "///"@) || contains_text(lower, "/**"@) {
        3int
    } else {
        0
    }) - (if contains_text(lower, "todo"@) || contains_text(lower, "fixme"@) {
        2int
    } else {
        0
    }) + (if utf8_size(lower) < 120 {
        2int
    } else {
        0
    })
}

/// How much a text that is already in lower case counts for.
pub fn lowered_weight(lower: &str) -> (r: i64)
    ensures
        r == weight_of(lower@),
        -2 <= r <= 13,
{
    let mut score: i64 = 0;
    if str_contains(lower, "fn ") || str_contains(lower, "pub ") || str_contains(lower, "struct ")
        || str_contains(lower, "class ") || str_contains(lower, "impl ") || str_contains(
        lower,
        "def ",
    ) || str_contains(lower, "enum ") || str_contains(lower, "interface ") {
        score += 8;
    }
    if str_contains(lower, "///") || str_contains(lower, "/**") {
        score += 3;
    }
    if str_contains(lower, "todo") || str_contains(lower, "fixme") {
        score -= 2;
    }
    if byte_length(lower) < 120 {
        score += 2;
    }
    score
}

/// How much the text of a snippet counts for.
pub fn snippet_semantic_weight(content: &str) -> (r: i64)
    ensures
        r == weight_of(lowercase(content@)),
        -2 <= r <= 13,
{
    let lower = to_lowercase(content);
    lowered_weight(lower.as_str())
}

/// The lines of a snippet, the smaller first, where both are known and positive.
pub open spec fn line_span(b: BundleSnippet) -> Option<(int, int)> {
    match (b.line_start, b.line_end) {
        (Some(a), Some(z)) => if 0 < a <= u32::MAX && 0 < z <= u32::MAX {
            if a <= z {
                Some((a as int, z as int))
            } else {
                Some((z as int, a as int))
            }
        } else {
            None
        },
        _ => None,
    }
}

/// The lines of a snippet, the smaller first, where both are known and positive.
pub fn snippet_line_span(snippet: &BundleSnippet) -> (r: Option<(u32, u32)>)
    ensures
        match r {
            Some((a, z)) => line_span(*snippet) == Some((a as int, z as int)),
            None => line_span(*snippet) is None,
        },
{
    match (snippet.line_start, snippet.line_end) {
        (Some(a), Some(z)) => {
            if a <= 0 || a > u32::MAX as i64 || z <= 0 || z > u32::MAX as i64 {
                return None;
            }
            if a <= z {
                Some((a as u32, z as u32))
            } else {
                Some((z as u32, a as u32))
            }
        },
        _ => None,
    }
}

/// How far a line is from the lines of a snippet.
pub open spec fn focus_distance(b: BundleSnippet, line: int) -> Option<int> {
    match line_span(b) {
        Some((a, z)) => Some(
            if line < a {
                a - line
            } else if line > z {
                line - z
            } else {
                0
            },
        ),
        None => None,
    }
}

/// How far a line is from the lines of a snippet.
pub fn snippet_focus_distance(snippet: &BundleSnippet, focus_line: u32) -> (r: Option<u32>)
    ensures
        match r {
            Some(d) => focus_distance(*snippet, focus_line as int) == Some(d as int),
            None => focus_distance(*snippet, focus_line as int) is None,
        },
{
    match snippet_line_span(snippet) {
        Some((a, z)) => {
            if focus_line < a {
                Some(a - focus_line)
            } else if focus_line > z {
                Some(focus_line - z)
            } else {
                Some(0)
            }
        },
        None => None,
    }
}

/// The line lies in the lines of the snippet.
pub open spec fn covers_line(b: BundleSnippet, line: int) -> bool {
    match (b.line_start, b.line_end) {
        (Some(a), Some(z)) => a <= line <= z,
        _ => false,
    }
}

/// Whether the line lies in the lines of the snippet.
pub fn snippet_covers_line(snippet: &BundleSnippet, line: u32) -> (r: bool)
    ensures
        r == covers_line(*snippet, line as int),
{
    match (snippet.line_start, snippet.line_end) {
        (Some(a), Some(z)) => a <= line as i64 && line as i64 <= z,
        _ => false,
    }
}

/// What nearness to the focus line counts for.
pub open spec fn bonus_of(b: BundleSnippet, line: int) -> int {
    if covers_line(b, line) {
        25
    } else {
        match focus_distance(b, line) {
            Some(d) => if d == 0 {
                25
            } else if d <= 5 {
                15
            } else if d <= 15 {
                8
            } else if d <= 40 {
                4
            } else {
                1
            },
            None => 0,
        }
    }
}

/// What nearness to the focus line counts for.
pub fn proximity_bonus(snippet: &BundleSnippet, focus_line: u32) -> (r: i64)
    ensures
        r == bonus_of(*snippet, focus_line as int),
        0 <= r <= 25,
{
    if snippet_covers_line(snippet, focus_line) {
        return 25;
    }
    match snippet_focus_distance(snippet, focus_line) {
        Some(d) => if d == 0 {
            25
        } else if d <= 5 {
            15
        } else if d <= 15 {
            8
        } else if d <= 40 {
            4
        } else {
            1
        },
        None => 0,
    }
}

/// A line nearer to the snippet never counts for less.
pub proof fn law_nearer_counts_more(b: BundleSnippet, near: int, far: int)
    requires
        line_span(b) is Some,
        focus_distance(b, near)->0 <= focus_distance(b, far)->0,
        b.line_start->0 <= b.line_end->0,
    ensures
        bonus_of(b, near) >= bonus_of(b, far),
{
}

/// Why a snippet is considered.
#[derive(Debug, Clone, Copy, PartialEq, Eq, Structural)]
pub enum SnippetOrigin {
    Range,
    Focus,
    Stored,
}

/// The whole part of a snippet's score: what its origin, its text and its nearness to
/// the focus line count for. A snippet built around the focus line gets no bonus.
pub open spec fn base_score_of(
    origin: SnippetOrigin,
    b: BundleSnippet,
    focus_line: Option<u32>,
) -> int {
    (match origin {
        SnippetOrigin::Range => 120int,
        SnippetOrigin::Focus => 110int,
        SnippetOrigin::Stored => 30int,
    }) + weight_of(lowercase(b.content@)) + (match focus_line {
        Some(line) => if origin == SnippetOrigin::Focus {
            0
        } else {
            bonus_of(b, line as int)
        },
        None => 0,
    })
}

/// The whole part of a snippet's score.
pub fn base_score(origin: SnippetOrigin, snippet: &BundleSnippet, focus_line: Option<u32>) -> (r:
    i64)
    ensures
        r == base_score_of(origin, *snippet, focus_line),
        28 <= r <= 158,
{
    let start: i64 = match origin {
        SnippetOrigin::Range => 120,
        SnippetOrigin::Focus => 110,
        SnippetOrigin::Stored => 30,
    };
    let mut score: i64 = start + snippet_semantic_weight(snippet.content.as_str());
    if let Some(line) = focus_line {
        if origin != SnippetOrigin::Focus {
            score += proximity_bonus(snippet, line);
        }
    }
    score
}

/// Whether a stored vector may be compared with the query's: the models agree, or the
/// query names none.
pub open spec fn models_agree(query_model: Option<Seq<char>>, model: Option<Seq<char>>) -> bool {
    match (query_model, model) {
        (Some(a), Some(b)) => a == b,
        (Some(_), None) => false,
        _ => true,
    }
}

/// Whether a stored vector may be compared with the query's.
pub fn model_matches(query_model: Option<&str>, model: Option<&str>) -> (r: bool)
    ensures
        r == models_agree(opt_view(query_model), opt_view(model)),
{
    match (query_model, model) {
        (Some(a), Some(b)) => crate::text::same_text(a, b),
        (Some(_), None) => false,
        _ => true,
    }
}

/// How many stored snippets are loaded for a request: three for each wanted, at most
/// ten.
pub fn fetch_limit(max_snippets: usize) -> (r: usize)
    ensures
        r == if max_snippets <= 1 {
            3int
        } else if 3 * max_snippets > MAX_SNIPPET_LIMIT {
            MAX_SNIPPET_LIMIT as int
        } else {
            3 * max_snippets
        },
{
    if max_snippets <= 1 {
        3
    } else if max_snippets > MAX_SNIPPET_LIMIT / 3 {
        MAX_SNIPPET_LIMIT
    } else {
        3 * max_snippets
    }
}

// ---------------------------------------------------------------------------
// What a request asks for
// ---------------------------------------------------------------------------

/// A snippet that the request asks for, with the whole part of its score.
pub struct RequestedSnippet {
    pub origin: SnippetOrigin,
    pub snippet: BundleSnippet,
    pub base_score: i64,
}

/// The warning that a range could not be shown.
pub open spec fn range_warning(range: LineRange) -> Seq<char> {
    "Range "@ + decimal(range.start_line as nat) + "-"@ + decimal(range.end_line as nat)
        + " could not be assembled from cached content."@
}

/// The lines that the ranges show.
pub open spec fn range_spans(count: int, ranges: Seq<LineRange>) -> Seq<(int, int)>
    decreases ranges.len(),
{
    if ranges.len() == 0 {
        Seq::empty()
    } else {
        let before = range_spans(count, ranges.drop_last());
        match shown_lines(count, ranges.last().start_line as int, ranges.last().end_line as int) {
            Some(span) => before.push(span),
            None => before,
        }
    }
}

/// The warnings about ranges that show nothing.
pub open spec fn range_warnings(count: int, ranges: Seq<LineRange>) -> Seq<Seq<char>>
    decreases ranges.len(),
{
    if ranges.len() == 0 {
        Seq::empty()
    } else {
        let before = range_warnings(count, ranges.drop_last());
        match shown_lines(count, ranges.last().start_line as int, ranges.last().end_line as int) {
            Some(_) => before,
            None => before.push(range_warning(ranges.last())),
        }
    }
}

/// The lines that the request shows: those of its ranges, then those around its focus
/// line.
pub open spec fn requested_spans(
    content: Option<Seq<char>>,
    ranges: Seq<LineRange>,
    focus_line: Option<u32>,
) -> Seq<(SnippetOrigin, int, int)> {
    match content {
        Some(s) => {
            let count = line_bounds(s).len() - 1;
            let spans = range_spans(count, ranges);
            let shown = Seq::new(
                spans.len(),
                |i: int| (SnippetOrigin::Range, spans[i].0, spans[i].1),
            );
            match focus_line {
                Some(line) => match focus_lines(count, line as int) {
                    Some((a, z)) => shown.push((SnippetOrigin::Focus, a, z)),
                    None => shown,
                },
                None => shown,
            }
        },
        None => Seq::empty(),
    }
}

/// The warnings about what the request asks for and cannot be shown.
pub open spec fn request_warnings(
    content: Option<Seq<char>>,
    ranges: Seq<LineRange>,
    focus_line: Option<u32>,
) -> Seq<Seq<char>> {
    match content {
        Some(s) => range_warnings(line_bounds(s).len() - 1, ranges),
        None => {
            let first = if ranges.len() > 0 {
                seq!["Requested ranges ignored because file content is unavailable."@]
            } else {
                Seq::empty()
            };
            if focus_line is Some {
                first.push("focusLine ignored because file content is unavailable."@)
            } else {
                first
            }
        },
    }
}

/// `r` is the snippet for one of the spans of a request.
pub open spec fn requested_as(
    r: RequestedSnippet,
    s: Seq<char>,
    span: (SnippetOrigin, int, int),
    focus_line: Option<u32>,
) -> bool {
    &&& r.origin == span.0
    &&& shows_lines(r.snippet, None, s, span.1, span.2)
    &&& r.base_score == base_score_of(span.0, r.snippet, focus_line)
}

/// The snippets that the request's ranges and focus line ask for, with what is to be
/// said about those that cannot be shown.
pub fn requested_snippets(
    ranges: &[LineRange],
    focus_line: Option<u32>,
    file_content: Option<&str>,
) -> (r: (Vec<RequestedSnippet>, Vec<String>))
    ensures
        ({
            let spans = requested_spans(opt_view(file_content), ranges@, focus_line);
            &&& r.0@.len() == spans.len()
            &&& forall|k: int|
                0 <= k < spans.len() ==> requested_as(
                    #[trigger] r.0@[k],
                    file_content->0@,
                    spans[k],
                    focus_line,
                )
        }),
        texts(r.1@) == request_warnings(opt_view(file_content), ranges@, focus_line),
{
    let mut out: Vec<RequestedSnippet> = Vec::new();
    let mut warnings: Vec<String> = Vec::new();
    assert(texts(warnings@) =~= Seq::<Seq<char>>::empty());
    let content = match file_content {
        Some(c) => c,
        None => {
            if ranges.len() > 0 {
                push_text(
                    &mut warnings,
                    "Requested ranges ignored because file content is unavailable.".to_owned(),
                );
                assert(texts(warnings@) =~= seq![
                    "Requested ranges ignored because file content is unavailable."@,
                ]);
            }
            if focus_line.is_some() {
                push_text(
                    &mut warnings,
                    "focusLine ignored because file content is unavailable.".to_owned(),
                );
            }
            return (out, warnings);
        },
    };
    let offsets = compute_line_offsets(content);
    let ghost count = line_bounds(content@).len() - 1;
    let mut i: usize = 0;
    assert(ranges@.take(0) =~= Seq::<LineRange>::empty());
    while i < ranges.len()
        invariant
            i <= ranges.len(),
            offsets_of(offsets@, content@),
            count == line_bounds(content@).len() - 1,
            out@.len() == range_spans(count, ranges@.take(i as int)).len(),
            forall|k: int|
                0 <= k < out@.len() ==> {
                    let span = range_spans(count, ranges@.take(i as int))[k];
                    requested_as(
                        #[trigger] out@[k],
                        content@,
                        (SnippetOrigin::Range, span.0, span.1),
                        focus_line,
                    )
                },
            texts(warnings@) == range_warnings(count, ranges@.take(i as int)),
        decreases ranges.len() - i,
    {
        let range = ranges[i];
        proof {
            assert(ranges@.take(i + 1).drop_last() =~= ranges@.take(i as int));
            assert(ranges@.take(i + 1).last() == range);
        }
        match build_range_snippet(
            None,
            content,
            offsets.as_slice(),
            range.start_line,
            range.end_line,
        ) {
            Some(snippet) => {
                let base: i64 = base_score(SnippetOrigin::Range, &snippet, focus_line);
                out.push(
                    RequestedSnippet { origin: SnippetOrigin::Range, snippet, base_score: base },
                );
            },
            None => {
                let mut w = "Range ".to_owned();
                push_decimal(&mut w, range.start_line as u64);
                w.append("-");
                push_decimal(&mut w, range.end_line as u64);
                w.append(" could not be assembled from cached content.");
                push_text(&mut warnings, w);
            },
        }
        i += 1;
    }
    assert(ranges@.take(i as int) =~= ranges@);
    if let Some(line) = focus_line {
        if let Some(snippet) = build_focus_snippet(content, offsets.as_slice(), line) {
            let base: i64 = base_score(SnippetOrigin::Focus, &snippet, focus_line);
            out.push(RequestedSnippet { origin: SnippetOrigin::Focus, snippet, base_score: base });
        }
    }
    (out, warnings)
}

// ---------------------------------------------------------------------------
// Choice
// ---------------------------------------------------------------------------

/// How an optional number is written in a key.
pub open spec fn opt_number(n: Option<int>) -> Seq<char> {
    match n {
        Some(v) => "Some("@ + signed_decimal(v) + ")"@,
        None => "None"@,
    }
}

/// An optional number as a mathematical integer.
pub open spec fn opt_int(n: Option<i64>) -> Option<int> {
    match n {
        Some(v) => Some(v as int),
        None => None,
    }
}

/// The text that tells snippets apart: the file, the source, and where it stands.
pub open spec fn key_of(b: BundleSnippet, fallback_path: Seq<char>) -> Seq<char> {
    let path = match b.path {
        Some(p) => p@,
        None => fallback_path,
    };
    let chunk = match b.chunk_index {
        Some(v) => Some(v as int),
        None => None,
    };
    path + ":"@ + (match b.source {
        SnippetSource::Chunk => "Chunk"@,
        SnippetSource::Content => "Content"@,
    }) + ":"@ + opt_number(chunk) + ":"@ + opt_number(opt_int(b.line_start)) + ":"@ + opt_number(
        opt_int(b.line_end),
    ) + ":"@ + opt_number(opt_int(b.byte_start))
}

/// An optional number as it is written in a key.
fn opt_number_text(n: Option<i64>) -> (r: String)
    ensures
        r@ == opt_number(opt_int(n)),
{
    match n {
        Some(v) => {
            let mut out = "Some(".to_owned();
            push_signed_decimal(&mut out, v);
            out.append(")");
            out
        },
        None => "None".to_owned(),
    }
}

/// The text that tells snippets apart.
pub fn snippet_key(snippet: &BundleSnippet, fallback_path: &str) -> (r: String)
    ensures
        r@ == key_of(*snippet, fallback_path@),
{
    let mut out = match &snippet.path {
        Some(p) => p.clone(),
        None => fallback_path.to_owned(),
    };
    out.append(":");
    match snippet.source {
        SnippetSource::Chunk => out.append("Chunk"),
        SnippetSource::Content => out.append("Content"),
    }
    let chunk: Option<i64> = match snippet.chunk_index {
        Some(v) => Some(v as i64),
        None => None,
    };
    out.append(":");
    out.append(opt_number_text(chunk).as_str());
    out.append(":");
    out.append(opt_number_text(snippet.line_start).as_str());
    out.append(":");
    out.append(opt_number_text(snippet.line_end).as_str());
    out.append(":");
    out.append(opt_number_text(snippet.byte_start).as_str());
    out
}

/// The keys of the snippets.
pub open spec fn keys_of(snippets: Seq<BundleSnippet>, path: Seq<char>) -> Seq<Seq<char>> {
    Seq::new(snippets.len(), |i: int| key_of(snippets[i], path))
}

/// The keys of the snippets.
pub fn snippet_keys(snippets: &Vec<BundleSnippet>, path: &str) -> (r: Vec<String>)
    ensures
        texts(r@) == keys_of(snippets@, path@),
{
    let mut out: Vec<String> = Vec::new();
    let mut i: usize = 0;
    while i < snippets.len()
        invariant
            i <= snippets.len(),
            texts(out@) == keys_of(snippets@, path@).take(i as int),
        decreases snippets.len() - i,
    {
        let key = snippet_key(&snippets[i], path);
        push_text(&mut out, key);
        assert(keys_of(snippets@, path@).take(i + 1) =~= keys_of(snippets@, path@).take(
            i as int,
        ).push(key@));
        i += 1;
    }
    assert(keys_of(snippets@, path@).take(i as int) =~= keys_of(snippets@, path@));
    out
}

/// The snippets at the given positions.
pub open spec fn snippets_at(snippets: Seq<BundleSnippet>, at: Seq<int>) -> Seq<BundleSnippet> {
    Seq::new(at.len(), |k: int| snippets[at[k]])
}

/// The snippets without those whose key came before.
pub open spec fn unique_snippets(snippets: Seq<BundleSnippet>, path: Seq<char>) -> Seq<
    BundleSnippet,
> {
    snippets_at(snippets, new_positions(Seq::empty(), keys_of(snippets, path)))
}

/// The integer that orders a snippet: that of its score, or zero where it has none.
pub open spec fn order_key(b: BundleSnippet) -> int {
    match b.score {
        Some(s) => score_key(s),
        None => 0,
    }
}

/// Every score is a number.
pub open spec fn scores_compare(snippets: Seq<BundleSnippet>) -> bool {
    forall|i: int|
        0 <= i < snippets.len() && (#[trigger] snippets[i]).score is Some ==> !is_nan(
            snippets[i].score->0,
        )
}

/// The integers that order the snippets. Where a score is no number, all count as equal.
pub open spec fn order_keys(snippets: Seq<BundleSnippet>) -> Seq<int> {
    Seq::new(
        snippets.len(),
        |i: int|
            if scores_compare(snippets) {
                order_key(snippets[i])
            } else {
                0
            },
    )
}

/// The snippets in the order of their scores, greatest first, at most `max` of them.
pub open spec fn best_snippets(snippets: Seq<BundleSnippet>, max: int) -> Seq<BundleSnippet> {
    let order = ranking(order_keys(snippets), snippets.len() as int);
    snippets_at(
        snippets,
        if order.len() <= max {
            order
        } else {
            order.take(max)
        },
    )
}

/// The snippets whose key is not among `existing` and did not come before.
pub fn drop_repeated(existing: &Vec<String>, snippets: Vec<BundleSnippet>, path: &str) -> (r: Vec<
    BundleSnippet,
>)
    ensures
        r@ == snippets_at(
            snippets@,
            new_positions(texts(existing@), keys_of(snippets@, path@)),
        ),
{
    let keys = snippet_keys(&snippets, path);
    let order = find_new(existing, &keys);
    let ghost at = new_positions(texts(existing@), keys_of(snippets@, path@));
    assert(texts(keys@).len() == keys@.len());
    let ghost all = snippets@;
    let out = take_at(snippets, order.as_slice());
    proof {
        assert forall|k: int| 0 <= k < out@.len() implies out@[k] == all[at[k]] by {
            assert(positions(order@)[k] == at[k]);
        }
        assert(out@ =~= snippets_at(all, at));
    }
    out
}

/// Whether every score is a number.
fn all_compare(snippets: &Vec<BundleSnippet>) -> (r: bool)
    ensures
        r == scores_compare(snippets@),
{
    let mut i: usize = 0;
    while i < snippets.len()
        invariant
            i <= snippets@.len(),
            forall|k: int|
                0 <= k < i && (#[trigger] snippets@[k]).score is Some ==> !is_nan(
                    snippets@[k].score->0,
                ),
        decreases snippets.len() - i,
    {
        if let Some(s) = snippets[i].score {
            if s.is_nan() {
                assert(snippets@[i as int].score == Some(s));
                return false;
            }
        }
        i += 1;
    }
    true
}

/// Chooses among the candidates: a repeated one is dropped, the greater score comes
/// first, of two equal scores the earlier candidate, and at most `max_snippets` stay.
pub fn choose_snippets(candidates: Vec<BundleSnippet>, path: &str, max_snippets: usize) -> (r: Vec<
    BundleSnippet,
>)
    ensures
        r@ == best_snippets(unique_snippets(candidates@, path@), max_snippets as int),
{
    let none: Vec<String> = Vec::new();
    assert(texts(none@) =~= Seq::<Seq<char>>::empty());
    let unique = drop_repeated(&none, candidates, path);
    let compare = all_compare(&unique);
    let mut keys: Vec<i64> = Vec::new();
    let mut i: usize = 0;
    while i < unique.len()
        invariant
            i <= unique.len(),
            compare == scores_compare(unique@),
            ints(keys@) == order_keys(unique@).take(i as int),
        decreases unique.len() - i,
    {
        let key: i64 = match unique[i].score {
            Some(s) => if compare {
                s.key()
            } else {
                0
            },
            None => 0,
        };
        let ghost before = keys@;
        keys.push(key);
        assert(ints(keys@) =~= ints(before).push(key as int));
        assert(order_keys(unique@).take(i + 1) =~= order_keys(unique@).take(i as int).push(
            key as int,
        ));
        i += 1;
    }
    assert(order_keys(unique@).take(i as int) =~= order_keys(unique@));
    let mut order = rank_desc(keys.as_slice());
    assert(ints(keys@).len() == keys@.len());
    let ghost full = ranking(order_keys(unique@), unique@.len() as int);
    proof {
        law_ranking(order_keys(unique@), unique@.len() as int);
    }
    let ghost before = order@;
    if order.len() > max_snippets {
        order.truncate(max_snippets);
    }
    let ghost at = if full.len() <= max_snippets {
        full
    } else {
        full.take(max_snippets as int)
    };
    proof {
        assert(positions(order@) =~= at);
        assert forall|k: int| 0 <= k < order@.len() implies #[trigger] order@[k]
            < unique@.len() by {
            assert(full[k] == before[k] as int);
        }
        assert forall|j: int, k: int| 0 <= j < k < order@.len() implies order@[j]
            != order@[k] by {
            assert(full[j] == before[j] as int);
            assert(full[k] == before[k] as int);
        }
    }
    let ghost all = unique@;
    let out = take_at(unique, order.as_slice());
    proof {
        assert forall|k: int| 0 <= k < out@.len() implies out@[k] == all[at[k]] by {
            assert(positions(order@)[k] == at[k]);
        }
        assert(out@ =~= snippets_at(all, at));
    }
    out
}

proof fn lemma_chosen(candidates: Seq<BundleSnippet>, path: Seq<char>, max: int, j: int, k: int)
    requires
        max >= 0,
        0 <= j < k < best_snippets(unique_snippets(candidates, path), max).len(),
    ensures
        ({
            let unique = unique_snippets(candidates, path);
            let best = best_snippets(unique, max);
            &&& scores_compare(unique) ==> order_key(best[j]) >= order_key(best[k])
            &&& key_of(best[j], path) != key_of(best[k], path)
        }),
{
    let keys = keys_of(candidates, path);
    law_new_positions(Seq::empty(), keys);
    let at = new_positions(Seq::empty(), keys);
    let unique = unique_snippets(candidates, path);
    let ok = order_keys(unique);
    law_ranking(ok, unique.len() as int);
    let order = ranking(ok, unique.len() as int);
    let best = best_snippets(unique, max);
    let a = order[j];
    let b = order[k];
    assert(best[j] == unique[a]);
    assert(best[k] == unique[b]);
    if scores_compare(unique) {
        assert(ok[a] == order_key(unique[a]));
        assert(ok[b] == order_key(unique[b]));
    }
    assert(unique[a] == candidates[at[a]]);
    assert(unique[b] == candidates[at[b]]);
    assert(keys[at[a]] == key_of(candidates[at[a]], path));
    assert(keys[at[b]] == key_of(candidates[at[b]], path));
    if a < b {
        assert(keys[at[a]] != keys[at[b]]);
    } else {
        assert(keys[at[b]] != keys[at[a]]);
    }
}

/// Of the chosen snippets no two have the same key, and where every score is a number no
/// later one has a greater score.
pub proof fn law_choice(candidates: Seq<BundleSnippet>, path: Seq<char>, max: int)
    requires
        max >= 0,
    ensures
        ({
            let unique = unique_snippets(candidates, path);
            let best = best_snippets(unique, max);
            &&& best.len() <= max
            &&& forall|j: int, k: int|
                0 <= j < k < best.len() ==> key_of(#[trigger] best[j], path) != key_of(
                    #[trigger] best[k],
                    path,
                )
            &&& scores_compare(unique) ==> forall|j: int, k: int|
                0 <= j < k < best.len() ==> order_key(#[trigger] best[j]) >= order_key(
                    #[trigger] best[k],
                )
        }),
{
    let unique = unique_snippets(candidates, path);
    let best = best_snippets(unique, max);
    assert forall|j: int, k: int| 0 <= j < k < best.len() implies key_of(#[trigger] best[j], path)
        != key_of(#[trigger] best[k], path) by {
        lemma_chosen(candidates, path, max, j, k);
    }
    if scores_compare(unique) {
        assert forall|j: int, k: int| 0 <= j < k < best.len() implies order_key(
            #[trigger] best[j],
        ) >= order_key(#[trigger] best[k]) by {
            lemma_chosen(candidates, path, max, j, k);
        }
    }
}

/// What is said where no candidate was found and the stored defaults are returned.
pub fn fallback_warning(fallback_is_empty: bool, focused: bool) -> (r: Option<String>)
    ensures
        match r {
            Some(w) => (fallback_is_empty && w@ == "No snippets available for the requested file."@)
                || (!fallback_is_empty && focused && w@
                == "No stored snippets matched the requested focus; returning database defaults."@),
            None => !fallback_is_empty && !focused,
        },
{
    if fallback_is_empty {
        Some("No snippets available for the requested file.".to_owned())
    } else if focused {
        Some(
            "No stored snippets matched the requested focus; returning database defaults.".to_owned(),
        )
    } else {
        None
    }
}

/// Adds the neighbours' snippets behind the file's own, without those that are there
/// already or come twice.
pub fn append_neighbor_snippets(
    snippets: Vec<BundleSnippet>,
    neighbor_snippets: Vec<BundleSnippet>,
    path: &str,
) -> (r: Vec<BundleSnippet>)
    ensures
        r@ == snippets@ + snippets_at(
            neighbor_snippets@,
            new_positions(keys_of(snippets@, path@), keys_of(neighbor_snippets@, path@)),
        ),
{
    let existing = snippet_keys(&snippets, path);
    let mut added = drop_repeated(&existing, neighbor_snippets, path);
    let mut out = snippets;
    out.append(&mut added);
    out
}

// ---------------------------------------------------------------------------
// What holds of the snippets
// ---------------------------------------------------------------------------

proof fn lemma_starts_behind_feeds(s: Seq<char>, k: int)
    requires
        0 <= k < line_starts(s).len(),
    ensures
        0 <= line_starts(s)[k] <= s.len(),
        crate::sizes::count_of(s.take(line_starts(s)[k]), '\n') == k,
        k > 0 ==> line_starts(s)[k] > 0 && s[line_starts(s)[k] - 1] == '\n',
        k == 0 ==> line_starts(s)[k] == 0,
    decreases s.len(),
{
    lemma_line_starts(s);
    if s.len() > 0 {
        let front = s.drop_last();
        lemma_line_starts(front);
        let before = line_starts(front);
        if k < before.len() {
            lemma_starts_behind_feeds(front, k);
            assert(line_starts(s)[k] == before[k]);
            assert(front.take(before[k]) =~= s.take(before[k]));
            if k > 0 {
                assert(front[before[k] - 1] == s[before[k] - 1]);
            }
        } else {
            lemma_feeds_counted(front);
            assert(s.take(s.len() as int) =~= s);
        }
    } else {
        assert(s.take(0) =~= Seq::<char>::empty());
    }
}

proof fn lemma_feeds_counted(s: Seq<char>)
    ensures
        line_starts(s).len() == 1 + crate::sizes::count_of(s, '\n'),
    decreases s.len(),
{
    if s.len() > 0 {
        lemma_feeds_counted(s.drop_last());
    }
}

/// What a snippet of lines `a` to `z` shows begins at the start of line `a`, behind `a - 1`
/// line feeds, and ends with the line feed of line `z`, or at the end of the text.
pub proof fn law_lines_shown(s: Seq<char>, a: int, z: int)
    requires
        1 <= a <= z < line_bounds(s).len(),
    ensures
        ({
            let from = line_bounds(s)[a - 1];
            let to = line_bounds(s)[z];
            &&& 0 <= from < to <= s.len()
            &&& crate::sizes::count_of(s.take(from), '\n') == a - 1
            &&& from == 0 || s[from - 1] == '\n'
            &&& to == s.len() || (s[to - 1] == '\n' && crate::sizes::count_of(s.take(to), '\n')
                == z)
        }),
{
    lemma_line_bounds(s);
    lemma_line_starts(s);
    let starts = line_starts(s);
    assert(line_bounds(s)[a - 1] < line_bounds(s)[z]);
    assert(a - 1 < starts.len());
    assert(line_bounds(s)[a - 1] == starts[a - 1]);
    lemma_starts_behind_feeds(s, a - 1);
    if line_bounds(s)[z] != s.len() {
        assert(z < starts.len());
        lemma_starts_behind_feeds(s, z);
    }
}

/// A line is shown exactly where the text has it and the request covers it; a request whose
/// last line lies before its first is one for its first line.
pub proof fn law_requested_lines(count: int, first: int, last: int, line: int)
    requires
        count >= 0,
    ensures
        (shown_lines(count, first, last) matches Some((a, z)) && a <= line <= z) <==> 1 <= line
            <= count && first <= line && (line <= last || line == first),
        shown_lines(count, first, last) matches Some((a, z)) ==> 1 <= a <= z <= count,
{
}

/// Around a focus line inside the text, a line is shown exactly where the text has it and
/// it is at most 25 lines away.
pub proof fn law_focus_radius(count: int, focus: int, line: int)
    requires
        1 <= focus <= count,
    ensures
        (focus_lines(count, focus) matches Some((a, z)) && a <= line <= z) <==> 1 <= line <= count
            && -25 <= line - focus <= 25,
{
}

/// A focus line outside the text counts as the nearest line that there is.
pub proof fn law_focus_outside(count: int, focus: int)
    ensures
        focus < 1 ==> focus_lines(count, focus) == focus_lines(count, 1),
        focus > count >= 1 ==> focus_lines(count, focus) == focus_lines(count, count),
        count < 1 ==> focus_lines(count, focus) is None,
{
}

/// A text that introduces a definition counts for more than any that does not. Of two texts
/// that agree in this, documentation is worth three, open work costs two, and shortness is
/// worth two.
pub proof fn law_weight(a: Seq<char>, b: Seq<char>)
    ensures
        (contains_text(a, "fn "@) || contains_text(a, "pub "@) || contains_text(a, "struct "@)
            || contains_text(a, "class "@) || contains_text(a, "impl "@) || contains_text(a, "def "@)
            || contains_text(a, "enum "@) || contains_text(a, "interface "@)) <==> weight_of(a)
            >= 6,
        ({
            let structured = (weight_of(a) >= 6) == (weight_of(b) >= 6);
            let documented = |s: Seq<char>| contains_text(s, "///"@) || contains_text(s, "/**"@);
            let open = |s: Seq<char>| contains_text(s, "todo"@) || contains_text(s, "fixme"@);
            let short = |s: Seq<char>| utf8_size(s) < 120;
            &&& structured && open(a) == open(b) && short(a) == short(b) && documented(a)
                && !documented(b) ==> weight_of(a) == weight_of(b) + 3
            &&& structured && documented(a) == documented(b) && short(a) == short(b) && open(a)
                && !open(b) ==> weight_of(a) == weight_of(b) - 2
            &&& structured && documented(a) == documented(b) && open(a) == open(b) && short(a)
                && !short(b) ==> weight_of(a) == weight_of(b) + 2
            &&& structured && documented(a) == documented(b) && open(a) == open(b) && short(a)
                == short(b) ==> weight_of(a) == weight_of(b)
            &&& documented(a) == documented(b) && open(a) == open(b) && short(a) == short(b)
                && weight_of(a) >= 6 && weight_of(b) < 6 ==> weight_of(a) == weight_of(b) + 8
        }),
{
}

/// The lines of a snippet are its two lines, the smaller first.
pub proof fn law_line_span(b: BundleSnippet)
    ensures
        line_span(b) matches Some((a, z)) ==> 0 < a <= z && b.line_start is Some && b.line_end
            is Some && (b.line_start->0 == a && b.line_end->0 == z || b.line_start->0 == z
            && b.line_end->0 == a),
        b.line_start matches Some(a) ==> b.line_end matches Some(z) ==> 0 < a <= 0xffff_ffff && 0 < z
            <= 0xffff_ffff ==> line_span(b) is Some,
        b.line_start is None || b.line_end is None ==> line_span(b) is None,
{
}

/// The distance of a line is the one to the nearest line of the snippet.
pub proof fn law_focus_distance(b: BundleSnippet, line: int, other: int)
    requires
        line_span(b) is Some,
    ensures
        ({
            let (a, z) = line_span(b)->0;
            let d = focus_distance(b, line)->0;
            let nearest = if line < a {
                a
            } else if line > z {
                z
            } else {
                line
            };
            &&& focus_distance(b, line) is Some
            &&& d >= 0
            &&& a <= other <= z ==> line - other >= d || other - line >= d
            &&& line - nearest == d || nearest - line == d
        }),
{
}

/// What nearness counts for: 25 in the lines of the snippet, 15 up to five lines away, 8 up
/// to fifteen, 4 up to forty, and 1 beyond.
pub proof fn law_bonus(b: BundleSnippet, line: int)
    requires
        line_span(b) is Some,
        b.line_start->0 <= b.line_end->0,
    ensures
        bonus_of(b, line) == 25 <==> b.line_start->0 <= line <= b.line_end->0,
        bonus_of(b, line) >= 15 <==> b.line_start->0 - 5 <= line <= b.line_end->0 + 5,
        bonus_of(b, line) >= 8 <==> b.line_start->0 - 15 <= line <= b.line_end->0 + 15,
        bonus_of(b, line) >= 4 <==> b.line_start->0 - 40 <= line <= b.line_end->0 + 40,
        bonus_of(b, line) == 25 || bonus_of(b, line) == 15 || bonus_of(b, line) == 8 || bonus_of(
            b,
            line,
        ) == 4 || bonus_of(b, line) == 1,
{
}

/// What a request names outranks everything that is only stored, whatever the texts and the
/// lines are. A named range is worth ten more than the lines around the focus, which get
/// nothing for being near it.
pub proof fn law_requested_outranks_stored(
    asked: BundleSnippet,
    stored: BundleSnippet,
    focus_line: Option<u32>,
)
    ensures
        base_score_of(SnippetOrigin::Range, asked, focus_line) > base_score_of(
            SnippetOrigin::Stored,
            stored,
            focus_line,
        ) + 20,
        base_score_of(SnippetOrigin::Focus, asked, focus_line) > base_score_of(
            SnippetOrigin::Stored,
            stored,
            focus_line,
        ) + 20,
        base_score_of(SnippetOrigin::Range, asked, focus_line) == base_score_of(
            SnippetOrigin::Stored,
            asked,
            focus_line,
        ) + 90,
        base_score_of(SnippetOrigin::Focus, asked, focus_line) == base_score_of(
            SnippetOrigin::Focus,
            asked,
            None,
        ),
        base_score_of(SnippetOrigin::Range, asked, None) == base_score_of(
            SnippetOrigin::Focus,
            asked,
            None,
        ) + 10,
        focus_line matches Some(line) ==> base_score_of(SnippetOrigin::Stored, asked, focus_line)
            == base_score_of(SnippetOrigin::Stored, asked, None) + bonus_of(asked, line as int),
{
}

/// Vectors of two different models are never compared, and without a model on the side of
/// the query all are.
pub proof fn law_models(a: Seq<char>, b: Option<Seq<char>>)
    ensures
        models_agree(Some(a), b) <==> b == Some(a),
        models_agree(None, b),
{
}

/// Every range is answered once: by the lines that it shows, in the order of the ranges, or
/// by a warning.
pub proof fn law_ranges_answered(
    count: int,
    front: Seq<LineRange>,
    range: LineRange,
    back: Seq<LineRange>,
)
    ensures
        ({
            let shown = shown_lines(count, range.start_line as int, range.end_line as int);
            let all = front + seq![range] + back;
            &&& range_spans(count, all) == range_spans(count, front) + (match shown {
                Some(span) => seq![span],
                None => Seq::empty(),
            }) + range_spans(count, back)
            &&& range_warnings(count, all) == range_warnings(count, front) + (match shown {
                Some(_) => Seq::empty(),
                None => seq![range_warning(range)],
            }) + range_warnings(count, back)
            &&& range_spans(count, all).len() + range_warnings(count, all).len() == all.len()
        }),
    decreases back.len(),
{
    let all = front + seq![range] + back;
    lemma_ranges_counted(count, all);
    if back.len() == 0 {
        assert(all.drop_last() =~= front);
        assert(all.last() == range);
        let shown = shown_lines(count, range.start_line as int, range.end_line as int);
        assert(range_spans(count, all) =~= range_spans(count, front) + (match shown {
            Some(span) => seq![span],
            None => Seq::empty(),
        }) + range_spans(count, back));
        assert(range_warnings(count, all) =~= range_warnings(count, front) + (match shown {
            Some(_) => Seq::empty(),
            None => seq![range_warning(range)],
        }) + range_warnings(count, back));
    } else {
        law_ranges_answered(count, front, range, back.drop_last());
        assert(all.drop_last() =~= front + seq![range] + back.drop_last());
        assert(all.last() == back.last());
        let shown = shown_lines(count, range.start_line as int, range.end_line as int);
        assert(range_spans(count, all) =~= range_spans(count, front) + (match shown {
            Some(span) => seq![span],
            None => Seq::empty(),
        }) + range_spans(count, back));
        assert(range_warnings(count, all) =~= range_warnings(count, front) + (match shown {
            Some(_) => Seq::empty(),
            None => seq![range_warning(range)],
        }) + range_warnings(count, back));
    }
}

proof fn lemma_ranges_counted(count: int, ranges: Seq<LineRange>)
    ensures
        range_spans(count, ranges).len() + range_warnings(count, ranges).len() == ranges.len(),
    decreases ranges.len(),
{
    if ranges.len() > 0 {
        lemma_ranges_counted(count, ranges.drop_last());
    }
}

/// Without the file's content nothing is shown, and it is said of the ranges and of the
/// focus line, where there are any, that they are ignored.
pub proof fn law_no_content(ranges: Seq<LineRange>, focus_line: Option<u32>)
    ensures
        requested_spans(None, ranges, focus_line).len() == 0,
        request_warnings(None, ranges, focus_line).len() == (if ranges.len() > 0 {
            1int
        } else {
            0
        }) + (if focus_line is Some {
            1int
        } else {
            0
        }),
        ranges.len() > 0 ==> request_warnings(None, ranges, focus_line)[0]
            == "Requested ranges ignored because file content is unavailable."@,
        focus_line is Some ==> request_warnings(None, ranges, focus_line).last()
            == "focusLine ignored because file content is unavailable."@,
{
}

proof fn lemma_first_part(x: Seq<char>, p: Seq<char>, y: Seq<char>, q: Seq<char>)
    requires
        !x.contains(':'),
        !y.contains(':'),
        x + ":"@ + p == y + ":"@ + q,
    ensures
        x == y,
        p == q,
{
    reveal_strlit(":");
    let s = x + ":"@ + p;
    let t = y + ":"@ + q;
    assert(s[x.len() as int] == ':');
    assert(t[y.len() as int] == ':');
    if x.len() < y.len() {
        assert(y[x.len() as int] == t[x.len() as int]);
        assert(y.contains(':'));
    }
    if y.len() < x.len() {
        assert(x[y.len() as int] == s[y.len() as int]);
        assert(x.contains(':'));
    }
    assert(x =~= y) by {
        assert forall|i: int| 0 <= i < x.len() implies x[i] == y[i] by {
            assert(s[i] == t[i]);
        }
    }
    assert(p =~= q) by {
        assert(s.len() == t.len());
        assert forall|i: int| 0 <= i < p.len() implies p[i] == q[i] by {
            assert(s[x.len() + 1 + i] == t[x.len() + 1 + i]);
        }
    }
}

proof fn lemma_opt_number(a: Option<int>)
    requires
        a matches Some(v) ==> i64::MIN <= v <= i64::MAX,
    ensures
        !opt_number(a).contains(':'),
        opt_number(a).len() > 0,
        opt_number(a)[0] == 'N' <==> a is None,
        a matches Some(v) ==> opt_number(a).len() >= 6 && opt_number(a).subrange(
            5,
            opt_number(a).len() - 1,
        ) == signed_decimal(v),
{
    reveal_strlit("None");
    reveal_strlit("Some(");
    reveal_strlit(")");
    if let Some(v) = a {
        let d = signed_decimal(v);
        let n = if v < 0 {
            (-v) as nat
        } else {
            v as nat
        };
        crate::decimal::lemma_decimal_round_trip(n);
        let t = opt_number(a);
        assert(t.subrange(5, t.len() - 1) =~= d);
        assert forall|i: int| 0 <= i < t.len() implies t[i] != ':' by {
            if 5 <= i < t.len() - 1 {
                assert(t[i] == d[i - 5]);
                if v < 0 {
                    if i > 5 {
                        assert(d[i - 5] == crate::decimal::decimal(n)[i - 6]);
                    }
                } else {
                    assert('0' <= crate::decimal::decimal(n)[i - 5] <= '9');
                }
            }
        }
    }
}

proof fn lemma_opt_number_injective(a: Option<int>, b: Option<int>)
    requires
        a matches Some(v) ==> i64::MIN <= v <= i64::MAX,
        b matches Some(v) ==> i64::MIN <= v <= i64::MAX,
        opt_number(a) == opt_number(b),
    ensures
        a == b,
{
    lemma_opt_number(a);
    lemma_opt_number(b);
    if let Some(v) = a {
        if let Some(w) = b {
            crate::decimal::law_signed_read_back(v);
            crate::decimal::law_signed_read_back(w);
        }
    }
}

proof fn lemma_key_parts(b: BundleSnippet, path: Seq<char>)
    requires
        b.path is None,
    ensures
        key_of(b, path) == path + (":"@ + ((match b.source {
            SnippetSource::Chunk => "Chunk"@,
            SnippetSource::Content => "Content"@,
        }) + ":"@ + (opt_number(
            match b.chunk_index {
                Some(v) => Some(v as int),
                None => None,
            },
        ) + ":"@ + (opt_number(opt_int(b.line_start)) + ":"@ + (opt_number(opt_int(b.line_end))
            + ":"@ + opt_number(opt_int(b.byte_start))))))),
{
    let source = match b.source {
        SnippetSource::Chunk => "Chunk"@,
        SnippetSource::Content => "Content"@,
    };
    let chunk = opt_number(
        match b.chunk_index {
            Some(v) => Some(v as int),
            None => None,
        },
    );
    let first = opt_number(opt_int(b.line_start));
    let last = opt_number(opt_int(b.line_end));
    let start = opt_number(opt_int(b.byte_start));
    let tail1 = last + ":"@ + start;
    let tail2 = first + ":"@ + tail1;
    let tail3 = chunk + ":"@ + tail2;
    let tail4 = source + ":"@ + tail3;
    let c = ":"@;
    lemma_fold(path + c + source + c + chunk + c + first + c, last, c, start);
    lemma_fold(path + c + source + c + chunk + c, first, c, tail1);
    lemma_fold(path + c + source + c, chunk, c, tail2);
    lemma_fold(path + c, source, c, tail3);
    assert(path + c + tail4 =~= path + (c + tail4));
}

proof fn lemma_fold(front: Seq<char>, x: Seq<char>, c: Seq<char>, tail: Seq<char>)
    ensures
        front + x + c + tail == front + (x + c + tail),
{
    assert(front + x + c + tail =~= front + (x + c + tail));
}

proof fn lemma_same_tail(head: Seq<char>, a: Seq<char>, b: Seq<char>)
    requires
        head + a == head + b,
    ensures
        a == b,
{
    let x = head + a;
    let y = head + b;
    assert(x.len() == y.len());
    assert forall|i: int| 0 <= i < a.len() implies a[i] == b[i] by {
        assert(x[head.len() + i] == a[i]);
        assert(y[head.len() + i] == b[i]);
    }
    assert(a =~= b);
}

/// Two snippets of one file that count as the same come from the same source and stand at
/// the same place: the same chunk, lines and bytes.
#[verifier::spinoff_prover]
#[verifier::rlimit(60)]
pub proof fn law_keys_name_places(a: BundleSnippet, b: BundleSnippet, path: Seq<char>)
    requires
        a.path is None,
        b.path is None,
        key_of(a, path) == key_of(b, path),
    ensures
        a.source == b.source,
        a.chunk_index == b.chunk_index,
        a.line_start == b.line_start,
        a.line_end == b.line_end,
        a.byte_start == b.byte_start,
{
    reveal_strlit("Chunk");
    reveal_strlit("Content");
    lemma_key_parts(a, path);
    lemma_key_parts(b, path);
    let sa = match a.source {
        SnippetSource::Chunk => "Chunk"@,
        SnippetSource::Content => "Content"@,
    };
    let sb = match b.source {
        SnippetSource::Chunk => "Chunk"@,
        SnippetSource::Content => "Content"@,
    };
    let ca = match a.chunk_index {
        Some(v) => Some(v as int),
        None => None,
    };
    let cb = match b.chunk_index {
        Some(v) => Some(v as int),
        None => None,
    };
    let a1 = opt_number(opt_int(a.line_end)) + ":"@ + opt_number(opt_int(a.byte_start));
    let b1 = opt_number(opt_int(b.line_end)) + ":"@ + opt_number(opt_int(b.byte_start));
    let a2 = opt_number(opt_int(a.line_start)) + ":"@ + a1;
    let b2 = opt_number(opt_int(b.line_start)) + ":"@ + b1;
    let a3 = opt_number(ca) + ":"@ + a2;
    let b3 = opt_number(cb) + ":"@ + b2;
    let a4 = ":"@ + (sa + ":"@ + a3);
    let b4 = ":"@ + (sb + ":"@ + b3);
    lemma_same_tail(path, a4, b4);
    lemma_same_tail(":"@, sa + ":"@ + a3, sb + ":"@ + b3);
    lemma_first_part(sa, a3, sb, b3);
    assert("Chunk"@.len() == 5 && "Content"@.len() == 7);
    lemma_opt_number(ca);
    lemma_opt_number(cb);
    lemma_first_part(opt_number(ca), a2, opt_number(cb), b2);
    lemma_opt_number(opt_int(a.line_start));
    lemma_opt_number(opt_int(b.line_start));
    lemma_first_part(
        opt_number(opt_int(a.line_start)),
        a1,
        opt_number(opt_int(b.line_start)),
        b1,
    );
    lemma_opt_number(opt_int(a.line_end));
    lemma_opt_number(opt_int(b.line_end));
    lemma_first_part(
        opt_number(opt_int(a.line_end)),
        opt_number(opt_int(a.byte_start)),
        opt_number(opt_int(b.line_end)),
        opt_number(opt_int(b.byte_start)),
    );
    lemma_opt_number_injective(ca, cb);
    lemma_opt_number_injective(opt_int(a.line_start), opt_int(b.line_start));
    lemma_opt_number_injective(opt_int(a.line_end), opt_int(b.line_end));
    lemma_opt_number_injective(opt_int(a.byte_start), opt_int(b.byte_start));
}

/// As many snippets are chosen as there are and may be, and none that is left out has a
/// greater score than one that is chosen.
pub proof fn law_best_chosen(snippets: Seq<BundleSnippet>, max: int, i: int, k: int)
    requires
        max >= 0,
        scores_compare(snippets),
        0 <= i < snippets.len(),
        0 <= k < best_snippets(snippets, max).len(),
        !best_snippets(snippets, max).contains(snippets[i]),
    ensures
        best_snippets(snippets, max).len() == if snippets.len() <= max {
            snippets.len() as int
        } else {
            max
        },
        order_key(best_snippets(snippets, max)[k]) >= order_key(snippets[i]),
{
    let keys = order_keys(snippets);
    let n = snippets.len() as int;
    let order = ranking(keys, n);
    law_ranking(keys, n);
    let best = best_snippets(snippets, max);
    assert(order.contains(i));
    let p = choose|p: int| 0 <= p < order.len() && order[p] == i;
    if p < best.len() {
        assert(best[p] == snippets[i]);
    }
    assert(order.contains(order[k]));
    assert(k < p);
    assert(keys[order[k]] >= keys[order[p]]);
}

/// As many stored snippets are loaded as three for each that is wanted, at least three and at
/// most ten, and never fewer for more.
pub proof fn law_fetch_limit(wanted: usize, more: usize, limit: usize, larger: usize)
    requires
        wanted <= more,
        call_ensures(fetch_limit, (wanted,), limit),
        call_ensures(fetch_limit, (more,), larger),
    ensures
        3 <= limit <= 10,
        1 <= wanted <= 3 ==> limit == 3 * wanted,
        wanted > 3 ==> limit == 10,
        limit <= larger,
{
}

/// Something is said exactly where nothing could be shown, or where the request had a focus
/// that nothing matched.
pub proof fn law_fallback_told(empty: bool, focused: bool, warning: Option<String>)
    requires
        call_ensures(fallback_warning, (empty, focused), warning),
    ensures
        warning is Some <==> empty || focused,
        empty ==> (warning matches Some(w) ==> w@
            == "No snippets available for the requested file."@),
{
}

} // verus!
