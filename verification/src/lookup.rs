//! Files and texts looked up in a stored snapshot of a workspace.

use vstd::prelude::*;
use vstd::slice::slice_subrange;
use crate::decimal::{decimal, push_decimal};
use crate::pieces::{
    contains_text, find_from, first_occurrence, join, joined, occurs_at, push_text, replace_char,
    replaced_char, texts,
};
use crate::search_lexical::{escape_like_pattern, escaped, like_pattern};
use crate::sizes::{
    boundary, byte_length, char_at_byte, lemma_boundary_unique, lemma_size_take, size_of_chars,
    utf8_size,
};
use crate::spans::{char_index, is_span, lemma_span, piece};
use crate::text::{chars_of, lowercase, string_of, to_lowercase};

verus! {

/// A file that holds the text that was searched for.
#[derive(Debug)]
pub struct SearchMatch {
    pub path: String,
    pub snippet: Option<String>,
}

/// How many bytes a snippet shows on each side.
pub const SNIPPET_MARGIN: usize = 120;

/// How many matches are looked for where no number is given.
pub const DEFAULT_LOOKUP_LIMIT: usize = 10;

/// How many bytes of a file's text are shown.
pub const MAX_SHOWN_BYTES: usize = 400;

// ---------------------------------------------------------------------------
// Patterns
// ---------------------------------------------------------------------------

/// The text as a part of a pattern that means itself.
pub fn escape_like(input: &str) -> (r: String)
    ensures
        r@ == escaped(input@),
{
    escape_like_pattern(input)
}

/// The pattern of the texts that hold a text.
pub fn search_pattern(query: &str) -> (r: String)
    ensures
        r@ == "%"@ + escaped(query@) + "%"@,
{
    like_pattern(query)
}

// ---------------------------------------------------------------------------
// Snippets
// ---------------------------------------------------------------------------

/// What shows of a file that may hold a text.
#[derive(Debug)]
pub enum SnippetOutcome {
    /// The text is not there.
    Missing,
    /// The text is there, and this is what stands around it.
    Shown(String),
    /// The text is there, but the snippet would begin or end inside a character.
    Misaligned,
}

/// Where a snippet begins: `at` is the byte offset of the text.
pub open spec fn snippet_start(at: int) -> int {
    if at < SNIPPET_MARGIN {
        0
    } else {
        at - SNIPPET_MARGIN
    }
}

/// Where a snippet ends: the text of `size` bytes stands at `at`, and the file has `total`.
pub open spec fn snippet_end(at: int, size: int, total: int) -> int {
    if at + size + SNIPPET_MARGIN < total {
        at + size + SNIPPET_MARGIN
    } else {
        total
    }
}

/// What shows of a file between two offsets: its lines as one.
pub open spec fn shows(outcome: SnippetOutcome, content: Seq<char>, start: usize, end: usize) -> bool {
    if is_span(content, start, end) {
        outcome matches SnippetOutcome::Shown(text) && text@ == replaced_char(
            piece(content, start, end),
            '\n',
            ' ',
        )
    } else {
        outcome is Misaligned
    }
}

/// What shows of a file: `haystack` and `needle` are its text and the text searched for,
/// as they are compared.
pub open spec fn is_snippet(
    outcome: SnippetOutcome,
    content: Seq<char>,
    haystack: Seq<char>,
    needle: Seq<char>,
) -> bool {
    &&& outcome is Missing <==> !contains_text(haystack, needle)
    &&& forall|p: int| #[trigger]
        first_occurrence(haystack, needle, p) ==> shows(
            outcome,
            content,
            snippet_start(utf8_size(haystack.take(p)) as int) as usize,
            snippet_end(
                utf8_size(haystack.take(p)) as int,
                utf8_size(needle) as int,
                utf8_size(content) as int,
            ) as usize,
        )
}

/// The first character at or behind a byte offset, where one begins there.
fn span_of(content: &[char], start: usize, end: usize) -> (r: Option<(usize, usize)>)
    ensures
        match r {
            Some((i, j)) => {
                &&& is_span(content@, start, end)
                &&& i == char_index(content@, start)
                &&& j == char_index(content@, end)
                &&& i <= j <= content@.len()
            },
            None => !is_span(content@, start, end),
        },
{
    if start > end {
        return None;
    }
    let i = match char_at_byte(content, start) {
        Some(i) => i,
        None => return None,
    };
    let j = match char_at_byte(content, end) {
        Some(j) => j,
        None => return None,
    };
    proof {
        lemma_span(content@, start, end);
        lemma_boundary_unique(content@, start as int, i as int, char_index(content@, start));
        lemma_boundary_unique(content@, end as int, j as int, char_index(content@, end));
    }
    Some((i, j))
}

/// What shows of a file: `haystack` and `needle` are its text and the text searched for,
/// as they are compared.
pub fn cut_snippet(content: &str, haystack: &str, needle: &str) -> (r: SnippetOutcome)
    ensures
        is_snippet(r, content@, haystack@, needle@),
{
    let hay = chars_of(haystack);
    let pin = chars_of(needle);
    let total: usize = byte_length(content);
    let size: usize = byte_length(needle);
    let whole: usize = byte_length(haystack);
    let p = match find_from(hay.as_slice(), pin.as_slice(), 0) {
        Some(p) => p,
        None => {
            assert(!contains_text(haystack@, needle@));
            return SnippetOutcome::Missing;
        },
    };
    proof {
        assert(first_occurrence(haystack@, needle@, p as int));
        lemma_size_take(haystack@, p as int, p + needle@.len());
        assert(haystack@.subrange(p as int, p + needle@.len()) =~= needle@);
    }
    let front = slice_subrange(hay.as_slice(), 0, p);
    assert(front@ =~= haystack@.take(p as int));
    let at: usize = size_of_chars(front);
    let start: usize = if at < SNIPPET_MARGIN {
        0
    } else {
        at - SNIPPET_MARGIN
    };
    let end: usize = if total > at + size && total - (at + size) > SNIPPET_MARGIN {
        at + size + SNIPPET_MARGIN
    } else {
        total
    };
    let chars = chars_of(content);
    let outcome = match span_of(chars.as_slice(), start, end) {
        Some((i, j)) => {
            let cut = string_of(slice_subrange(chars.as_slice(), i, j));
            SnippetOutcome::Shown(replace_char(cut.as_str(), '\n', ' '))
        },
        None => SnippetOutcome::Misaligned,
    };
    proof {
        assert forall|q: int| #[trigger] first_occurrence(haystack@, needle@, q) implies q == p by {
            if q < p {
                assert(!occurs_at(haystack@, needle@, q));
            } else if p < q {
                assert(!occurs_at(haystack@, needle@, p as int));
            }
        }
        assert(contains_text(haystack@, needle@));
    }
    outcome
}

/// What shows of a file that may hold a text, in letters of any case.
pub fn create_snippet(content: &str, query: &str) -> (r: SnippetOutcome)
    ensures
        is_snippet(r, content@, lowercase(content@), lowercase(query@)),
{
    let needle = to_lowercase(query);
    let haystack = to_lowercase(content);
    cut_snippet(content, haystack.as_str(), needle.as_str())
}

/// The text can be cut behind so many bytes, or need not be.
pub open spec fn can_cut(text: Seq<char>, max: int) -> bool {
    utf8_size(text) <= max || exists|i: int| boundary(text, max, i)
}

/// The text, or its first `max` bytes and a mark where it has more.
pub fn truncate(text: &str, max: usize) -> (r: String)
    requires
        can_cut(text@, max as int),
    ensures
        utf8_size(text@) <= max ==> r@ == text@,
        utf8_size(text@) > max ==> exists|i: int| #[trigger]
            boundary(text@, max as int, i) && r@ == text@.take(i).push('…'),
{
    if byte_length(text) <= max {
        return text.to_owned();
    }
    let chars = chars_of(text);
    match char_at_byte(chars.as_slice(), max) {
        Some(i) => {
            let front = slice_subrange(chars.as_slice(), 0, i);
            assert(front@ =~= text@.take(i as int));
            let mut out = string_of(front);
            out.push('…');
            assert(boundary(text@, max as int, i as int));
            out
        },
        None => {
            assert(false);
            String::new()
        },
    }
}

/// Whether the text can be cut behind so many bytes, or need not be.
pub fn is_cuttable(text: &str, max: usize) -> (r: bool)
    ensures
        r == can_cut(text@, max as int),
{
    if byte_length(text) <= max {
        return true;
    }
    let chars = chars_of(text);
    match char_at_byte(chars.as_slice(), max) {
        Some(_) => true,
        None => false,
    }
}

// ---------------------------------------------------------------------------
// Requests and answers
// ---------------------------------------------------------------------------

/// What a lookup comes to.
#[derive(Debug)]
pub enum LookupPlan {
    /// It cannot be answered.
    Refuse(String),
    /// A file is fetched.
    Fetch(String),
    /// A text is searched for.
    Search { query: String, limit: usize },
}

/// What a lookup comes to: a file is fetched where one is named, else a text is searched
/// for.
pub fn plan_snapshot_lookup(
    has_index: bool,
    path: Option<String>,
    query: Option<String>,
    limit: Option<usize>,
) -> (r: LookupPlan)
    ensures
        if !has_index {
            r matches LookupPlan::Refuse(m) && m@
                == "No index available. Run ingest_codebase first."@
        } else {
            match path {
                Some(p) => r == LookupPlan::Fetch(p),
                None => match query {
                    Some(q) => r == (LookupPlan::Search {
                        query: q,
                        limit: match limit {
                            Some(n) => n,
                            None => DEFAULT_LOOKUP_LIMIT,
                        },
                    }),
                    None => r matches LookupPlan::Refuse(m) && m@
                        == "Either path or query is required."@,
                },
            }
        },
{
    if !has_index {
        return LookupPlan::Refuse("No index available. Run ingest_codebase first.".to_owned());
    }
    match path {
        Some(p) => LookupPlan::Fetch(p),
        None => match query {
            Some(q) => LookupPlan::Search {
                query: q,
                limit: match limit {
                    Some(n) => n,
                    None => DEFAULT_LOOKUP_LIMIT,
                },
            },
            None => LookupPlan::Refuse("Either path or query is required.".to_owned()),
        },
    }
}

/// What is said of a file that was fetched.
pub fn fetched_message(path: &str, size: u64) -> (r: String)
    ensures
        r@ == "Retrieved "@ + path@ + " ("@ + decimal(size as nat) + " bytes)"@,
{
    let mut out = "Retrieved ".to_owned();
    out.append(path);
    out.append(" (");
    push_decimal(&mut out, size);
    out.append(" bytes)");
    out
}

/// What is said of a file that is not there.
pub fn not_found_message(path: &str) -> (r: String)
    ensures
        r@ == path@ + " not found in the index"@,
{
    let mut out = path.to_owned();
    out.append(" not found in the index");
    out
}

/// The line of a match.
pub open spec fn match_line(m: SearchMatch) -> Seq<char> {
    "- "@ + m.path@
}

/// What is said of the matches.
pub open spec fn matches_text(matches: Seq<SearchMatch>) -> Seq<char> {
    if matches.len() == 0 {
        "No results."@
    } else {
        "Top "@ + decimal(matches.len()) + " results:\n"@ + joined(
            matches.map_values(|m: SearchMatch| match_line(m)),
            "\n"@,
        )
    }
}

/// What is said of the matches.
pub fn matches_message(matches: &Vec<SearchMatch>) -> (r: String)
    ensures
        r@ == matches_text(matches@),
{
    if matches.len() == 0 {
        return "No results.".to_owned();
    }
    let ghost all = matches@.map_values(|m: SearchMatch| match_line(m));
    let mut lines: Vec<String> = Vec::new();
    let mut i: usize = 0;
    assert(texts(lines@) =~= all.take(0));
    while i < matches.len()
        invariant
            i <= matches@.len(),
            all == matches@.map_values(|m: SearchMatch| match_line(m)),
            texts(lines@) == all.take(i as int),
        decreases matches.len() - i,
    {
        let mut line = "- ".to_owned();
        line.append(matches[i].path.as_str());
        assert(all.take(i + 1) =~= all.take(i as int).push(line@));
        push_text(&mut lines, line);
        i += 1;
    }
    assert(all.take(i as int) =~= all);
    let list = join(lines.as_slice(), "\n");
    let mut out = "Top ".to_owned();
    push_decimal(&mut out, matches.len() as u64);
    out.append(" results:\n");
    out.append(list.as_str());
    out
}

/// A snippet shows all of what was found, and 120 bytes on both sides of it, unless the file
/// begins or ends before.
pub proof fn law_snippet_bounds(at: int, size: int, total: int)
    requires
        0 <= at,
        0 <= size,
        at + size <= total,
    ensures
        0 <= snippet_start(at) <= at,
        at + size <= snippet_end(at, size, total) <= total,
        snippet_start(at) == 0 || at - snippet_start(at) == 120,
        snippet_end(at, size, total) == total || snippet_end(at, size, total) - (at + size)
            == 120,
        at - snippet_start(at) <= 120,
        snippet_end(at, size, total) - (at + size) <= 120,
{
}

/// A snippet is one line, as long as what it shows of the file.
pub proof fn law_snippet_one_line(
    outcome: SnippetOutcome,
    content: Seq<char>,
    start: usize,
    end: usize,
)
    requires
        shows(outcome, content, start, end),
    ensures
        outcome is Shown <==> is_span(content, start, end),
        outcome matches SnippetOutcome::Shown(text) ==> !text@.contains('\n') && text@.len() == piece(
            content,
            start,
            end,
        ).len(),
        outcome matches SnippetOutcome::Shown(text) ==> forall|i: int|
            0 <= i < text@.len() && piece(content, start, end)[i] != '\n' ==> #[trigger] text@[i]
                == piece(content, start, end)[i],
{
}

/// Every match is listed on a line of its own, in their order, under their number.
pub proof fn law_matches_text(ms: Seq<SearchMatch>, m: SearchMatch)
    ensures
        ms.len() == 0 ==> matches_text(ms) == "No results."@,
        ms.len() > 0 ==> ("Top "@ + decimal(ms.len()) + " results:\n"@).is_prefix_of(
            matches_text(ms),
        ),
        ms.len() > 0 ==> ("\n- "@ + m.path@).is_suffix_of(matches_text(ms.push(m))),
{
    reveal_strlit("\n");
    reveal_strlit("- ");
    reveal_strlit("\n- ");
    if ms.len() > 0 {
        let head = "Top "@ + decimal(ms.len()) + " results:\n"@;
        assert(matches_text(ms).subrange(0, head.len() as int) =~= head);
        let all = ms.push(m);
        let lines = all.map_values(|x: SearchMatch| match_line(x));
        assert(lines.last() == match_line(m));
        assert(lines.len() > 1);
        let front = joined(lines.drop_last(), "\n"@);
        let tail = "\n- "@ + m.path@;
        assert(joined(lines, "\n"@) == front + "\n"@ + match_line(m));
        assert(front + "\n"@ + match_line(m) =~= front + tail);
        let t = matches_text(all);
        assert(tail =~= t.subrange(t.len() - tail.len(), t.len() as int));
    }
}

} // verus!
